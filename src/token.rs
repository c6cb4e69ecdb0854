use vstd::prelude::*;

use crate::errors::TokenizeError;
use vstd::std_specs::iter::IteratorSpec;

verus! {

/// The tokens of the surface syntax.
#[derive(Debug, PartialEq, Eq, Clone)]
pub enum Token {
    /// A numeric literal, by the bit pattern of its 64-bit float.
    Number(u64),
    Symbol(String),
    LeftParenthesa,
    RightParenthesa,
}

/// The model of a token.
pub enum TokenV {
    Number(u64),
    Symbol(Seq<char>),
    Open,
    Close,
}

impl View for Token {
    type V = TokenV;

    open spec fn view(&self) -> TokenV {
        match self {
            Token::Number(n) => TokenV::Number(*n),
            Token::Symbol(s) => TokenV::Symbol(s@),
            Token::LeftParenthesa => TokenV::Open,
            Token::RightParenthesa => TokenV::Close,
        }
    }
}

/// The model of a sequence of tokens.
pub open spec fn tokens_view(s: Seq<Token>) -> Seq<TokenV> {
    Seq::new(s.len(), |i: int| s[i]@)
}

/// The characters with the Unicode `White_Space` property.
pub open spec fn is_space(c: char) -> bool {
    ||| c == '\t' || c == '\n' || c == '\u{0B}' || c == '\u{0C}' || c == '\r' || c == ' '
    ||| c == '\u{85}' || c == '\u{A0}' || c == '\u{1680}'
    ||| ('\u{2000}' <= c && c <= '\u{200A}')
    ||| c == '\u{2028}' || c == '\u{2029}' || c == '\u{202F}' || c == '\u{205F}'
    ||| c == '\u{3000}'
}

/// Whether `c` separates words.
pub fn space(c: char) -> (r: bool)
    ensures
        r == is_space(c),
{
    c == '\t' || c == '\n' || c == '\u{0B}' || c == '\u{0C}' || c == '\r' || c == ' ' || c
        == '\u{85}' || c == '\u{A0}' || c == '\u{1680}' || ('\u{2000}' <= c && c <= '\u{200A}')
        || c == '\u{2028}' || c == '\u{2029}' || c == '\u{202F}' || c == '\u{205F}' || c
        == '\u{3000}'
}

/// The token of a word: a number where `lit` reads one, else a symbol.
pub open spec fn word_token(lit: spec_fn(Seq<char>) -> Option<u64>, w: Seq<char>) -> TokenV {
    match lit(w) {
        Some(n) => TokenV::Number(n),
        None => TokenV::Symbol(w),
    }
}

/// The token of the pending word, if there is one.
pub open spec fn flush(lit: spec_fn(Seq<char>) -> Option<u64>, w: Seq<char>) -> Seq<TokenV> {
    if w.len() == 0 {
        seq![]
    } else {
        seq![word_token(lit, w)]
    }
}

/// The tokens of `s[i..]`, where `w` is the word that is pending at `i`.
/// Parentheses are tokens of their own; other characters that are not
/// white space make up words.
pub open spec fn lex(lit: spec_fn(Seq<char>) -> Option<u64>, s: Seq<char>, i: int, w: Seq<char>) -> Seq<
    TokenV,
>
    decreases s.len() - i,
{
    if i < 0 || i >= s.len() {
        flush(lit, w)
    } else if s[i] == '(' {
        flush(lit, w).push(TokenV::Open) + lex(lit, s, i + 1, seq![])
    } else if s[i] == ')' {
        flush(lit, w).push(TokenV::Close) + lex(lit, s, i + 1, seq![])
    } else if is_space(s[i]) {
        flush(lit, w) + lex(lit, s, i + 1, seq![])
    } else {
        lex(lit, s, i + 1, w.push(s[i]))
    }
}

/// The literal reader can always be called and gives one result per word.
pub open spec fn literal_ok<L: Fn(&str) -> Option<u64>>(literal: L) -> bool {
    &&& forall|w: &str| #[trigger] literal.requires((w,))
    &&& forall|w1: &str, w2: &str, r1: Option<u64>, r2: Option<u64>|
        w1@ == w2@ && #[trigger] literal.ensures((w1,), r1) && #[trigger] literal.ensures((w2,), r2)
            ==> r1 == r2
}

/// The function that a literal reader computes.
pub open spec fn literal_of<L: Fn(&str) -> Option<u64>>(literal: L) -> spec_fn(Seq<char>) -> Option<u64> {
    |w: Seq<char>|
        (choose|p: (Option<u64>, &str)| p.1@ == w && #[trigger] literal.ensures((p.1,), p.0)).0
}

} // verus!
verus! {

/// The characters of `s`, in order.
pub fn chars_of(s: &str) -> (r: Vec<char>)
    ensures
        r@ == s@,
{
    let n = s.unicode_len();
    let mut r: Vec<char> = Vec::new();
    let mut it = s.chars();
    proof {
        broadcast use vstd::string::axiom_spec_iter;
        broadcast use vstd::string::next_postcondition;
    }
    let mut done = false;
    while !done
        invariant
            n == s@.len(),
            r@.len() <= n,
            r@ == s@.subrange(0, r@.len() as int),
            !done ==> it.remaining() == s@.subrange(r@.len() as int, n as int),
            !done ==> it.obeys_prophetic_iter_laws(),
            done ==> r@.len() == n,
        decreases n - r@.len() + (if done { 0int } else { 1int }),
    {
        broadcast use vstd::string::next_postcondition;
        match it.next() {
            Some(c) => {
                proof {
                    assert(r@.push(c) =~= s@.subrange(0, r@.len() as int + 1));
                    assert(it.remaining() =~= s@.subrange(r@.len() as int + 1, n as int));
                }
                r.push(c);
            },
            None => {
                done = true;
            },
        }
    }
    proof {
        assert(r@ =~= s@);
    }
    r
}

} // verus!
verus! {

/// The token of the word `content[start..end]`.
fn word_at<L: Fn(&str) -> Option<u64>>(content: &str, start: usize, end: usize, literal: &L) -> (t:
    Token)
    requires
        start <= end <= content@.len(),
        literal_ok(*literal),
    ensures
        t@ == word_token(literal_of(*literal), content@.subrange(start as int, end as int)),
{
    let w = content.substring_char(start, end);
    let r = literal(w);
    proof {
        let lit = literal_of(*literal);
        assert(exists|p: (Option<u64>, &str)| p.1@ == w@ && #[trigger] literal.ensures((p.1,), p.0))
            by {
            assert(literal.ensures(((r, w).1,), (r, w).0));
        }
        let p = choose|p: (Option<u64>, &str)| p.1@ == w@ && #[trigger] literal.ensures((p.1,), p.0);
        assert(lit(w@) == p.0);
        assert(literal.ensures((p.1,), p.0));
        assert(literal.ensures((w,), r));
    }
    match r {
        Some(n) => Token::Number(n),
        None => Token::Symbol(w.to_owned()),
    }
}

/// Splits `content` into tokens: `(` and `)` stand alone, white space
/// separates words, and a word is a number where `literal` reads one and
/// a symbol otherwise.
pub fn tokenize<L: Fn(&str) -> Option<u64>>(content: &str, literal: &L) -> (r: Result<
    Vec<Token>,
    TokenizeError,
>)
    requires
        literal_ok(*literal),
    ensures
        r matches Ok(v) && tokens_view(v@) == lex(literal_of(*literal), content@, 0, seq![]),
{
    let ghost lit = literal_of(*literal);
    let ghost s = content@;
    let chars = chars_of(content);
    let mut tokens: Vec<Token> = Vec::new();
    let mut start: usize = 0;
    let mut i: usize = 0;
    assert(s.subrange(0, 0) =~= seq![]);
    while i < chars.len()
        invariant
            lit == literal_of(*literal),
            literal_ok(*literal),
            s == content@,
            chars@ == s,
            start <= i <= s.len(),
            tokens_view(tokens@) + lex(lit, s, i as int, s.subrange(start as int, i as int)) == lex(
                lit,
                s,
                0,
                seq![],
            ),
        decreases s.len() - i,
    {
        let c = chars[i];
        let ghost w = s.subrange(start as int, i as int);
        let ghost before = tokens_view(tokens@);
        if c == '(' || c == ')' || space(c) {
            if start < i {
                let t = word_at(content, start, i, literal);
                tokens.push(t);
            }
            proof {
                assert(tokens_view(tokens@) =~= before + flush(lit, w));
            }
            if c == '(' {
                let ghost mid = tokens_view(tokens@);
                tokens.push(Token::LeftParenthesa);
                assert(tokens_view(tokens@) =~= mid.push(TokenV::Open));
            } else if c == ')' {
                let ghost mid = tokens_view(tokens@);
                tokens.push(Token::RightParenthesa);
                assert(tokens_view(tokens@) =~= mid.push(TokenV::Close));
            }
            proof {
                let rest = lex(lit, s, i + 1, seq![]);
                assert(s.subrange(i + 1, i + 1) =~= seq![]);
                if c == '(' {
                    assert(before + (flush(lit, w).push(TokenV::Open) + rest) =~= tokens_view(tokens@)
                        + rest);
                } else if c == ')' {
                    assert(before + (flush(lit, w).push(TokenV::Close) + rest) =~= tokens_view(
                        tokens@,
                    ) + rest);
                } else {
                    assert(before + (flush(lit, w) + rest) =~= tokens_view(tokens@) + rest);
                }
            }
            start = i + 1;
        } else {
            proof {
                assert(s.subrange(start as int, i + 1) =~= w.push(c));
            }
        }
        i = i + 1;
    }
    let ghost before = tokens_view(tokens@);
    let ghost w = s.subrange(start as int, i as int);
    if start < i {
        let t = word_at(content, start, i, literal);
        tokens.push(t);
    }
    proof {
        assert(tokens_view(tokens@) =~= before + flush(lit, w));
    }
    Ok(tokens)
}

} // verus!
