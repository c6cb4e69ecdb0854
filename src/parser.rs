use vstd::prelude::*;

use crate::errors::ParserError;
use crate::token::{Token, TokenV, tokens_view, tokenize, lex, literal_ok, literal_of};
use crate::value::{Object, Val, seq_view};

verus! {

/// The model of a parse failure.
pub enum ParseFailure {
    /// The first token was expected, the second was found.
    Expected(TokenV, Option<TokenV>),
    Other(Seq<char>),
}

impl View for ParserError {
    type V = ParseFailure;

    open spec fn view(&self) -> ParseFailure {
        match self {
            ParserError::ExpectedOtherToken(a, Some(b)) => ParseFailure::Expected(a@, Some(b@)),
            ParserError::ExpectedOtherToken(a, None) => ParseFailure::Expected(a@, None),
            ParserError::Error(s) => ParseFailure::Other(s@),
        }
    }
}

/// Parses one group from the token stack `st`, whose top is its last
/// element; gives the group and what is left of the stack.
///
/// The group opens with `(` (an empty stack gives the empty group) and ends
/// at its matching `)`; running out of tokens before it is an error.
pub open spec fn parse_group(st: Seq<TokenV>) -> (Result<Val, ParseFailure>, Seq<TokenV>)
    decreases st.len(), 0int,
{
    if st.len() == 0 {
        (Ok(Val::List(seq![])), st)
    } else if st.last() != TokenV::Open {
        (Err(ParseFailure::Expected(TokenV::Open, Some(st.last()))), st.drop_last())
    } else {
        parse_items(st.drop_last(), seq![])
    }
}

/// Parses the items of an open group onto `acc`, up to its closing `)`.
pub open spec fn parse_items(st: Seq<TokenV>, acc: Seq<Val>) -> (Result<Val, ParseFailure>, Seq<TokenV>)
    decreases st.len(), 1int,
{
    if st.len() == 0 {
        (Err(ParseFailure::Expected(TokenV::Close, None)), st)
    } else {
        match st.last() {
            TokenV::Number(n) => parse_items(st.drop_last(), acc.push(Val::Number(n))),
            TokenV::Symbol(s) => parse_items(st.drop_last(), acc.push(Val::Symbol(s))),
            TokenV::Close => (Ok(Val::List(acc)), st.drop_last()),
            TokenV::Open => {
                let (r, rest) = parse_group(st);
                match r {
                    Err(e) => (Err(e), rest),
                    Ok(v) => if rest.len() < st.len() {
                        parse_items(rest, acc.push(v))
                    } else {
                        // a nested group always takes at least its `(`
                        (Ok(Val::List(acc)), rest)
                    },
                }
            },
        }
    }
}

/// An executable parse result agrees with a modelled one.
pub open spec fn parsed(r: Result<Object, ParserError>, o: Result<Val, ParseFailure>) -> bool {
    match r {
        Ok(v) => o == Ok::<Val, ParseFailure>(v@),
        Err(e) => o == Err::<Val, ParseFailure>(e@),
    }
}

/// Parses one group from `tokens`, a stack of tokens whose top is its last
/// element (the source's tokens in reverse order), taking what it uses.
pub fn parse_list(tokens: &mut Vec<Token>) -> (r: Result<Object, ParserError>)
    ensures
        ({
            let (o, rest) = parse_group(tokens_view(old(tokens)@));
            parsed(r, o) && tokens_view(final(tokens)@) == rest
        }),
        final(tokens)@.len() <= old(tokens)@.len(),
        old(tokens)@.len() > 0 ==> final(tokens)@.len() < old(tokens)@.len(),
    decreases old(tokens)@.len(),
{
    let ghost st0 = tokens_view(tokens@);
    let first = tokens.pop();
    proof {
        if st0.len() > 0 {
            assert(tokens_view(tokens@) =~= st0.drop_last());
        }
    }
    match first {
        None => {
            return Ok(Object::List(Vec::new()));
        },
        Some(Token::LeftParenthesa) => {},
        Some(t) => {
            return Err(ParserError::ExpectedOtherToken(Token::LeftParenthesa, Some(t)));
        },
    }
    let mut list: Vec<Object> = Vec::new();
    loop
        invariant
            tokens@.len() < old(tokens)@.len(),
            parse_items(tokens_view(tokens@), seq_view(list@)) == parse_group(st0),
            st0 == tokens_view(old(tokens)@),
        decreases tokens@.len(),
    {
        let ghost st = tokens_view(tokens@);
        let ghost acc = seq_view(list@);
        match tokens.pop() {
            None => {
                return Err(ParserError::ExpectedOtherToken(Token::RightParenthesa, None));
            },
            Some(t) => {
                proof {
                    assert(tokens_view(tokens@) =~= st.drop_last());
                    assert(st.last() == t@);
                }
                match t {
                    Token::Number(n) => {
                        let o = Object::Number(n);
                        proof {
                            assert(list@.push(o).drop_last() == list@);
                            assert(o@ == Val::Number(n));
                        }
                        list.push(o);
                        assert(seq_view(list@) == acc.push(Val::Number(n)));
                    },
                    Token::Symbol(s) => {
                        let ghost sv = s@;
                        let o = Object::Symbol(s);
                        proof {
                            assert(list@.push(o).drop_last() == list@);
                            assert(o@ == Val::Symbol(sv));
                        }
                        list.push(o);
                        assert(seq_view(list@) == acc.push(Val::Symbol(sv)));
                    },
                    Token::RightParenthesa => {
                        return Ok(Object::List(list));
                    },
                    Token::LeftParenthesa => {
                        tokens.push(Token::LeftParenthesa);
                        proof {
                            assert(tokens_view(tokens@) =~= st);
                        }
                        match parse_list(tokens) {
                            Err(e) => {
                                return Err(e);
                            },
                            Ok(v) => {
                                proof {
                                    assert(list@.push(v).drop_last() == list@);
                                }
                                list.push(v);
                                assert(seq_view(list@) == acc.push(v@));
                            },
                        }
                    },
                }
            },
        }
    }
}

} // verus!
verus! {

/// `s` in reverse order.
pub open spec fn reversed(s: Seq<TokenV>) -> Seq<TokenV> {
    Seq::new(s.len(), |i: int| s[s.len() - 1 - i])
}

/// What parsing `source` gives, with `lit` reading numeric literals: the
/// first group of its tokens. A `)` right after that group has no group to
/// close, and is an error.
pub open spec fn parse_spec(lit: spec_fn(Seq<char>) -> Option<u64>, source: Seq<char>) -> Result<
    Val,
    ParseFailure,
> {
    let (r, rest) = parse_group(reversed(lex(lit, source, 0, seq![])));
    if r is Ok && rest.len() > 0 && rest.last() == TokenV::Close {
        Err(ParseFailure::Expected(TokenV::Open, Some(TokenV::Close)))
    } else {
        r
    }
}

/// Parses source text into one syntax tree: the first group of its tokens.
/// A group left open, or a `)` right after the root group, is an error.
pub fn parse<L: Fn(&str) -> Option<u64>>(content: &str, literal: &L) -> (r: Result<
    Object,
    ParserError,
>)
    requires
        literal_ok(*literal),
    ensures
        parsed(r, parse_spec(literal_of(*literal), content@)),
{
    let mut tokens = match tokenize(content, literal) {
        Ok(t) => t,
        Err(e) => {
            return Err(ParserError::Error(e.message()));
        },
    };
    let ghost o = tokens_view(tokens@);
    let ghost n = o.len();
    let mut stack: Vec<Token> = Vec::new();
    while tokens.len() > 0
        invariant
            n == o.len(),
            tokens@.len() + stack@.len() == n,
            tokens_view(tokens@) == o.subrange(0, tokens@.len() as int),
            tokens_view(stack@) == reversed(o).subrange(0, stack@.len() as int),
        decreases tokens@.len(),
    {
        let ghost before = tokens_view(tokens@);
        let ghost sv = tokens_view(stack@);
        match tokens.pop() {
            Some(t) => {
                proof {
                    assert(tokens_view(tokens@) =~= o.subrange(0, tokens@.len() as int));
                    assert(before[tokens@.len() as int] == t@);
                    assert(t@ == o[tokens@.len() as int]);
                }
                stack.push(t);
                proof {
                    assert(tokens_view(stack@) =~= reversed(o).subrange(0, stack@.len() as int));
                }
            },
            None => {},
        }
    }
    proof {
        assert(tokens_view(stack@) =~= reversed(o));
    }
    let r = parse_list(&mut stack);
    if r.is_ok() && stack.len() > 0 {
        if let Token::RightParenthesa = &stack[stack.len() - 1] {
            return Err(
                ParserError::ExpectedOtherToken(Token::LeftParenthesa, Some(Token::RightParenthesa)),
            );
        }
    }
    r
}

} // verus!
