use vstd::prelude::*;

use crate::token::Token;
use vstd::string::StringExecFns;

verus! {

/// Failure of the tokenizer. The tokenizer accepts every input, so this
/// is never produced; it is kept so that callers can name it.
#[derive(Debug, PartialEq, Eq)]
pub enum TokenizeError {
    Error(String),
}

/// Structural failure while building the syntax tree.
#[derive(Debug, PartialEq, Eq)]
pub enum ParserError {
    /// The first token names what was expected, the second what was found
    /// (`None` where the input ended).
    ExpectedOtherToken(Token, Option<Token>),
    /// Generic structural failure.
    Error(String),
}

/// Failure of an evaluation. Each carries the name (symbol or keyword) it
/// concerns.
#[derive(Debug, PartialEq, Eq)]
pub enum EvaluatorError {
    /// A symbol was looked up and no frame binds it.
    UnboundSymbol(String),
    /// An operand or a condition had the wrong kind of value.
    TypeMismatch(String),
    /// A special form whose parts have the wrong shape.
    MalformedForm(String),
    /// A form with the wrong number of items, or a call with too few arguments.
    ArityMismatch(String),
    /// A call of a name that is not bound.
    UndefinedFunction(String),
    /// A call of a name bound to something that is not a procedure.
    NotCallable(String),
    /// The source text could not be parsed.
    Parse(ParserError),
    /// Nesting deeper than the evaluation budget allows.
    DepthExhausted,
}

/// The model of an evaluation failure.
pub enum Failure {
    UnboundSymbol(Seq<char>),
    TypeMismatch(Seq<char>),
    MalformedForm(Seq<char>),
    ArityMismatch(Seq<char>),
    UndefinedFunction(Seq<char>),
    NotCallable(Seq<char>),
    Parse,
    DepthExhausted,
}

impl View for EvaluatorError {
    type V = Failure;

    open spec fn view(&self) -> Failure {
        match self {
            EvaluatorError::UnboundSymbol(s) => Failure::UnboundSymbol(s@),
            EvaluatorError::TypeMismatch(s) => Failure::TypeMismatch(s@),
            EvaluatorError::MalformedForm(s) => Failure::MalformedForm(s@),
            EvaluatorError::ArityMismatch(s) => Failure::ArityMismatch(s@),
            EvaluatorError::UndefinedFunction(s) => Failure::UndefinedFunction(s@),
            EvaluatorError::NotCallable(s) => Failure::NotCallable(s@),
            EvaluatorError::Parse(_) => Failure::Parse,
            EvaluatorError::DepthExhausted => Failure::DepthExhausted,
        }
    }
}

impl TokenizeError {
    /// A readable description of the error.
    pub fn message(&self) -> (r: String)
        ensures
            self matches TokenizeError::Error(cause) && r@ == cause@,
    {
        match self {
            TokenizeError::Error(cause) => cause.clone(),
        }
    }
}

/// `prefix` followed by `tail`.
fn joined(prefix: &str, tail: &str) -> (r: String)
    ensures
        r@ == prefix@ + tail@,
{
    let mut r = String::from_str(prefix);
    r.append(tail);
    r
}

impl Token {
    /// How the token reads in a message.
    pub fn describe(&self) -> (r: String)
        ensures
            self matches Token::Symbol(s) ==> r@ == s@,
            self is LeftParenthesa ==> r@ == "("@,
            self is RightParenthesa ==> r@ == ")"@,
            self is Number ==> r@ == "number"@,
    {
        match self {
            Token::Number(_) => String::from_str("number"),
            Token::Symbol(s) => s.clone(),
            Token::LeftParenthesa => String::from_str("("),
            Token::RightParenthesa => String::from_str(")"),
        }
    }
}

impl ParserError {
    /// A readable description of the error.
    pub fn message(&self) -> (r: String)
        ensures
            self matches ParserError::Error(cause) ==> r@ == cause@,
            self matches ParserError::ExpectedOtherToken(a, Some(b)) ==> r@ == "expected "@
                + a.describe_spec() + " token, found "@ + b.describe_spec(),
            self matches ParserError::ExpectedOtherToken(a, None) ==> r@ == "expected "@
                + a.describe_spec() + " token, found the end of the input"@,
    {
        match self {
            ParserError::ExpectedOtherToken(a, found) => {
                let mut r = joined("expected ", a.describe().as_str());
                match found {
                    Some(b) => {
                        r.append(" token, found ");
                        r.append(b.describe().as_str());
                    },
                    None => {
                        r.append(" token, found the end of the input");
                    },
                }
                r
            },
            ParserError::Error(cause) => cause.clone(),
        }
    }
}

impl Token {
    /// How the token reads in a message.
    pub open spec fn describe_spec(&self) -> Seq<char> {
        match self {
            Token::Number(_) => "number"@,
            Token::Symbol(s) => s@,
            Token::LeftParenthesa => "("@,
            Token::RightParenthesa => ")"@,
        }
    }
}

impl ParserError {
    /// What `message` gives.
    pub open spec fn message_spec(&self) -> Seq<char> {
        match self {
            ParserError::ExpectedOtherToken(a, Some(b)) => "expected "@ + a.describe_spec()
                + " token, found "@ + b.describe_spec(),
            ParserError::ExpectedOtherToken(a, None) => "expected "@ + a.describe_spec()
                + " token, found the end of the input"@,
            ParserError::Error(cause) => cause@,
        }
    }
}

impl EvaluatorError {
    /// A readable description of the error.
    pub fn message(&self) -> (r: String)
        ensures
            self matches EvaluatorError::UnboundSymbol(s) ==> r@ == "unbound symbol: "@ + s@,
            self matches EvaluatorError::TypeMismatch(s) ==> r@ == "type mismatch in: "@ + s@,
            self matches EvaluatorError::MalformedForm(s) ==> r@ == "malformed form: "@ + s@,
            self matches EvaluatorError::ArityMismatch(s) ==> r@ == "wrong number of items for: "@
                + s@,
            self matches EvaluatorError::UndefinedFunction(s) ==> r@ == "undefined function: "@ + s@,
            self matches EvaluatorError::NotCallable(s) ==> r@ == "not callable: "@ + s@,
            self is DepthExhausted ==> r@ == "nesting too deep"@,
            self matches EvaluatorError::Parse(e) ==> r@ == "failed to parse: "@
                + e.message_spec(),
    {
        match self {
            EvaluatorError::UnboundSymbol(s) => joined("unbound symbol: ", s.as_str()),
            EvaluatorError::TypeMismatch(s) => joined("type mismatch in: ", s.as_str()),
            EvaluatorError::MalformedForm(s) => joined("malformed form: ", s.as_str()),
            EvaluatorError::ArityMismatch(s) => joined("wrong number of items for: ", s.as_str()),
            EvaluatorError::UndefinedFunction(s) => joined("undefined function: ", s.as_str()),
            EvaluatorError::NotCallable(s) => joined("not callable: ", s.as_str()),
            EvaluatorError::Parse(e) => joined("failed to parse: ", e.message().as_str()),
            EvaluatorError::DepthExhausted => String::from_str("nesting too deep"),
        }
    }
}

} // verus!
