//! A small S-expression language: tokenizer, parser, environment and a
//! tree-walking evaluator, with their behaviour stated as contracts.
//!
//! Numbers are 64-bit IEEE-754 floats held by their bit pattern (`u64`).
//! Reading a numeric literal, arithmetic and comparison of such numbers are
//! supplied by the caller as closures; everything else is done here.

pub mod errors;
pub mod token;
pub mod value;
pub mod env;
pub mod parser;
pub mod eval;

pub use errors::{TokenizeError, ParserError, EvaluatorError};
pub use token::{Token, tokenize};
pub use value::{Object, BinOp, Order};
pub use env::{Env, Binding};
pub use parser::{parse, parse_list};
pub use eval::{eval, eval_obj, DEPTH_LIMIT};
