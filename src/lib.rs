//! A small prefix-notation expression language: lexer, recursive-descent
//! parser, substitution-based evaluator and renderer, each verified against a
//! mathematical model of its behaviour.

pub mod eval;
pub mod expression;
pub mod lexer;
pub mod parser;
pub mod pipeline;
pub mod roundtrip;

pub use eval::{substitute, EvalError, MismatchSite};
pub use expression::{BinaryOperator, Expression, UnaryOperator};
pub use lexer::{lex, LexError, LexItem};
pub use parser::{Expected, ParseError, Parser};
pub use pipeline::{run, run_tokens};
