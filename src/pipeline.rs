use vstd::prelude::*;

use crate::eval::{eval_error_text, eval_spec};
use crate::expression::render_spec;
use crate::lexer::{lex, lex_error_text, lex_spec, view_tokens, LexItem};
use crate::parser::{parse_at, parse_error_text, Parser};

verus! {

/// What the whole pipeline answers for a sequence of tokens: the text of the
/// value of the first expression, or the message of the first error.
pub open spec fn outcome_text(toks: Seq<LexItem>) -> Seq<char> {
    match parse_at(toks, 0) {
        Err(e) => "Error parsing expression: "@ + parse_error_text(e),
        Ok((ex, _)) => match eval_spec(ex) {
            Ok(v) => render_spec(v),
            Err(e) => "Error evaluating expression: "@ + eval_error_text(e),
        },
    }
}

/// Parses, evaluates and renders a sequence of tokens.
pub fn run_tokens(tokens: Vec<LexItem>) -> (r: String)
    ensures
        r@ == outcome_text(tokens@),
{
    let mut parser = Parser::from_tokens(tokens);
    match parser.parse() {
        Ok(e) => match e.eval() {
            Ok(v) => v.render(),
            Err(err) => {
                let mut s = <String as StringExecFns>::from_str("Error evaluating expression: ");
                let m = err.message();
                s.append(m.as_str());
                s
            },
        },
        Err(err) => {
            let mut s = <String as StringExecFns>::from_str("Error parsing expression: ");
            let m = err.message();
            s.append(m.as_str());
            s
        },
    }
}

/// Lexes, parses, evaluates and renders a text: the rendered value, or a message
/// that says in which phase the first error came and what it was.
pub fn run(input: &str) -> (r: String)
    ensures
        match lex_spec(input@) {
            Err(e) => r@ == "Error parsing expression: "@ + lex_error_text(e),
            Ok(ts) => exists|toks: Seq<LexItem>| view_tokens(toks) == ts && r@ == outcome_text(toks),
        },
{
    match lex(input) {
        Ok(tokens) => {
            let ghost toks = tokens@;
            let r = run_tokens(tokens);
            assert(view_tokens(toks) == lex_spec(input@)->Ok_0 && r@ == outcome_text(toks));
            r
        },
        Err(err) => {
            let mut s = <String as StringExecFns>::from_str("Error parsing expression: ");
            let m = err.message();
            s.append(m.as_str());
            s
        },
    }
}

} // verus!
