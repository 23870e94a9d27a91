//! A minimal expression evaluator: a lexer turns one line of text into tokens,
//! and a recursive-descent parser evaluates them against a two-level grammar
//! (sums and differences of products and quotients of integer literals and
//! single-character variables, with `id = expr` assignment), keeping a symbol
//! table for the variables.

pub mod lexer;
pub mod parser;
pub mod semantics;
pub mod table;
pub mod token;

use vstd::prelude::*;

use crate::lexer::{lex_acc, lex_ok, tokenize_stream};
use crate::parser::Parser;
use crate::semantics::eval_tokens;
use crate::token::{EvalError, LexError, LineError};

verus! {

/// Evaluate one line of text: tokenize it, then run one `expr` reduction over
/// the resulting tokens with a fresh symbol table.
pub fn evaluate_line(input: &str) -> (r: Result<i32, LineError>)
    ensures
        match r {
            Ok(v) => lex_ok(input@, 0) && eval_tokens(lex_acc(input@, 0)) == Ok::<int, EvalError>(
                v as int,
            ),
            Err(le) => match le {
                LineError::Lex(e) => !lex_ok(input@, 0) && e == LexError::LiteralTooLarge,
                LineError::Eval(e) => lex_ok(input@, 0) && eval_tokens(lex_acc(input@, 0)) == Err::<int, EvalError>(e),
            },
        },
{
    let tokens = match tokenize_stream(input) {
        Ok(t) => t,
        Err(e) => {
            return Err(LineError::Lex(e));
        },
    };
    let mut p = match Parser::new(tokens) {
        Ok(p) => p,
        Err(e) => {
            return Err(LineError::Eval(e));
        },
    };
    match p.parse() {
        Ok(v) => Ok(v),
        Err(e) => Err(LineError::Eval(e)),
    }
}

} // verus!
