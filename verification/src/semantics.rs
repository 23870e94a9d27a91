//! The mathematical meaning of evaluation: a recursive definition over the
//! grammar
//!
//! ```text
//! expr    := factor ( ('+' | '-') expr )?
//! factor  := literal ( ('*' | '/') factor )?
//! literal := INT | ID '=' expr | ID
//! ```
//!
//! Each production recurses into itself rather than looping, so `-` and `/`
//! group to the right: `10-3-2` means `10-(3-2)`.

use vstd::prelude::*;

use crate::token::{EvalError, Token};

verus! {

/// The parser's abstract state: the single lookahead token, the queue of
/// pending tokens behind it, and the symbol table.
#[verifier::ext_equal]
pub ghost struct State {
    pub lookahead: Token,
    pub pending: Seq<Token>,
    pub table: Map<char, int>,
}

/// What one grammar production yields: the value and the state left behind,
/// or the error that stopped evaluation.
pub type Outcome = Result<(int, State), EvalError>;

pub open spec fn in_i32(v: int) -> bool {
    i32::MIN <= v <= i32::MAX
}

/// Consume the lookahead: the next pending token replaces it. When the queue
/// is already empty the lookahead stays as it is, so the terminal token can be
/// inspected more than once at the tail of the input.
pub open spec fn advance(s: State) -> State {
    if s.pending.len() > 0 {
        State { lookahead: s.pending[0], pending: s.pending.drop_first(), table: s.table }
    } else {
        s
    }
}

/// Termination guard for the mutually recursive definitions below: evaluation
/// never lengthens the pending queue, so on every state the evaluator actually
/// yields this is the identity, and it only makes the recursion's termination
/// measure evident (the executable parser's contracts confirm that the guard
/// never falls back to `pre`).
pub open spec fn bounded(pre: State, post: State) -> State {
    if post.pending.len() <= pre.pending.len() {
        post
    } else {
        pre
    }
}

pub open spec fn abs_int(a: int) -> int {
    if a < 0 {
        -a
    } else {
        a
    }
}

/// Division as Rust computes it on machine integers: the quotient of the
/// magnitudes, negated when the operands' signs differ (truncation toward
/// zero, where `/` on `int` alone would be Euclidean).
pub open spec fn div_trunc(a: int, b: int) -> int {
    if (a < 0) == (b < 0) {
        abs_int(a) / abs_int(b)
    } else {
        -(abs_int(a) / abs_int(b))
    }
}

/// `literal := INT | ID '=' expr | ID`. A literal yields its value; an
/// identifier followed by `=` evaluates the rest as the right-hand side, binds
/// the identifier to that value and yields it; a bare identifier yields its
/// binding and fails when it has none.
pub open spec fn eval_literal(s: State) -> Outcome
    decreases s.pending.len(), 0int,
{
    match s.lookahead {
        Token::Literal(n) => Ok((n as int, advance(s))),
        Token::ID(c) => {
            let s1 = advance(s);
            if s1.lookahead == Token::Equal {
                if s1.pending.len() == 0 {
                    Err(EvalError::MissingToken)
                } else {
                    let s2 = advance(s1);
                    match eval_expr(s2) {
                        Ok((v, after)) => {
                            let s3 = bounded(s2, after);
                            Ok(
                                (
                                    v,
                                    State {
                                        lookahead: s3.lookahead,
                                        pending: s3.pending,
                                        table: s3.table.insert(c, v),
                                    },
                                ),
                            )
                        },
                        Err(e) => Err(e),
                    }
                }
            } else {
                if s.table.dom().contains(c) {
                    Ok((s.table[c], s1))
                } else {
                    Err(EvalError::UnassignedVariable)
                }
            }
        },
        _ => Err(EvalError::UnexpectedToken),
    }
}

/// `factor := literal ( ('*' | '/') factor )?`, right-associative. A `*` or
/// `/` as lookahead demands one more token; the divisor is evaluated before
/// the division-by-zero check, and a product or quotient outside `i32` is an
/// overflow.
pub open spec fn eval_factor(s: State) -> Outcome
    decreases s.pending.len(), 1int,
{
    match eval_literal(s) {
        Ok((v, after)) => {
            let s1 = bounded(s, after);
            if s1.lookahead == Token::Mul {
                if s1.pending.len() == 0 {
                    Err(EvalError::MissingToken)
                } else {
                    let s2 = advance(s1);
                    match eval_factor(s2) {
                        Ok((w, after2)) => {
                            let s3 = bounded(s2, after2);
                            if in_i32(v * w) {
                                Ok((v * w, s3))
                            } else {
                                Err(EvalError::Overflow)
                            }
                        },
                        Err(e) => Err(e),
                    }
                }
            } else if s1.lookahead == Token::Div {
                if s1.pending.len() == 0 {
                    Err(EvalError::MissingToken)
                } else {
                    let s2 = advance(s1);
                    match eval_factor(s2) {
                        Ok((w, after2)) => {
                            let s3 = bounded(s2, after2);
                            if w == 0 {
                                Err(EvalError::DivisionByZero)
                            } else if in_i32(div_trunc(v, w)) {
                                Ok((div_trunc(v, w), s3))
                            } else {
                                Err(EvalError::Overflow)
                            }
                        },
                        Err(e) => Err(e),
                    }
                }
            } else {
                Ok((v, s1))
            }
        },
        Err(e) => Err(e),
    }
}

/// `expr := factor ( ('+' | '-') expr )?`, right-associative, so `10-3-2`
/// yields `10-(3-2)`. A sum or difference outside `i32` is an overflow.
pub open spec fn eval_expr(s: State) -> Outcome
    decreases s.pending.len(), 2int,
{
    match eval_factor(s) {
        Ok((v, after)) => {
            let s1 = bounded(s, after);
            if s1.lookahead == Token::Add {
                if s1.pending.len() == 0 {
                    Err(EvalError::MissingToken)
                } else {
                    let s2 = advance(s1);
                    match eval_expr(s2) {
                        Ok((w, after2)) => {
                            let s3 = bounded(s2, after2);
                            if in_i32(v + w) {
                                Ok((v + w, s3))
                            } else {
                                Err(EvalError::Overflow)
                            }
                        },
                        Err(e) => Err(e),
                    }
                }
            } else if s1.lookahead == Token::Sub {
                if s1.pending.len() == 0 {
                    Err(EvalError::MissingToken)
                } else {
                    let s2 = advance(s1);
                    match eval_expr(s2) {
                        Ok((w, after2)) => {
                            let s3 = bounded(s2, after2);
                            if in_i32(v - w) {
                                Ok((v - w, s3))
                            } else {
                                Err(EvalError::Overflow)
                            }
                        },
                        Err(e) => Err(e),
                    }
                }
            } else {
                Ok((v, s1))
            }
        },
        Err(e) => Err(e),
    }
}

/// The state a parser starts from: the first token is the lookahead, the rest
/// the pending queue, the table empty.
pub open spec fn initial_state(tokens: Seq<Token>) -> State
    recommends
        tokens.len() > 0,
{
    State { lookahead: tokens[0], pending: tokens.drop_first(), table: Map::empty() }
}

/// What a whole token sequence evaluates to: one `expr` reduction from the
/// initial state; an empty sequence cannot even be parsed.
pub open spec fn eval_tokens(tokens: Seq<Token>) -> Result<int, EvalError> {
    if tokens.len() == 0 {
        Err(EvalError::EmptyTokens)
    } else {
        match eval_expr(initial_state(tokens)) {
            Ok((v, _)) => Ok(v),
            Err(e) => Err(e),
        }
    }
}

/// How an executable production's result and final state must relate to an
/// outcome of the recursive definitions above: same value and same state on
/// success, the very same error on failure.
pub open spec fn agrees(o: Outcome, r: Result<i32, EvalError>, post: State) -> bool {
    match o {
        Ok((v, s)) => r matches Ok(rv) && rv == v && post == s,
        Err(e) => r matches Err(re) && re == e,
    }
}

} // verus!
