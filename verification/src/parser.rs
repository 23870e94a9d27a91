//! The executable recursive-descent parser/evaluator. Each grammar production
//! is one method, and each method's contract ties its result and its final
//! state to the recursive definitions in `semantics`.

use vstd::prelude::*;

use crate::semantics::{
    advance, agrees, bounded, div_trunc, eval_expr, eval_factor, eval_literal, in_i32,
    initial_state, State,
};
use crate::table::{table_lookup, table_set, table_view, unique_keys};
use crate::token::{EvalError, Token};

verus! {

/// Sum if it fits in `i32`, else the overflow error.
fn add_values(a: i32, b: i32) -> (r: Result<i32, EvalError>)
    ensures
        match r {
            Ok(v) => in_i32(a + b) && v == a + b,
            Err(e) => e == EvalError::Overflow && !in_i32(a + b),
        },
{
    let s: i64 = a as i64 + b as i64;
    if i32::MIN as i64 <= s && s <= i32::MAX as i64 {
        Ok(s as i32)
    } else {
        Err(EvalError::Overflow)
    }
}

/// Difference if it fits in `i32`, else the overflow error.
fn sub_values(a: i32, b: i32) -> (r: Result<i32, EvalError>)
    ensures
        match r {
            Ok(v) => in_i32(a - b) && v == a - b,
            Err(e) => e == EvalError::Overflow && !in_i32(a - b),
        },
{
    let s: i64 = a as i64 - b as i64;
    if i32::MIN as i64 <= s && s <= i32::MAX as i64 {
        Ok(s as i32)
    } else {
        Err(EvalError::Overflow)
    }
}

/// Product if it fits in `i32`, else the overflow error.
fn mul_values(a: i32, b: i32) -> (r: Result<i32, EvalError>)
    ensures
        match r {
            Ok(v) => in_i32((a as int) * (b as int)) && v == (a as int) * (b as int),
            Err(e) => e == EvalError::Overflow && !in_i32((a as int) * (b as int)),
        },
{
    proof {
        assert(-0x4000_0000_0000_0000 <= (a as int) * (b as int) <= 0x4000_0000_0000_0000)
            by (nonlinear_arith)
            requires
                -0x8000_0000 <= a as int <= 0x7fff_ffff,
                -0x8000_0000 <= b as int <= 0x7fff_ffff,
        ;
    }
    let p: i64 = (a as i64) * (b as i64);
    if i32::MIN as i64 <= p && p <= i32::MAX as i64 {
        Ok(p as i32)
    } else {
        Err(EvalError::Overflow)
    }
}

/// Quotient, truncated toward zero as machine division truncates, computed on
/// the magnitudes so that no signed operation can overflow. Division by zero
/// and the one quotient outside `i32` are the two errors.
fn div_values(a: i32, b: i32) -> (r: Result<i32, EvalError>)
    ensures
        match r {
            Ok(q) => b != 0 && in_i32(div_trunc(a as int, b as int)) && q == div_trunc(
                a as int,
                b as int,
            ),
            Err(e) => (e == EvalError::DivisionByZero && b == 0) || (e == EvalError::Overflow && b
                != 0 && !in_i32(div_trunc(a as int, b as int))),
        },
{
    if b == 0 {
        return Err(EvalError::DivisionByZero);
    }
    let am: u64 = if a < 0 {
        (-(a as i64)) as u64
    } else {
        a as u64
    };
    let bm: u64 = if b < 0 {
        (-(b as i64)) as u64
    } else {
        b as u64
    };
    let q: u64 = am / bm;
    proof {
        assert(am == crate::semantics::abs_int(a as int));
        assert(bm == crate::semantics::abs_int(b as int));
        assert(q == am as int / bm as int);
        vstd::arithmetic::div_mod::lemma_div_nonincreasing(am as int, bm as int);
        assert(q <= am);
    }
    if (a < 0) != (b < 0) {
        let qi: i64 = -(q as i64);
        proof {
            assert(div_trunc(a as int, b as int) == -(q as int));
            assert(qi >= -0x8000_0000);
        }
        Ok(qi as i32)
    } else {
        proof {
            assert(div_trunc(a as int, b as int) == q as int);
        }
        if q > (i32::MAX as u64) {
            Err(EvalError::Overflow)
        } else {
            Ok(q as i32)
        }
    }
}

/// The parser: the remaining token queue, the single lookahead token extracted
/// at construction and after every consumption, and the symbol table.
pub struct Parser {
    pub tokens: Vec<Token>,
    pub lookahead: Token,
    pub table: Vec<(char, i32)>,
}

impl View for Parser {
    type V = State;

    open spec fn view(&self) -> State {
        State {
            lookahead: self.lookahead,
            pending: self.tokens@,
            table: table_view(self.table@),
        }
    }
}

impl Parser {
    /// Well-formed: the symbol table keeps one entry per identifier.
    pub open spec fn wf(self) -> bool {
        unique_keys(self.table@)
    }

    /// Split off the first token as the initial lookahead, with an empty
    /// table; an empty token sequence cannot be parsed at all.
    pub fn new(arg: Vec<Token>) -> (r: Result<Parser, EvalError>)
        ensures
            match r {
                Ok(p) => arg@.len() > 0 && p.wf() && p@ == initial_state(arg@),
                Err(e) => e == EvalError::EmptyTokens && arg@.len() == 0,
            },
    {
        if arg.len() == 0 {
            return Err(EvalError::EmptyTokens);
        }
        let mut rest = arg;
        let first = rest.remove(0);
        let p = Parser { tokens: rest, lookahead: first, table: Vec::new() };
        proof {
            assert(rest@ =~= arg@.drop_first());
            assert(p@ =~= initial_state(arg@));
        }
        Ok(p)
    }

    /// Pull the next pending token into the lookahead slot, if there is one;
    /// at the tail of the input the lookahead stays as it is.
    fn advance_token(&mut self)
        ensures
            final(self)@ == advance(old(self)@),
            final(self).table@ == old(self).table@,
            final(self).tokens@.len() <= old(self).tokens@.len(),
    {
        if self.tokens.len() > 0 {
            let t = self.tokens.remove(0);
            self.lookahead = t;
            proof {
                assert(self.tokens@ =~= old(self).tokens@.drop_first());
                assert(self@ =~= advance(old(self)@));
            }
        }
    }

    /// `literal := INT | ID '=' expr | ID`: a literal's value, an assignment
    /// (evaluate the right-hand side, bind the identifier, yield the value),
    /// or a variable lookup.
    pub fn literal(&mut self) -> (r: Result<i32, EvalError>)
        requires
            old(self).wf(),
        ensures
            final(self).wf(),
            final(self).tokens@.len() <= old(self).tokens@.len(),
            agrees(eval_literal(old(self)@), r, final(self)@),
        decreases old(self).tokens@.len(), 0int,
    {
        match self.lookahead {
            Token::Literal(n) => {
                self.advance_token();
                Ok(n)
            },
            Token::ID(c) => {
                self.advance_token();
                if self.lookahead == Token::Equal {
                    if self.tokens.len() == 0 {
                        return Err(EvalError::MissingToken);
                    }
                    self.advance_token();
                    let ghost s2 = self@;
                    let v = match self.expr() {
                        Ok(v) => v,
                        Err(e) => {
                            return Err(e);
                        },
                    };
                    proof {
                        assert(bounded(s2, self@) == self@);
                    }
                    let ghost s3 = self@;
                    table_set(&mut self.table, c, v);
                    proof {
                        assert(self@ =~= (State {
                            lookahead: s3.lookahead,
                            pending: s3.pending,
                            table: s3.table.insert(c, v as int),
                        }));
                    }
                    Ok(v)
                } else {
                    match table_lookup(&self.table, c) {
                        Some(v) => Ok(v),
                        None => Err(EvalError::UnassignedVariable),
                    }
                }
            },
            _ => Err(EvalError::UnexpectedToken),
        }
    }

    /// `factor := literal ( ('*' | '/') factor )?`: right-associative products
    /// and truncating quotients.
    pub fn factor(&mut self) -> (r: Result<i32, EvalError>)
        requires
            old(self).wf(),
        ensures
            final(self).wf(),
            final(self).tokens@.len() <= old(self).tokens@.len(),
            agrees(eval_factor(old(self)@), r, final(self)@),
        decreases old(self).tokens@.len(), 1int,
    {
        let v = match self.literal() {
            Ok(v) => v,
            Err(e) => {
                return Err(e);
            },
        };
        proof {
            assert(bounded(old(self)@, self@) == self@);
        }
        match self.lookahead {
            Token::Mul => {
                if self.tokens.len() == 0 {
                    return Err(EvalError::MissingToken);
                }
                self.advance_token();
                let ghost s2 = self@;
                let w = match self.factor() {
                    Ok(w) => w,
                    Err(e) => {
                        return Err(e);
                    },
                };
                proof {
                    assert(bounded(s2, self@) == self@);
                }
                mul_values(v, w)
            },
            Token::Div => {
                if self.tokens.len() == 0 {
                    return Err(EvalError::MissingToken);
                }
                self.advance_token();
                let ghost s2 = self@;
                let w = match self.factor() {
                    Ok(w) => w,
                    Err(e) => {
                        return Err(e);
                    },
                };
                proof {
                    assert(bounded(s2, self@) == self@);
                }
                div_values(v, w)
            },
            _ => Ok(v),
        }
    }

    /// `expr := factor ( ('+' | '-') expr )?`: right-associative sums and
    /// differences, so `10-3-2` evaluates as `10-(3-2)`.
    pub fn expr(&mut self) -> (r: Result<i32, EvalError>)
        requires
            old(self).wf(),
        ensures
            final(self).wf(),
            final(self).tokens@.len() <= old(self).tokens@.len(),
            agrees(eval_expr(old(self)@), r, final(self)@),
        decreases old(self).tokens@.len(), 2int,
    {
        let v = match self.factor() {
            Ok(v) => v,
            Err(e) => {
                return Err(e);
            },
        };
        proof {
            assert(bounded(old(self)@, self@) == self@);
        }
        match self.lookahead {
            Token::Add => {
                if self.tokens.len() == 0 {
                    return Err(EvalError::MissingToken);
                }
                self.advance_token();
                let ghost s2 = self@;
                let w = match self.expr() {
                    Ok(w) => w,
                    Err(e) => {
                        return Err(e);
                    },
                };
                proof {
                    assert(bounded(s2, self@) == self@);
                }
                add_values(v, w)
            },
            Token::Sub => {
                if self.tokens.len() == 0 {
                    return Err(EvalError::MissingToken);
                }
                self.advance_token();
                let ghost s2 = self@;
                let w = match self.expr() {
                    Ok(w) => w,
                    Err(e) => {
                        return Err(e);
                    },
                };
                proof {
                    assert(bounded(s2, self@) == self@);
                }
                sub_values(v, w)
            },
            _ => Ok(v),
        }
    }

    /// One `expr` reduction over the whole token sequence; trailing unconsumed
    /// tokens are not separately validated.
    pub fn parse(&mut self) -> (r: Result<i32, EvalError>)
        requires
            old(self).wf(),
        ensures
            final(self).wf(),
            agrees(eval_expr(old(self)@), r, final(self)@),
    {
        self.expr()
    }
}

} // verus!
