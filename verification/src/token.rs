use vstd::prelude::*;

verus! {

/// One lexical unit of an input line.
#[derive(Clone, Copy, Debug, PartialEq, Eq, Structural)]
pub enum Token {
    Add,
    Sub,
    Mul,
    Div,
    Equal,
    ID(char),
    Literal(i32),
}

/// Why an evaluation failed. Each fatal condition of the grammar gets its own
/// variant, so a caller can tell them apart.
#[derive(Clone, Copy, Debug, PartialEq, Eq, Structural)]
pub enum EvalError {
    /// The parser was constructed from an empty token sequence.
    EmptyTokens,
    /// A token that can start no literal stood where a literal was required.
    UnexpectedToken,
    /// An identifier was read before any assignment bound it.
    UnassignedVariable,
    /// The token queue was exhausted where one more token was mandatory.
    MissingToken,
    /// The divisor of a division evaluated to zero.
    DivisionByZero,
    /// An intermediate value left the range of `i32`.
    Overflow,
}

/// Why tokenizing failed: a run of digits accumulated past `i32::MAX`.
#[derive(Clone, Copy, Debug, PartialEq, Eq, Structural)]
pub enum LexError {
    LiteralTooLarge,
}

/// Why a whole line failed: either while tokenizing it or while evaluating
/// the tokens.
#[derive(Clone, Copy, Debug, PartialEq, Eq, Structural)]
pub enum LineError {
    Lex(LexError),
    Eval(EvalError),
}

} // verus!
