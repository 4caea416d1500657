//! Errors of compilation and of evaluation.
use vstd::prelude::*;

verus! {

/// Any error the library reports.
#[derive(Debug, PartialEq)]
pub enum Error {
    /// A variable name that the variable resolver does not know.
    UnknownVar(String),
    /// A function name that the function resolver does not know.
    UnknownFn(String),
    /// The source text is not a well-formed expression.
    ParseError(ParseError),
    /// The instruction list cannot be run to a single value.
    EvalError(EvalError),
}

/// Errors found while reading source text. Positions are byte offsets into
/// the whole source text.
#[derive(Debug, PartialEq)]
pub enum ParseError {
    UnexpectedChar(char, usize),
    InvalidNumber(String, usize),
    UnmatchedParentheses(usize),
}

/// Errors of the postfix stack machine.
#[derive(Debug, PartialEq, Eq, Structural, Clone, Copy)]
pub enum EvalError {
    /// An operator or a function found fewer values than it consumes.
    RPNStackUnderflow,
    /// The instructions did not leave exactly one value.
    MalformedExpression,
}

} // verus!
