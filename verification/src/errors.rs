//! The error vocabulary of the three pipeline stages.

use vstd::prelude::*;

verus! {

/// A failure of the lexer. The payload is the offending run of numeric
/// characters exactly as it appeared in the input.
#[derive(Clone, Debug, PartialEq)]
pub enum LexError {
    MalformedNumber(Vec<char>),
}

/// A failure of the parser.
#[derive(Clone, Copy, Debug, PartialEq, Eq, Structural)]
pub enum ParseError {
    UnbalancedParentheses,
    TooFewOperands,
    TooManyOperands,
    EmptyExpression,
}

/// A failure of evaluation. Division or modulo by zero is not an error:
/// those produce the usual IEEE special values.
#[derive(Clone, Copy, Debug, PartialEq, Eq, Structural)]
pub enum EvalError {
    VariableOutOfRange(u32),
    DomainError,
}

} // verus!
