//! The ways in which an evaluation fails.

use vstd::prelude::*;
use vstd::slice::slice_to_vec;

verus! {

/// What is wrong with the text of an expression.
#[derive(Debug, Clone, Copy, PartialEq, Eq)]
pub enum SyntaxFault {
    /// A byte that no expression may hold.
    UnexpectedCharacter(u8),
    /// Digits and letters run together in one operand.
    MalformedOperand,
    /// An operator that lacks an operand, or an operand asked for where none was read.
    MissingOperand,
    /// A `)` without its `(`, or a `(` that is never closed.
    UnbalancedParentheses,
    /// Nothing to evaluate.
    EmptyExpression,
}

/// What is wrong with an arithmetic operation.
#[derive(Debug, Clone, Copy, PartialEq, Eq)]
pub enum ArithmeticFault {
    /// The divisor is zero.
    DivisionByZero,
    /// The exact result does not fit in an `i32`.
    Overflow,
}

/// Why an evaluation returned no number.
#[derive(Debug, PartialEq, Eq)]
pub enum EvalError {
    /// The text is not a well-formed expression.
    Syntax(SyntaxFault),
    /// An identifier that the variable table does not bind; the identifier's bytes are given.
    UnknownVariable(Vec<u8>),
    /// A literal that is not the decimal notation of an `i32`.
    NumberFormat,
    /// An operation without a result.
    Arithmetic(ArithmeticFault),
    /// The stacks are in a state that no scan of an expression should leave behind.
    InternalInvariant,
}

/// The mathematical counterpart of [`EvalError`]: the same failures, with the
/// identifier as a sequence of bytes.
pub enum Fault {
    Syntax(SyntaxFault),
    UnknownVariable(Seq<u8>),
    NumberFormat,
    Arithmetic(ArithmeticFault),
    InternalInvariant,
}

impl View for EvalError {
    type V = Fault;

    open spec fn view(&self) -> Fault {
        match *self {
            EvalError::Syntax(fault) => Fault::Syntax(fault),
            EvalError::UnknownVariable(name) => Fault::UnknownVariable(name@),
            EvalError::NumberFormat => Fault::NumberFormat,
            EvalError::Arithmetic(fault) => Fault::Arithmetic(fault),
            EvalError::InternalInvariant => Fault::InternalInvariant,
        }
    }
}

impl Clone for EvalError {
    /// A copy that stands for the same failure.
    fn clone(&self) -> (copy: Self)
        ensures
            copy@ == self@,
    {
        match self {
            EvalError::Syntax(fault) => EvalError::Syntax(*fault),
            EvalError::UnknownVariable(name) => EvalError::UnknownVariable(
                slice_to_vec(name.as_slice()),
            ),
            EvalError::NumberFormat => EvalError::NumberFormat,
            EvalError::Arithmetic(fault) => EvalError::Arithmetic(*fault),
            EvalError::InternalInvariant => EvalError::InternalInvariant,
        }
    }
}

/// What an executable result stands for: its number, or the view of its error.
pub open spec fn outcome<T>(r: Result<T, EvalError>) -> Result<T, Fault> {
    match r {
        Ok(v) => Ok(v),
        Err(e) => Err(e@),
    }
}

} // verus!
