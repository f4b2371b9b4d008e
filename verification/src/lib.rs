//! A single-expression integer arithmetic evaluator.
//!
//! An expression is a line of text made of unsigned decimal literals,
//! lowercase identifiers, the operators `+ - * /` and parentheses. An
//! [`Evaluator`] owns the bindings of the identifiers and evaluates an
//! expression in one left-to-right scan over its bytes, which drives a stack
//! of values and a stack of pending operators. All numbers are `i32`; an
//! operation whose result does not fit fails, as does a division by zero.
//!
//! Every function of this crate carries a contract that is checked by
//! Verus. The behaviour of the scan is stated once, as the mathematical
//! machine of [`machine`], and the executable evaluator is proved to compute
//! exactly that. [`syntax`] says what an expression denotes in ordinary
//! arithmetic, [`regrouping`] how the scan groups the products of a sum, and
//! [`laws`] holds what is proved of the machine: that it computes the
//! ordinary value of the regrouped sum, that blanks do not count, that a
//! parenthesis stands for its value, that unbalanced parentheses and
//! divisions by zero fail, and how identifiers are resolved.

pub mod arith;
pub mod error;
pub mod evaluator;
pub mod laws;
pub mod machine;
pub mod number;
pub mod regrouping;
pub mod symbols;
pub mod syntax;
pub mod table;

pub use error::{ArithmeticFault, EvalError, SyntaxFault};
pub use evaluator::Evaluator;
pub use table::VariableTable;
