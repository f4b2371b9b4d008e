//! The evaluation of an expression, as a mathematical machine.
//!
//! The machine reads the bytes of an expression from left to right. It keeps
//! a stack of values, a stack of pending operators and open parentheses, and
//! the digits and the letters of the operand that it is reading. What an
//! expression evaluates to is what the machine leaves behind after the last
//! byte: [`evaluation`].

use crate::arith::combine;
use crate::error::{Fault, SyntaxFault};
use crate::number::literal_value;
use crate::symbols::{
    CLOSE,
    OPEN,
    SPACE,
    priority,
    spec_is_digit,
    spec_is_lowercase_letter,
    spec_is_operator,
};
use vstd::prelude::*;

verus! {

/// The state of an evaluation between two bytes.
pub struct Machine {
    /// The values computed so far, the latest last.
    pub values: Seq<i32>,
    /// The operators not yet applied and the parentheses not yet closed, the
    /// latest last.
    pub operators: Seq<u8>,
    /// The digits of the operand being read.
    pub number: Seq<u8>,
    /// The letters of the operand being read.
    pub identifier: Seq<u8>,
}

/// The operator stack holds nothing but operators and open parentheses.
pub open spec fn well_stacked(operators: Seq<u8>) -> bool {
    forall|i: int|
        0 <= i < operators.len() ==> spec_is_operator(#[trigger] operators[i]) || operators[i]
            == OPEN
}

/// The state before the first byte: nothing on the stacks, nothing read.
pub open spec fn initial() -> Machine {
    Machine { values: Seq::empty(), operators: Seq::empty(), number: Seq::empty(), identifier: Seq::empty() }
}

/// An operand is being read.
pub open spec fn has_operand(m: Machine) -> bool {
    m.number.len() > 0 || m.identifier.len() > 0
}

/// The value of the operand that was read as the digits `number` and the
/// letters `identifier`: one of the two must be empty, and the other is then
/// a literal, or an identifier that `table` binds.
pub open spec fn operand(table: Map<Seq<u8>, i32>, number: Seq<u8>, identifier: Seq<u8>) -> Result<
    i32,
    Fault,
> {
    if number.len() == 0 && identifier.len() == 0 {
        Err(Fault::Syntax(SyntaxFault::MissingOperand))
    } else if number.len() > 0 && identifier.len() > 0 {
        Err(Fault::Syntax(SyntaxFault::MalformedOperand))
    } else if number.len() > 0 {
        match literal_value(number) {
            Some(v) => Ok(v),
            None => Err(Fault::NumberFormat),
        }
    } else if table.contains_key(identifier) {
        Ok(table[identifier])
    } else {
        Err(Fault::UnknownVariable(identifier))
    }
}

/// Moves the operand being read onto the value stack.
pub open spec fn flush(table: Map<Seq<u8>, i32>, m: Machine) -> Result<Machine, Fault> {
    match operand(table, m.number, m.identifier) {
        Ok(v) => Ok(
            Machine {
                values: m.values.push(v),
                operators: m.operators,
                number: Seq::empty(),
                identifier: Seq::empty(),
            },
        ),
        Err(e) => Err(e),
    }
}

/// Flushes the operand being read, if there is one.
pub open spec fn settle(table: Map<Seq<u8>, i32>, m: Machine) -> Result<Machine, Fault> {
    if has_operand(m) {
        flush(table, m)
    } else {
        Ok(m)
    }
}

/// Applies `op` to the two values on top of the stack: the upper one is the
/// right operand, the one below it the left operand, and the result takes
/// their place.
pub open spec fn reduce(values: Seq<i32>, op: u8) -> Result<Seq<i32>, Fault> {
    if values.len() < 2 {
        Err(Fault::Syntax(SyntaxFault::MissingOperand))
    } else {
        match combine(op, values[values.len() - 2], values[values.len() - 1]) {
            Ok(v) => Ok(values.take(values.len() - 2).push(v)),
            Err(e) => Err(e),
        }
    }
}

/// Takes an operator that was just read: if the pending operator on top of
/// the stack binds at least as tightly, that one operator is applied first.
pub open spec fn shift(values: Seq<i32>, operators: Seq<u8>, op: u8) -> Result<
    (Seq<i32>, Seq<u8>),
    Fault,
> {
    if operators.len() == 0 || operators.last() == OPEN || priority(operators.last()) < priority(
        op,
    ) {
        Ok((values, operators.push(op)))
    } else {
        match reduce(values, operators.last()) {
            Ok(reduced) => Ok((reduced, operators.drop_last().push(op))),
            Err(e) => Err(e),
        }
    }
}

/// Closes a parenthesis: applies the pending operators, the latest first,
/// down to the nearest open parenthesis, which is removed.
pub open spec fn close(values: Seq<i32>, operators: Seq<u8>) -> Result<(Seq<i32>, Seq<u8>), Fault>
    decreases operators.len(),
{
    if operators.len() == 0 {
        Err(Fault::Syntax(SyntaxFault::UnbalancedParentheses))
    } else if operators.last() == OPEN {
        Ok((values, operators.drop_last()))
    } else {
        match reduce(values, operators.last()) {
            Ok(reduced) => close(reduced, operators.drop_last()),
            Err(e) => Err(e),
        }
    }
}

/// Applies all pending operators, the latest first; no parenthesis may still
/// be open.
pub open spec fn drain(values: Seq<i32>, operators: Seq<u8>) -> Result<Seq<i32>, Fault>
    decreases operators.len(),
{
    if operators.len() == 0 {
        Ok(values)
    } else if operators.last() == OPEN {
        Err(Fault::Syntax(SyntaxFault::UnbalancedParentheses))
    } else {
        match reduce(values, operators.last()) {
            Ok(reduced) => drain(reduced, operators.drop_last()),
            Err(e) => Err(e),
        }
    }
}

/// What one byte does to the machine.
pub open spec fn step(table: Map<Seq<u8>, i32>, m: Machine, c: u8) -> Result<Machine, Fault> {
    if spec_is_digit(c) {
        Ok(Machine { number: m.number.push(c), ..m })
    } else if spec_is_lowercase_letter(c) {
        Ok(Machine { identifier: m.identifier.push(c), ..m })
    } else if c == OPEN {
        Ok(Machine { operators: m.operators.push(c), ..m })
    } else if c == CLOSE {
        match settle(table, m) {
            Ok(s) => match close(s.values, s.operators) {
                Ok((values, operators)) => Ok(Machine { values, operators, ..s }),
                Err(e) => Err(e),
            },
            Err(e) => Err(e),
        }
    } else if spec_is_operator(c) {
        match settle(table, m) {
            Ok(s) => match shift(s.values, s.operators, c) {
                Ok((values, operators)) => Ok(Machine { values, operators, ..s }),
                Err(e) => Err(e),
            },
            Err(e) => Err(e),
        }
    } else if c == SPACE {
        Ok(m)
    } else {
        Err(Fault::Syntax(SyntaxFault::UnexpectedCharacter(c)))
    }
}

/// The machine after the bytes of `input`, read one by one from `m`; the
/// first failure ends the run.
pub open spec fn run(table: Map<Seq<u8>, i32>, m: Machine, input: Seq<u8>) -> Result<Machine, Fault>
    decreases input.len(),
{
    if input.len() == 0 {
        Ok(m)
    } else {
        match step(table, m, input[0]) {
            Ok(next) => run(table, next, input.skip(1)),
            Err(e) => Err(e),
        }
    }
}

/// The result that the machine holds at the end of the input: the last
/// operand is flushed, the pending operators are applied, and exactly one
/// value must remain.
pub open spec fn finish(table: Map<Seq<u8>, i32>, m: Machine) -> Result<i32, Fault> {
    match settle(table, m) {
        Ok(s) => match drain(s.values, s.operators) {
            Ok(values) => if values.len() == 1 {
                Ok(values[0])
            } else if values.len() == 0 {
                Err(Fault::Syntax(SyntaxFault::EmptyExpression))
            } else {
                Err(Fault::InternalInvariant)
            },
            Err(e) => Err(e),
        },
        Err(e) => Err(e),
    }
}

/// The result of reading `input` from `m` and finishing.
pub open spec fn conclude(table: Map<Seq<u8>, i32>, m: Machine, input: Seq<u8>) -> Result<
    i32,
    Fault,
> {
    match run(table, m, input) {
        Ok(last) => finish(table, last),
        Err(e) => Err(e),
    }
}

/// What the expression `input` evaluates to under the bindings of `table`.
pub open spec fn evaluation(table: Map<Seq<u8>, i32>, input: Seq<u8>) -> Result<i32, Fault> {
    conclude(table, initial(), input)
}

} // verus!
