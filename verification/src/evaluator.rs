//! The executable evaluator.

use crate::arith::compute;
use crate::error::{EvalError, Fault, SyntaxFault, outcome};
use crate::laws::blanks::{lemma_blanks_do_not_count, without_blanks};
use crate::laws::standard::{lemma_scan_regroups, lemma_standard_arithmetic};
use crate::machine::{
    Machine,
    close,
    conclude,
    drain,
    evaluation,
    operand,
    reduce,
    shift,
    well_stacked,
};
use crate::number::parse_literal;
use crate::symbols::{
    CLOSE,
    OPEN,
    SPACE,
    STAR,
    SLASH,
    is_digit,
    is_lowercase_letter,
    is_operator,
    priority,
    spec_is_operator,
};
use crate::syntax::Sum;
use crate::table::VariableTable;
use vstd::prelude::*;
use vstd::slice::slice_to_vec;
use vstd::string::StringSliceAdditionalSpecFns;

verus! {

/// Evaluates expressions under the variable bindings that it owns.
pub struct Evaluator {
    variables: VariableTable,
}

impl View for Evaluator {
    type V = Map<Seq<u8>, i32>;

    /// The bindings, from an identifier's bytes to its value.
    closed spec fn view(&self) -> Map<Seq<u8>, i32> {
        self.variables@
    }
}

impl Evaluator {
    /// An evaluator that binds no variable.
    pub fn new() -> (evaluator: Self)
        ensures
            evaluator@ == Map::<Seq<u8>, i32>::empty(),
    {
        Evaluator { variables: VariableTable::new() }
    }

    /// Binds the variable `name` to `value`; an earlier binding of `name` is
    /// replaced.
    pub fn add_var(&mut self, name: &str, value: i32)
        ensures
            final(self)@ == old(self)@.insert(name.spec_bytes(), value),
    {
        self.variables.bind(slice_to_vec(name.as_bytes()), value);
    }

    /// How tightly the operator `op` binds.
    pub fn get_priority(op: u8) -> (p: i32)
        requires
            spec_is_operator(op),
        ensures
            p == priority(op),
    {
        if op == STAR || op == SLASH {
            1
        } else {
            0
        }
    }

    /// Applies `op` to the two values on top of `value_stack`, which the
    /// result replaces. On failure the stack is left as it was.
    pub fn evaluate_op(&self, value_stack: &mut Vec<i32>, op: u8) -> (r: Result<(), EvalError>)
        ensures
            match reduce(old(value_stack)@, op) {
                Ok(values) => r is Ok && final(value_stack)@ == values,
                Err(e) => outcome(r) == Err::<(), Fault>(e) && final(value_stack)@ == old(
                    value_stack,
                )@,
            },
    {
        let n = value_stack.len();
        if n < 2 {
            return Err(EvalError::Syntax(SyntaxFault::MissingOperand));
        }
        let right: i32 = value_stack[n - 1];
        let left: i32 = value_stack[n - 2];
        match compute(op, left, right) {
            Ok(v) => {
                value_stack.pop();
                value_stack.pop();
                value_stack.push(v);
                proof {
                    assert(value_stack@ =~= old(value_stack)@.take(n - 2).push(v));
                }
                Ok(())
            },
            Err(e) => Err(e),
        }
    }

    /// Resolves the operand that was read into `cur_number` or `cur_var`,
    /// pushes its value onto `value_stack` and empties both buffers. On
    /// failure all three are left as they were.
    pub fn apply_value(
        &self,
        value_stack: &mut Vec<i32>,
        cur_var: &mut Vec<u8>,
        cur_number: &mut Vec<u8>,
    ) -> (r: Result<(), EvalError>)
        ensures
            match operand(self@, old(cur_number)@, old(cur_var)@) {
                Ok(v) => {
                    &&& r is Ok
                    &&& final(value_stack)@ == old(value_stack)@.push(v)
                    &&& final(cur_var)@ == Seq::<u8>::empty()
                    &&& final(cur_number)@ == Seq::<u8>::empty()
                },
                Err(e) => {
                    &&& outcome(r) == Err::<(), Fault>(e)
                    &&& final(value_stack)@ == old(value_stack)@
                    &&& final(cur_var)@ == old(cur_var)@
                    &&& final(cur_number)@ == old(cur_number)@
                },
            },
    {
        if cur_number.is_empty() && cur_var.is_empty() {
            return Err(EvalError::Syntax(SyntaxFault::MissingOperand));
        }
        if !cur_number.is_empty() && !cur_var.is_empty() {
            return Err(EvalError::Syntax(SyntaxFault::MalformedOperand));
        }
        let value: i32 = if cur_var.is_empty() {
            match parse_literal(cur_number) {
                Some(v) => v,
                None => {
                    return Err(EvalError::NumberFormat);
                },
            }
        } else {
            match self.variables.lookup(cur_var.as_slice()) {
                Some(v) => v,
                None => {
                    return Err(EvalError::UnknownVariable(slice_to_vec(cur_var.as_slice())));
                },
            }
        };
        value_stack.push(value);
        cur_var.clear();
        cur_number.clear();
        Ok(())
    }

    /// Takes the operator `op` that was just read: applies the operator on
    /// top of `operator_stack` first if it binds at least as tightly, then
    /// pushes `op`.
    fn push_operator(&self, value_stack: &mut Vec<i32>, operator_stack: &mut Vec<u8>, op: u8) -> (r:
        Result<(), EvalError>)
        requires
            well_stacked(old(operator_stack)@),
            spec_is_operator(op),
        ensures
            well_stacked(final(operator_stack)@),
            match shift(old(value_stack)@, old(operator_stack)@, op) {
                Ok((values, operators)) => {
                    &&& r is Ok
                    &&& final(value_stack)@ == values
                    &&& final(operator_stack)@ == operators
                },
                Err(e) => outcome(r) == Err::<(), Fault>(e),
            },
    {
        let n = operator_stack.len();
        if n > 0 && operator_stack[n - 1] != OPEN {
            let top: u8 = operator_stack[n - 1];
            if Self::get_priority(top) >= Self::get_priority(op) {
                operator_stack.pop();
                match self.evaluate_op(value_stack, top) {
                    Ok(()) => {},
                    Err(e) => {
                        return Err(e);
                    },
                }
            }
        }
        operator_stack.push(op);
        Ok(())
    }

    /// Closes a parenthesis: applies the operators on `operator_stack`, the
    /// latest first, down to the nearest open parenthesis, and removes it.
    fn close_group(&self, value_stack: &mut Vec<i32>, operator_stack: &mut Vec<u8>) -> (r: Result<
        (),
        EvalError,
    >)
        requires
            well_stacked(old(operator_stack)@),
        ensures
            well_stacked(final(operator_stack)@),
            match close(old(value_stack)@, old(operator_stack)@) {
                Ok((values, operators)) => {
                    &&& r is Ok
                    &&& final(value_stack)@ == values
                    &&& final(operator_stack)@ == operators
                },
                Err(e) => outcome(r) == Err::<(), Fault>(e),
            },
    {
        loop
            invariant
                well_stacked(operator_stack@),
                close(value_stack@, operator_stack@) == close(
                    old(value_stack)@,
                    old(operator_stack)@,
                ),
            decreases operator_stack.len(),
        {
            match operator_stack.pop() {
                None => {
                    return Err(EvalError::Syntax(SyntaxFault::UnbalancedParentheses));
                },
                Some(op) => {
                    if op == OPEN {
                        return Ok(());
                    }
                    match self.evaluate_op(value_stack, op) {
                        Ok(()) => {},
                        Err(e) => {
                            return Err(e);
                        },
                    }
                },
            }
        }
    }

    /// Applies all the operators on `operator_stack`, the latest first; an
    /// open parenthesis among them is a failure.
    fn drain_operators(&self, value_stack: &mut Vec<i32>, operator_stack: &mut Vec<u8>) -> (r:
        Result<(), EvalError>)
        requires
            well_stacked(old(operator_stack)@),
        ensures
            match drain(old(value_stack)@, old(operator_stack)@) {
                Ok(values) => r is Ok && final(value_stack)@ == values,
                Err(e) => outcome(r) == Err::<(), Fault>(e),
            },
    {
        loop
            invariant
                well_stacked(operator_stack@),
                drain(value_stack@, operator_stack@) == drain(
                    old(value_stack)@,
                    old(operator_stack)@,
                ),
            decreases operator_stack.len(),
        {
            match operator_stack.pop() {
                None => {
                    return Ok(());
                },
                Some(op) => {
                    if op == OPEN {
                        return Err(EvalError::Syntax(SyntaxFault::UnbalancedParentheses));
                    }
                    match self.evaluate_op(value_stack, op) {
                        Ok(()) => {},
                        Err(e) => {
                            return Err(e);
                        },
                    }
                },
            }
        }
    }

    /// Evaluates `expression` under the bindings of this evaluator.
    ///
    /// The result is that of the machine of [`crate::machine`] on the bytes
    /// of `expression`: the number that the expression denotes, or the
    /// first failure that the scan runs into. Where the expression, blanks
    /// aside, is the text of a well-formed sum, that is what the sum denotes
    /// in ordinary arithmetic once it is grouped as the scan groups it; and
    /// what the sum denotes as it is written, if no product of several
    /// factors stands in it between two of the operators `+` and `-`.
    #[verifier::loop_isolation(false)]
    pub fn evaluate(&self, expression: &str) -> (r: Result<i32, EvalError>)
        ensures
            outcome(r) == evaluation(self@, expression.spec_bytes()),
            forall|sum: Sum|
                #![trigger sum.text()]
                sum.well_formed() && sum.text() == without_blanks(expression.spec_bytes())
                    ==> outcome(r) == sum.regrouped().value(self@),
            forall|sum: Sum|
                #![trigger sum.text()]
                sum.well_formed() && sum.products_at_the_ends() && sum.text() == without_blanks(
                    expression.spec_bytes(),
                ) ==> outcome(r) == sum.value(self@),
    {
        proof {
            lemma_blanks_do_not_count(self@, expression.spec_bytes());
            assert forall|sum: Sum|
                #![trigger sum.text()]
                sum.well_formed() && sum.text() == without_blanks(
                    expression.spec_bytes(),
                ) implies evaluation(self@, expression.spec_bytes()) == sum.regrouped().value(
                self@,
            ) by {
                lemma_scan_regroups(self@, sum);
            }
            assert forall|sum: Sum|
                #![trigger sum.text()]
                sum.well_formed() && sum.products_at_the_ends() && sum.text() == without_blanks(
                    expression.spec_bytes(),
                ) implies evaluation(self@, expression.spec_bytes()) == sum.value(self@) by {
                lemma_standard_arithmetic(self@, sum);
            }
        }
        let bytes = expression.as_bytes();
        let mut value_stack: Vec<i32> = Vec::new();
        let mut operator_stack: Vec<u8> = Vec::new();
        let mut cur_var: Vec<u8> = Vec::new();
        let mut cur_number: Vec<u8> = Vec::new();
        let mut i: usize = 0;
        proof {
            assert(bytes@.skip(0) =~= bytes@);
        }
        while i < bytes.len()
            invariant
                i <= bytes.len(),
                bytes@ == expression.spec_bytes(),
                well_stacked(operator_stack@),
                conclude(
                    self@,
                    Machine {
                        values: value_stack@,
                        operators: operator_stack@,
                        number: cur_number@,
                        identifier: cur_var@,
                    },
                    bytes@.skip(i as int),
                ) == evaluation(self@, bytes@),
            decreases bytes.len() - i,
        {
            let c: u8 = bytes[i];
            proof {
                assert(bytes@.skip(i as int)[0] == c);
                assert(bytes@.skip(i as int).skip(1) =~= bytes@.skip(i + 1));
            }
            if is_digit(c) {
                cur_number.push(c);
            } else if is_lowercase_letter(c) {
                cur_var.push(c);
            } else if c == OPEN {
                operator_stack.push(c);
            } else if c == CLOSE {
                if !cur_var.is_empty() || !cur_number.is_empty() {
                    match self.apply_value(&mut value_stack, &mut cur_var, &mut cur_number) {
                        Ok(()) => {},
                        Err(e) => {
                            return Err(e);
                        },
                    }
                }
                match self.close_group(&mut value_stack, &mut operator_stack) {
                    Ok(()) => {},
                    Err(e) => {
                        return Err(e);
                    },
                }
            } else if is_operator(c) {
                if !cur_var.is_empty() || !cur_number.is_empty() {
                    match self.apply_value(&mut value_stack, &mut cur_var, &mut cur_number) {
                        Ok(()) => {},
                        Err(e) => {
                            return Err(e);
                        },
                    }
                }
                match self.push_operator(&mut value_stack, &mut operator_stack, c) {
                    Ok(()) => {},
                    Err(e) => {
                        return Err(e);
                    },
                }
            } else if c != SPACE {
                return Err(EvalError::Syntax(SyntaxFault::UnexpectedCharacter(c)));
            }
            i += 1;
        }
        if !cur_var.is_empty() || !cur_number.is_empty() {
            match self.apply_value(&mut value_stack, &mut cur_var, &mut cur_number) {
                Ok(()) => {},
                Err(e) => {
                    return Err(e);
                },
            }
        }
        match self.drain_operators(&mut value_stack, &mut operator_stack) {
            Ok(()) => {},
            Err(e) => {
                return Err(e);
            },
        }
        if value_stack.len() == 1 {
            Ok(value_stack[0])
        } else if value_stack.len() == 0 {
            Err(EvalError::Syntax(SyntaxFault::EmptyExpression))
        } else {
            Err(EvalError::InternalInvariant)
        }
    }
}

} // verus!
