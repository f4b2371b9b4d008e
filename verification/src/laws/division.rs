//! Division by zero.

use crate::arith::combine;
use crate::error::{ArithmeticFault, Fault};
use crate::laws::framing::lemma_run_group;
use crate::laws::runs::{lemma_conclude_concat, lemma_run_concat, lemma_run_one};
use crate::machine::{Machine, evaluation, initial, reduce};
use crate::symbols::{CLOSE, OPEN, SLASH};
use vstd::prelude::*;

verus! {

/// Dividing by zero gives no number, whatever is divided.
pub proof fn lemma_zero_divisor(dividend: i32)
    ensures
        combine(SLASH, dividend, 0) == Err::<i32, Fault>(
            Fault::Arithmetic(ArithmeticFault::DivisionByZero),
        ),
{
}

/// Division by zero fails with an arithmetic error and never returns a
/// value: if `dividend` evaluates to a number and `divisor` to zero,
/// `(dividend)/(divisor)` fails on the division.
pub proof fn lemma_division_by_zero(
    table: Map<Seq<u8>, i32>,
    dividend: Seq<u8>,
    divisor: Seq<u8>,
)
    requires
        evaluation(table, dividend) is Ok,
        evaluation(table, divisor) == Ok::<i32, Fault>(0),
    ensures
        evaluation(
            table,
            seq![OPEN] + dividend + seq![CLOSE] + seq![SLASH] + seq![OPEN] + divisor + seq![CLOSE],
        ) == Err::<i32, Fault>(Fault::Arithmetic(ArithmeticFault::DivisionByZero)),
{
    let left = seq![OPEN] + dividend + seq![CLOSE];
    let right = seq![OPEN] + divisor + seq![CLOSE];
    let a = evaluation(table, dividend)->Ok_0;
    assert(seq![OPEN] + dividend + seq![CLOSE] + seq![SLASH] + seq![OPEN] + divisor + seq![CLOSE]
        =~= left + seq![SLASH] + right);
    lemma_run_group(table, initial(), dividend);
    let first = Machine { values: initial().values.push(a), ..initial() };
    lemma_run_one(table, first, SLASH);
    let pending = Machine { operators: first.operators.push(SLASH), ..first };
    lemma_run_group(table, pending, divisor);
    let both = Machine { values: pending.values.push(0), ..pending };
    assert(reduce(both.values, SLASH) == Err::<Seq<i32>, Fault>(
        Fault::Arithmetic(ArithmeticFault::DivisionByZero),
    ));
    lemma_run_concat(table, initial(), left, seq![SLASH]);
    lemma_run_concat(table, initial(), left + seq![SLASH], right);
    lemma_conclude_concat(table, initial(), left + seq![SLASH] + right, Seq::<u8>::empty());
    assert(left + seq![SLASH] + right + Seq::<u8>::empty() =~= left + seq![SLASH] + right);
}

} // verus!
