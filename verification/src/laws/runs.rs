//! How runs of the machine compose.

use crate::error::Fault;
use crate::machine::{Machine, conclude, finish, has_operand, run, settle, step};
use crate::number::all_digits;
use crate::symbols::{
    CLOSE,
    all_lowercase_letters,
    spec_is_digit,
    spec_is_lowercase_letter,
    spec_is_operator,
};
use vstd::prelude::*;

verus! {

/// Reading `a` and then `b` is reading `a + b`.
pub proof fn lemma_run_concat(table: Map<Seq<u8>, i32>, m: Machine, a: Seq<u8>, b: Seq<u8>)
    ensures
        run(table, m, a + b) == match run(table, m, a) {
            Ok(mid) => run(table, mid, b),
            Err(e) => Err(e),
        },
    decreases a.len(),
{
    if a.len() == 0 {
        assert(a + b =~= b);
    } else {
        assert((a + b)[0] == a[0]);
        assert((a + b).skip(1) =~= a.skip(1) + b);
        match step(table, m, a[0]) {
            Ok(next) => lemma_run_concat(table, next, a.skip(1), b),
            Err(_) => {},
        }
    }
}

/// Reading `a` and then concluding on `b` is concluding on `a + b`.
pub proof fn lemma_conclude_concat(table: Map<Seq<u8>, i32>, m: Machine, a: Seq<u8>, b: Seq<u8>)
    ensures
        conclude(table, m, a + b) == match run(table, m, a) {
            Ok(mid) => conclude(table, mid, b),
            Err(e) => Err(e),
        },
{
    lemma_run_concat(table, m, a, b);
}

/// Reading a single byte is one step.
pub proof fn lemma_run_one(table: Map<Seq<u8>, i32>, m: Machine, c: u8)
    ensures
        run(table, m, seq![c]) == step(table, m, c),
{
    assert(seq![c].skip(1) =~= Seq::<u8>::empty());
    match step(table, m, c) {
        Ok(next) => {
            assert(run(table, next, Seq::<u8>::empty()) == Ok::<Machine, Fault>(next));
        },
        Err(_) => {},
    }
}

/// Digits are only collected: reading them appends them to the digits of
/// the operand being read.
pub proof fn lemma_run_digits(table: Map<Seq<u8>, i32>, m: Machine, digits: Seq<u8>)
    requires
        all_digits(digits),
    ensures
        run(table, m, digits) == Ok::<Machine, Fault>(
            Machine { number: m.number + digits, ..m },
        ),
    decreases digits.len(),
{
    if digits.len() == 0 {
        assert(m.number + digits =~= m.number);
    } else {
        let next = Machine { number: m.number.push(digits[0]), ..m };
        assert(spec_is_digit(digits[0]));
        assert(all_digits(digits.skip(1))) by {
            assert forall|i: int| 0 <= i < digits.skip(1).len() implies spec_is_digit(
                #[trigger] digits.skip(1)[i],
            ) by {
                assert(digits.skip(1)[i] == digits[i + 1]);
            }
        }
        lemma_run_digits(table, next, digits.skip(1));
        assert(next.number + digits.skip(1) =~= m.number + digits);
    }
}

/// Letters are only collected: reading them appends them to the letters of
/// the operand being read.
pub proof fn lemma_run_letters(table: Map<Seq<u8>, i32>, m: Machine, letters: Seq<u8>)
    requires
        all_lowercase_letters(letters),
    ensures
        run(table, m, letters) == Ok::<Machine, Fault>(
            Machine { identifier: m.identifier + letters, ..m },
        ),
    decreases letters.len(),
{
    if letters.len() == 0 {
        assert(m.identifier + letters =~= m.identifier);
    } else {
        let next = Machine { identifier: m.identifier.push(letters[0]), ..m };
        assert(spec_is_lowercase_letter(letters[0]));
        assert(all_lowercase_letters(letters.skip(1))) by {
            assert forall|i: int| 0 <= i < letters.skip(1).len() implies spec_is_lowercase_letter(
                #[trigger] letters.skip(1)[i],
            ) by {
                assert(letters.skip(1)[i] == letters[i + 1]);
            }
        }
        lemma_run_letters(table, next, letters.skip(1));
        assert(next.identifier + letters.skip(1) =~= m.identifier + letters);
    }
}

/// Flushing leaves no operand behind, so that flushing again changes
/// nothing.
pub proof fn lemma_settle_once(table: Map<Seq<u8>, i32>, m: Machine)
    ensures
        match settle(table, m) {
            Ok(s) => !has_operand(s) && settle(table, s) == Ok::<Machine, Fault>(s),
            Err(_) => true,
        },
{
}

/// An operator and a closing parenthesis end the operand before them: the
/// step is the step from the flushed state.
pub proof fn lemma_step_settles(table: Map<Seq<u8>, i32>, m: Machine, c: u8)
    requires
        spec_is_operator(c) || c == CLOSE,
    ensures
        step(table, m, c) == match settle(table, m) {
            Ok(s) => step(table, s, c),
            Err(e) => Err(e),
        },
{
    lemma_settle_once(table, m);
}

/// The end of the input ends the operand before it.
pub proof fn lemma_finish_settles(table: Map<Seq<u8>, i32>, m: Machine)
    ensures
        finish(table, m) == match settle(table, m) {
            Ok(s) => finish(table, s),
            Err(e) => Err(e),
        },
{
    lemma_settle_once(table, m);
}

} // verus!
