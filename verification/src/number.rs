//! Decimal literals.

use crate::symbols::{ZERO, is_digit, spec_is_digit};
use vstd::prelude::*;

verus! {

/// Every byte of the sequence is a decimal digit.
pub open spec fn all_digits(s: Seq<u8>) -> bool {
    forall|i: int| 0 <= i < s.len() ==> spec_is_digit(#[trigger] s[i])
}

/// The number that a sequence of digits denotes in base ten; 0 for the empty
/// sequence.
pub open spec fn decimal_value(digits: Seq<u8>) -> int
    decreases digits.len(),
{
    if digits.len() == 0 {
        0
    } else {
        10 * decimal_value(digits.drop_last()) + (digits.last() - ZERO)
    }
}

/// The `i32` that a literal denotes: it has one, which is its decimal value,
/// if and only if it is a non-empty sequence of digits whose value fits.
pub open spec fn literal_value(digits: Seq<u8>) -> Option<i32> {
    if digits.len() > 0 && all_digits(digits) && decimal_value(digits) <= i32::MAX {
        Some(decimal_value(digits) as i32)
    } else {
        None
    }
}

/// A sequence of digits denotes no less than any of its prefixes, and nothing
/// negative.
pub proof fn lemma_decimal_value_grows(digits: Seq<u8>, n: int)
    requires
        all_digits(digits),
        0 <= n <= digits.len(),
    ensures
        0 <= decimal_value(digits.take(n)) <= decimal_value(digits),
    decreases digits.len(),
{
    if digits.len() == 0 {
        assert(digits.take(n) =~= digits);
    } else if n == digits.len() {
        assert(digits.take(n) =~= digits);
        lemma_decimal_value_grows(digits.drop_last(), n - 1);
    } else {
        assert(all_digits(digits.drop_last()));
        lemma_decimal_value_grows(digits.drop_last(), n);
        assert(digits.drop_last().take(n) =~= digits.take(n));
    }
}

/// Reads a literal.
pub fn parse_literal(digits: &Vec<u8>) -> (r: Option<i32>)
    ensures
        r == literal_value(digits@),
{
    if digits.len() == 0 {
        return None;
    }
    let mut acc: i32 = 0;
    let mut i: usize = 0;
    while i < digits.len()
        invariant
            i <= digits.len(),
            all_digits(digits@.take(i as int)),
            acc == decimal_value(digits@.take(i as int)),
        decreases digits.len() - i,
    {
        let c: u8 = digits[i];
        proof {
            assert(digits@.take(i + 1).drop_last() =~= digits@.take(i as int));
            assert(digits@.take(i + 1).last() == c);
        }
        if !is_digit(c) {
            assert(!all_digits(digits@));
            return None;
        }
        assert(all_digits(digits@.take(i + 1))) by {
            assert forall|j: int| 0 <= j < i + 1 implies spec_is_digit(
                #[trigger] digits@.take(i + 1)[j],
            ) by {
                if j < i {
                    assert(digits@.take(i as int)[j] == digits@[j]);
                }
            }
        }
        let next: Option<i32> = match acc.checked_mul(10) {
            Some(tenfold) => tenfold.checked_add((c - ZERO) as i32),
            None => None,
        };
        match next {
            Some(v) => {
                acc = v;
            },
            None => {
                proof {
                    if all_digits(digits@) {
                        lemma_decimal_value_grows(digits@, i + 1);
                    }
                }
                return None;
            },
        }
        i += 1;
    }
    proof {
        assert(digits@.take(i as int) =~= digits@);
    }
    Some(acc)
}

} // verus!
