//! The four operations on 32-bit integers, with their failures.

use crate::error::{ArithmeticFault, EvalError, Fault, outcome};
use crate::symbols::{MINUS, PLUS, SLASH, STAR, spec_is_operator};
use vstd::prelude::*;

verus! {

/// The number fits in an `i32`.
pub open spec fn fits(v: int) -> bool {
    i32::MIN <= v <= i32::MAX
}

/// The quotient of `a` by `b` rounded towards zero.
pub open spec fn truncated_quotient(a: int, b: int) -> int
    recommends
        b != 0,
{
    if a >= 0 {
        a / b
    } else {
        -((-a) / b)
    }
}

/// The exact result of `left op right` over the integers, where `op` is one
/// of the four operators and, for `/`, `right` is not zero.
pub open spec fn exact(op: u8, left: int, right: int) -> int {
    if op == PLUS {
        left + right
    } else if op == MINUS {
        left - right
    } else if op == STAR {
        left * right
    } else {
        truncated_quotient(left, right)
    }
}

/// What `left op right` gives on 32-bit integers: the exact result where it
/// fits, and otherwise the reason why there is none.
pub open spec fn combine(op: u8, left: i32, right: i32) -> Result<i32, Fault> {
    if !spec_is_operator(op) {
        Err(Fault::InternalInvariant)
    } else if op == SLASH && right == 0 {
        Err(Fault::Arithmetic(ArithmeticFault::DivisionByZero))
    } else if !fits(exact(op, left as int, right as int)) {
        Err(Fault::Arithmetic(ArithmeticFault::Overflow))
    } else {
        Ok(exact(op, left as int, right as int) as i32)
    }
}

/// Rounding towards zero leaves a remainder smaller than the divisor, with
/// the sign of the dividend.
pub proof fn lemma_truncated_quotient(a: int, b: int)
    requires
        b != 0,
    ensures
        ({
            let r = a - truncated_quotient(a, b) * b;
            &&& a >= 0 ==> 0 <= r
            &&& a <= 0 ==> r <= 0
            &&& b > 0 ==> -b < r < b
            &&& b < 0 ==> b < r < -b
        }),
{
    let m: int = if a >= 0 { a } else { -a };
    let q: int = m / b;
    assert(0 <= m - q * b && (b > 0 ==> m - q * b < b) && (b < 0 ==> m - q * b < -b) && (m == 0
        ==> q * b == 0)) by (nonlinear_arith)
        requires
            b != 0,
            m >= 0,
            q == m / b,
    ;
    if a >= 0 {
        assert(truncated_quotient(a, b) == q);
    } else {
        assert(truncated_quotient(a, b) == -q);
        assert((-q) * b == -(q * b)) by (nonlinear_arith);
    }
}

/// The quotient is no larger in magnitude than the dividend, and at most
/// half of it unless the divisor is 1 or -1.
pub proof fn lemma_quotient_magnitude(a: int, b: int)
    requires
        b != 0,
    ensures
        ({
            let m = if a >= 0 { a } else { -a };
            let q = truncated_quotient(a, b);
            &&& -m <= q <= m
            &&& b == 1 ==> q == a
            &&& b == -1 ==> q == -a
            &&& b != 1 && b != -1 ==> -m <= 2 * q <= m
        }),
{
    let m: int = if a >= 0 { a } else { -a };
    let q: int = m / b;
    assert(-m <= q <= m && (b == 1 ==> q == m) && (b == -1 ==> q == -m) && (b != 1 && b != -1
        ==> -m <= 2 * q <= m)) by (nonlinear_arith)
        requires
            b != 0,
            m >= 0,
            q == m / b,
    ;
}

/// Computes `left op right`.
pub fn compute(op: u8, left: i32, right: i32) -> (r: Result<i32, EvalError>)
    ensures
        outcome(r) == combine(op, left, right),
{
    let found: Option<i32> = if op == PLUS {
        left.checked_add(right)
    } else if op == MINUS {
        left.checked_sub(right)
    } else if op == STAR {
        left.checked_mul(right)
    } else if op == SLASH {
        if right == 0 {
            return Err(EvalError::Arithmetic(ArithmeticFault::DivisionByZero));
        }
        proof {
            lemma_quotient_magnitude(left as int, right as int);
        }
        if left == i32::MIN && right == -1 {
            None
        } else {
            Some(left / right)
        }
    } else {
        return Err(EvalError::InternalInvariant);
    };
    match found {
        Some(v) => Ok(v),
        None => Err(EvalError::Arithmetic(ArithmeticFault::Overflow)),
    }
}

} // verus!
