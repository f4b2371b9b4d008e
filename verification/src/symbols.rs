//! Classification of the bytes an expression is made of.

use vstd::prelude::*;

verus! {

/// `+`
pub const PLUS: u8 = 0x2b;

/// `-`
pub const MINUS: u8 = 0x2d;

/// `*`
pub const STAR: u8 = 0x2a;

/// `/`
pub const SLASH: u8 = 0x2f;

/// `(`
pub const OPEN: u8 = 0x28;

/// `)`
pub const CLOSE: u8 = 0x29;

/// The blank, the only byte that the scan skips.
pub const SPACE: u8 = 0x20;

/// `0`, the first of the ten digits.
pub const ZERO: u8 = 0x30;

/// The byte is a decimal digit, `0` to `9`.
pub open spec fn spec_is_digit(c: u8) -> bool {
    0x30 <= c <= 0x39
}

/// The byte is a lowercase letter, `a` to `z`.
pub open spec fn spec_is_lowercase_letter(c: u8) -> bool {
    0x61 <= c <= 0x7a
}

/// Every byte of the sequence is a lowercase letter.
pub open spec fn all_lowercase_letters(s: Seq<u8>) -> bool {
    forall|i: int| 0 <= i < s.len() ==> spec_is_lowercase_letter(#[trigger] s[i])
}

/// The byte is one of the four binary operators.
pub open spec fn spec_is_operator(c: u8) -> bool {
    c == PLUS || c == MINUS || c == STAR || c == SLASH
}

/// The byte may occur in an expression at all.
pub open spec fn in_alphabet(c: u8) -> bool {
    spec_is_digit(c) || spec_is_lowercase_letter(c) || spec_is_operator(c) || c == OPEN || c
        == CLOSE || c == SPACE
}

/// How tightly an operator binds: 1 for `*` and `/`, 0 for `+` and `-`.
pub open spec fn priority(op: u8) -> int {
    if op == STAR || op == SLASH {
        1
    } else {
        0
    }
}

#[verifier::when_used_as_spec(spec_is_digit)]
pub fn is_digit(c: u8) -> (r: bool)
    ensures
        r == spec_is_digit(c),
{
    0x30 <= c && c <= 0x39
}

#[verifier::when_used_as_spec(spec_is_lowercase_letter)]
pub fn is_lowercase_letter(c: u8) -> (r: bool)
    ensures
        r == spec_is_lowercase_letter(c),
{
    0x61 <= c && c <= 0x7a
}

#[verifier::when_used_as_spec(spec_is_operator)]
pub fn is_operator(c: u8) -> (r: bool)
    ensures
        r == spec_is_operator(c),
{
    c == PLUS || c == MINUS || c == STAR || c == SLASH
}

} // verus!
