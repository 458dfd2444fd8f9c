//! Comparing numbers by their bit patterns.
//!
//! A number is held as the 64 bits of a binary floating-point number: one
//! bit of sign, then the magnitude, in which eleven bits of exponent stand
//! before fifty-two of fraction. A magnitude above that of infinity is no
//! number. Among the others the order of the numbers is the order of their
//! magnitudes, turned round below zero; both zeros are equal.

use vstd::prelude::*;

verus! {

/// The bit of the sign.
pub const SIGN: u64 = 0x8000_0000_0000_0000;

/// The magnitude of infinity: all bits of the exponent, none of the fraction.
pub const INFINITY: u64 = 0x7ff0_0000_0000_0000;

/// The bits without the sign.
pub open spec fn magnitude(bits: u64) -> int {
    if bits >= SIGN {
        bits - SIGN
    } else {
        bits as int
    }
}

/// The bits stand for no number.
pub open spec fn is_nan(bits: u64) -> bool {
    magnitude(bits) > INFINITY
}

/// The place of a number in the order of the numbers.
pub open spec fn rank(bits: u64) -> int {
    if bits >= SIGN {
        -magnitude(bits)
    } else {
        magnitude(bits)
    }
}

/// `a == b` as numbers: what is no number equals nothing, not even itself.
pub open spec fn same_number(a: u64, b: u64) -> bool {
    !is_nan(a) && !is_nan(b) && rank(a) == rank(b)
}

/// `a < b` as numbers: what is no number is below nothing and above nothing.
pub open spec fn below(a: u64, b: u64) -> bool {
    !is_nan(a) && !is_nan(b) && rank(a) < rank(b)
}

/// `a <= b` as numbers.
pub open spec fn at_most(a: u64, b: u64) -> bool {
    !is_nan(a) && !is_nan(b) && rank(a) <= rank(b)
}

fn nan(bits: u64) -> (r: bool)
    ensures
        r == is_nan(bits),
{
    if bits >= SIGN {
        bits - SIGN > INFINITY
    } else {
        bits > INFINITY
    }
}

/// Whether `rank(a) < rank(b)`, for two numbers.
fn rank_below(a: u64, b: u64) -> (r: bool)
    ensures
        r == (rank(a) < rank(b)),
{
    if a >= SIGN {
        if b >= SIGN {
            b < a
        } else {
            a > SIGN || b > 0
        }
    } else {
        if b >= SIGN {
            false
        } else {
            a < b
        }
    }
}

/// `a == b` as numbers.
pub fn equal(a: u64, b: u64) -> (r: bool)
    ensures
        r == same_number(a, b),
{
    !nan(a) && !nan(b) && !rank_below(a, b) && !rank_below(b, a)
}

/// `a < b` as numbers.
pub fn less(a: u64, b: u64) -> (r: bool)
    ensures
        r == below(a, b),
{
    !nan(a) && !nan(b) && rank_below(a, b)
}

/// `a <= b` as numbers.
pub fn less_or_equal(a: u64, b: u64) -> (r: bool)
    ensures
        r == at_most(a, b),
{
    !nan(a) && !nan(b) && !rank_below(b, a)
}

/// `bits < 0` as a number.
pub fn negative(bits: u64) -> (r: bool)
    ensures
        r == below(bits, 0),
{
    less(bits, 0)
}

} // verus!
