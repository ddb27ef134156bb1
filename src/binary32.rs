//! Ordering of IEEE-754 binary32 values given as their bit patterns.
use vstd::prelude::*;

verus! {

/// Bit pattern of positive infinity.
pub const INFINITY_BITS: u32 = 0x7f80_0000;

/// The bits below the sign bit: exponent and fraction.
pub open spec fn magnitude(b: u32) -> int {
    (b as int) % 0x8000_0000
}

/// The sign bit is set.
pub open spec fn is_negative(b: u32) -> bool {
    b >= 0x8000_0000
}

/// All exponent bits set and a fraction other than zero.
pub open spec fn is_nan(b: u32) -> bool {
    magnitude(b) > INFINITY_BITS
}

/// An integer that orders the values that are not NaN as the reals they stand
/// for are ordered: both zeros map to 0, and the infinities to the extremes.
pub open spec fn order_key(b: u32) -> int {
    if is_negative(b) {
        -magnitude(b)
    } else {
        magnitude(b)
    }
}

/// IEEE `a < b`: false whenever either operand is NaN.
pub open spec fn lt(a: u32, b: u32) -> bool {
    !is_nan(a) && !is_nan(b) && order_key(a) < order_key(b)
}

/// IEEE `a <= b`: false whenever either operand is NaN.
pub open spec fn le(a: u32, b: u32) -> bool {
    !is_nan(a) && !is_nan(b) && order_key(a) <= order_key(b)
}

/// Computes `order_key` of a value.
fn key_of(b: u32) -> (k: i64)
    ensures
        k == order_key(b),
{
    let m: u32 = b % 0x8000_0000;
    if b >= 0x8000_0000 {
        -(m as i64)
    } else {
        m as i64
    }
}

/// Whether `b` is a NaN.
pub fn is_nan_bits(b: u32) -> (r: bool)
    ensures
        r == is_nan(b),
{
    b % 0x8000_0000 > INFINITY_BITS
}

/// IEEE `a < b` on bit patterns: the comparison that decides whether a score
/// improves on another.
pub fn less_than(a: u32, b: u32) -> (r: bool)
    ensures
        r == lt(a, b),
{
    if is_nan_bits(a) || is_nan_bits(b) {
        false
    } else {
        key_of(a) < key_of(b)
    }
}

} // verus!
