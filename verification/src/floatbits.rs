//! IEEE 754 single-precision comparisons, evaluated on raw bit patterns.
//!
//! The library stores every floating-point sample as its 32-bit pattern.
//! Ordering and equality of such samples are fully determined by the bits,
//! so they are implemented here as verified integer logic: equality treats
//! the two zeroes as equal and NaN as unequal to everything, and the order
//! is the usual sign/magnitude order on non-NaN values.

use vstd::prelude::*;

verus! {

/// Whether the pattern encodes a NaN (maximal exponent, non-zero fraction).
pub open spec fn float_is_nan(a: u32) -> bool {
    (a >> 23u32) & 0xff == 0xff && a & 0x7fffff != 0
}

/// Whether the pattern encodes a zero of either sign.
pub open spec fn float_is_zero(a: u32) -> bool {
    a & 0x7fffffff == 0
}

/// Whether the pattern has its sign bit set.
pub open spec fn float_sign_bit(a: u32) -> bool {
    a >> 31u32 == 1
}

/// IEEE equality on bit patterns: NaN equals nothing, the zeroes are equal,
/// every other value equals exactly its own pattern.
pub open spec fn float_eq(a: u32, b: u32) -> bool {
    &&& !float_is_nan(a)
    &&& !float_is_nan(b)
    &&& (a == b || (float_is_zero(a) && float_is_zero(b)))
}

/// IEEE `<` on bit patterns; false whenever either operand is NaN.
pub open spec fn float_lt(a: u32, b: u32) -> bool {
    &&& !float_is_nan(a)
    &&& !float_is_nan(b)
    &&& if float_sign_bit(a) {
        if float_sign_bit(b) {
            // both negative: greater magnitude is smaller
            a & 0x7fffffff > b & 0x7fffffff
        } else {
            // negative < non-negative, except -0 vs +0
            !(float_is_zero(a) && float_is_zero(b))
        }
    } else {
        if float_sign_bit(b) {
            false
        } else {
            // both non-negative: magnitude order
            a & 0x7fffffff < b & 0x7fffffff
        }
    }
}

/// The minimum in the sense of IEEE `minNum`: a NaN operand is ignored;
/// over equal operands the first is kept.
pub open spec fn float_min(a: u32, b: u32) -> u32 {
    if float_is_nan(a) {
        b
    } else if float_is_nan(b) {
        a
    } else if float_lt(b, a) {
        b
    } else {
        a
    }
}

/// The maximum in the sense of IEEE `maxNum`: a NaN operand is ignored;
/// over equal operands the first is kept.
pub open spec fn float_max(a: u32, b: u32) -> u32 {
    if float_is_nan(a) {
        b
    } else if float_is_nan(b) {
        a
    } else if float_lt(a, b) {
        b
    } else {
        a
    }
}

/// Decides NaN-hood of a pattern.
pub fn is_nan_bits(a: u32) -> (r: bool)
    ensures
        r == float_is_nan(a),
{
    (a >> 23u32) & 0xff == 0xff && a & 0x7fffff != 0
}

/// Decides whether a pattern is one of the two zeroes.
pub fn is_zero_bits(a: u32) -> (r: bool)
    ensures
        r == float_is_zero(a),
{
    a & 0x7fffffff == 0
}

/// Decides whether the sign bit is set, i.e. the value is negative or `-0.0`.
pub fn sign_bit(a: u32) -> (r: bool)
    ensures
        r == float_sign_bit(a),
{
    a >> 31u32 == 1
}

/// IEEE equality of two patterns.
pub fn eq_bits(a: u32, b: u32) -> (r: bool)
    ensures
        r == float_eq(a, b),
{
    !is_nan_bits(a) && !is_nan_bits(b) && (a == b || (is_zero_bits(a) && is_zero_bits(b)))
}

/// IEEE strict order of two patterns.
pub fn lt_bits(a: u32, b: u32) -> (r: bool)
    ensures
        r == float_lt(a, b),
{
    if is_nan_bits(a) || is_nan_bits(b) {
        false
    } else if sign_bit(a) {
        if sign_bit(b) {
            a & 0x7fffffff > b & 0x7fffffff
        } else {
            !(is_zero_bits(a) && is_zero_bits(b))
        }
    } else {
        if sign_bit(b) {
            false
        } else {
            a & 0x7fffffff < b & 0x7fffffff
        }
    }
}

/// The `minNum` of two patterns.
pub fn min_bits(a: u32, b: u32) -> (r: u32)
    ensures
        r == float_min(a, b),
{
    if is_nan_bits(a) {
        b
    } else if is_nan_bits(b) {
        a
    } else if lt_bits(b, a) {
        b
    } else {
        a
    }
}

/// The `maxNum` of two patterns.
pub fn max_bits(a: u32, b: u32) -> (r: u32)
    ensures
        r == float_max(a, b),
{
    if is_nan_bits(a) {
        b
    } else if is_nan_bits(b) {
        a
    } else if lt_bits(a, b) {
        b
    } else {
        a
    }
}

} // verus!
