//! Ordering and equality of IEEE 754 binary32 values, computed directly on
//! their bit patterns.
//!
//! A binary32 value is negative when its sign bit (the topmost bit) is set;
//! its magnitude field is the remaining 31 bits.  For two values of the same
//! sign the magnitude fields order the values (reversed for two negative
//! values), the two zeroes (+0.0 and -0.0) compare equal, and a NaN — a
//! magnitude field strictly above that of infinity — compares neither less,
//! equal, nor greater to anything.
use vstd::prelude::*;

verus! {

/// The magnitude field of a bit pattern: the 31 bits below the sign bit.
pub open spec fn mag_bits(x: u32) -> u32 {
    if x >= 0x8000_0000 {
        (x - 0x8000_0000) as u32
    } else {
        x
    }
}

/// Whether the sign bit of the bit pattern is set.
pub open spec fn sign_bit(x: u32) -> bool {
    x >= 0x8000_0000
}

/// Whether the bit pattern denotes a NaN: magnitude strictly above infinity's.
pub open spec fn is_nan_bits(x: u32) -> bool {
    mag_bits(x) > 0x7f80_0000
}

/// IEEE equality of two binary32 bit patterns: equal patterns, or the two
/// zeroes; never true of a NaN.
pub open spec fn float_eq_bits(a: u32, b: u32) -> bool {
    &&& !is_nan_bits(a)
    &&& !is_nan_bits(b)
    &&& (a == b || (mag_bits(a) == 0 && mag_bits(b) == 0))
}

/// IEEE strict order of two binary32 bit patterns: never true of a NaN.
pub open spec fn float_lt_bits(a: u32, b: u32) -> bool {
    &&& !is_nan_bits(a)
    &&& !is_nan_bits(b)
    &&& (if sign_bit(a) && sign_bit(b) {
        mag_bits(b) < mag_bits(a)
    } else if sign_bit(a) && !sign_bit(b) {
        mag_bits(a) != 0 || mag_bits(b) != 0
    } else if !sign_bit(a) && sign_bit(b) {
        false
    } else {
        mag_bits(a) < mag_bits(b)
    })
}

/// IEEE strict reverse order: the mirror of [`float_lt_bits`].
pub open spec fn float_gt_bits(a: u32, b: u32) -> bool {
    float_lt_bits(b, a)
}

/// The magnitude field, computed.
pub fn mag_of(x: u32) -> (r: u32)
    ensures
        r == mag_bits(x),
{
    if x >= 0x8000_0000 {
        x - 0x8000_0000
    } else {
        x
    }
}

/// Whether the bit pattern denotes a NaN, computed.
pub fn nan_of(x: u32) -> (r: bool)
    ensures
        r == is_nan_bits(x),
{
    mag_of(x) > 0x7f80_0000
}

/// IEEE equality on bit patterns, computed.
pub fn float_eq(a: u32, b: u32) -> (r: bool)
    ensures
        r == float_eq_bits(a, b),
{
    !nan_of(a) && !nan_of(b) && (a == b || (mag_of(a) == 0 && mag_of(b) == 0))
}

/// IEEE strict order on bit patterns, computed.
pub fn float_lt(a: u32, b: u32) -> (r: bool)
    ensures
        r == float_lt_bits(a, b),
{
    if nan_of(a) || nan_of(b) {
        false
    } else if a >= 0x8000_0000 {
        if b >= 0x8000_0000 {
            mag_of(b) < mag_of(a)
        } else {
            mag_of(a) != 0 || mag_of(b) != 0
        }
    } else {
        if b >= 0x8000_0000 {
            false
        } else {
            mag_of(a) < mag_of(b)
        }
    }
}

/// IEEE strict reverse order on bit patterns, computed.
pub fn float_gt(a: u32, b: u32) -> (r: bool)
    ensures
        r == float_gt_bits(a, b),
{
    float_lt(b, a)
}

/// Exactly one of less, equal, greater holds of two non-NaN bit patterns;
/// none holds when either is a NaN.
pub proof fn lemma_float_trichotomy(a: u32, b: u32)
    ensures
        !is_nan_bits(a) && !is_nan_bits(b) ==> {
            let l = float_lt_bits(a, b);
            let e = float_eq_bits(a, b);
            let g = float_gt_bits(a, b);
            (l || e || g) && !(l && e) && !(l && g) && !(e && g)
        },
        is_nan_bits(a) || is_nan_bits(b) ==> !float_lt_bits(a, b) && !float_eq_bits(a, b)
            && !float_gt_bits(a, b),
{
}

} // verus!
