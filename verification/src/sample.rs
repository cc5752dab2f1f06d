//! Audio samples as binary32 bit patterns.
//!
//! A sample is an IEEE 754 single precision number in the range -1 to 1. It is
//! carried here by its bit pattern: one sign bit, eight exponent bits and 23
//! fraction bits. Numbers that are not negative are ordered as their patterns.
use vstd::prelude::*;

verus! {

/// The bit pattern of a single precision sample.
pub type Sample = u32;

/// The weight of the sign bit.
pub const SIGN_BIT: u32 = 0x8000_0000;

/// The weight of the lowest exponent bit: one step halves or doubles a number.
pub const EXPONENT_STEP: u32 = 0x0080_0000;

/// The pattern of positive infinity. Greater magnitudes are not numbers.
pub const INFINITY: u32 = 0x7f80_0000;

/// Zero.
pub const SILENT: Sample = 0;

/// Full scale, 1.0.
pub const FULL_SCALE: Sample = 0x3f80_0000;

/// Negative full scale, -1.0.
pub const NEGATIVE_FULL_SCALE: Sample = 0xbf80_0000;

/// The pattern of the absolute value of a sample.
pub open spec fn magnitude(s: Sample) -> int {
    s as int % SIGN_BIT as int
}

/// Whether a pattern stands for "not a number".
pub open spec fn is_nan(s: Sample) -> bool {
    magnitude(s) > INFINITY
}

/// Whether the number of `a` is greater than that of `b`, where `b` is a number
/// that is not negative.
pub open spec fn exceeds(a: Sample, b: Sample) -> bool {
    b < a <= INFINITY
}

/// The pattern of the absolute value of `s`.
pub fn abs(s: Sample) -> (r: Sample)
    ensures
        r == magnitude(s),
{
    s % SIGN_BIT
}

} // verus!
