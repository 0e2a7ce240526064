//! IEEE-754 single-precision values as raw bit patterns.
//!
//! The model format stores thresholds, leaf values and weights as 32-bit
//! floats.  This crate carries them as their bit patterns and performs the
//! two operations tree traversal needs — the missing-value test (NaN) and
//! the strict `<` comparison — directly on the bits, where they are plain
//! integer logic.

use vstd::prelude::*;

verus! {

/// Bit pattern of `1.0`: the implicit per-tree weight when no dropout
/// weights are present.
pub const F32_ONE_BITS: u32 = 0x3f80_0000;

/// Bit pattern of `0.0`.
pub const F32_ZERO_BITS: u32 = 0x0000_0000;

/// A NaN: exponent field all ones, mantissa nonzero.  A missing feature
/// value is encoded upstream as a NaN.
pub open spec fn spec_is_nan_bits(a: u32) -> bool {
    a & 0x7f80_0000 == 0x7f80_0000 && a & 0x007f_ffff != 0
}

/// The bits without the sign: for non-NaN patterns, magnitude order of the
/// represented values coincides with integer order of these bits.
pub open spec fn spec_magnitude_bits(a: u32) -> u32 {
    a & 0x7fff_ffff
}

/// The sign bit: set for negative values (and negative zero).
pub open spec fn spec_sign_bit(a: u32) -> bool {
    a & 0x8000_0000 != 0
}

/// Strict `<` on the represented single-precision values: false whenever
/// either operand is NaN, positive and negative zero compare equal, and
/// otherwise sign-magnitude order decides.
pub open spec fn spec_lt_bits(a: u32, b: u32) -> bool {
    if spec_is_nan_bits(a) || spec_is_nan_bits(b) {
        false
    } else if spec_sign_bit(a) && spec_sign_bit(b) {
        spec_magnitude_bits(a) > spec_magnitude_bits(b)
    } else if spec_sign_bit(a) && !spec_sign_bit(b) {
        // negative < non-negative, except -0.0 < +0.0
        spec_magnitude_bits(a) != 0 || spec_magnitude_bits(b) != 0
    } else if !spec_sign_bit(a) && spec_sign_bit(b) {
        false
    } else {
        spec_magnitude_bits(a) < spec_magnitude_bits(b)
    }
}

/// Whether the pattern is a NaN, i.e. a missing feature value.
pub fn is_nan_bits(a: u32) -> (r: bool)
    ensures
        r == spec_is_nan_bits(a),
{
    a & 0x7f80_0000 == 0x7f80_0000 && a & 0x007f_ffff != 0
}

/// Strict `<` on the represented single-precision values.
pub fn lt_bits(a: u32, b: u32) -> (r: bool)
    ensures
        r == spec_lt_bits(a, b),
{
    let a_nan = a & 0x7f80_0000 == 0x7f80_0000 && a & 0x007f_ffff != 0;
    let b_nan = b & 0x7f80_0000 == 0x7f80_0000 && b & 0x007f_ffff != 0;
    let a_mag = a & 0x7fff_ffff;
    let b_mag = b & 0x7fff_ffff;
    let a_neg = a & 0x8000_0000 != 0;
    let b_neg = b & 0x8000_0000 != 0;
    if a_nan || b_nan {
        false
    } else if a_neg && b_neg {
        a_mag > b_mag
    } else if a_neg && !b_neg {
        a_mag != 0 || b_mag != 0
    } else if !a_neg && b_neg {
        false
    } else {
        a_mag < b_mag
    }
}

} // verus!
