//! IEEE-754 binary32 values carried by their bit patterns.
//!
//! The save records store positions, velocities and angles as little-endian
//! binary32 words. The codecs never compute with them: they only check that a
//! value is finite and, for a vertical coordinate, that it lies inside the
//! world's build height. Both checks are exact predicates on the bit pattern,
//! so the library keeps each value as the `u32` that `f32::to_bits` gives.
use vstd::prelude::*;

verus! {

/// The exponent field of a binary32 pattern.
pub const EXPONENT_MASK: u32 = 0x7F80_0000;
/// The sign bit of a binary32 pattern.
pub const SIGN_MASK: u32 = 0x8000_0000;
/// Bit pattern of `320.0`, the exclusive top of the world.
pub const WORLD_TOP_BITS: u32 = 0x43A0_0000;
/// Magnitude bits of `64.0`; `-64.0` is the inclusive bottom of the world.
pub const WORLD_BOTTOM_MAGNITUDE_BITS: u32 = 0x4280_0000;

/// The value is neither infinite nor NaN: its exponent is not all ones.
pub open spec fn f32_finite(bits: u32) -> bool {
    bits & EXPONENT_MASK != EXPONENT_MASK
}

/// For a finite value: `-64.0 <= value < 320.0`.
///
/// Non-negative values order like their patterns; a negative value is at
/// least `-64.0` exactly when its magnitude pattern is at most that of `64.0`.
pub open spec fn y_in_world(bits: u32) -> bool {
    if bits & SIGN_MASK == 0 {
        bits < WORLD_TOP_BITS
    } else {
        bits & !SIGN_MASK <= WORLD_BOTTOM_MAGNITUDE_BITS
    }
}

/// Magnitude bits of `FRAC_PI_2` as a binary32, the steepest stored pitch.
pub const HALF_PI_MAGNITUDE_BITS: u32 = 0x3FC9_0FDB;

/// For a finite value: `-FRAC_PI_2 <= value <= FRAC_PI_2`, compared by magnitude.
pub open spec fn pitch_in_range(bits: u32) -> bool {
    bits & !SIGN_MASK <= HALF_PI_MAGNITUDE_BITS
}

/// Reports whether a finite binary32 pitch lies in `[-FRAC_PI_2, FRAC_PI_2]`.
pub fn is_pitch_in_range(bits: u32) -> (b: bool)
    ensures
        b == pitch_in_range(bits),
{
    bits & !SIGN_MASK <= HALF_PI_MAGNITUDE_BITS
}

/// Reports whether the binary32 pattern is a finite value.
pub fn is_finite(bits: u32) -> (b: bool)
    ensures
        b == f32_finite(bits),
{
    bits & EXPONENT_MASK != EXPONENT_MASK
}

/// Reports whether a finite binary32 vertical coordinate lies in `[-64, 320)`.
pub fn is_in_world(bits: u32) -> (b: bool)
    ensures
        b == y_in_world(bits),
{
    if bits & SIGN_MASK == 0 {
        bits < WORLD_TOP_BITS
    } else {
        bits & !SIGN_MASK <= WORLD_BOTTOM_MAGNITUDE_BITS
    }
}

} // verus!
