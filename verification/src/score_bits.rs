//! Ordering of IEEE-754 single-precision numbers, read from their bit
//! patterns. Match confidences travel through the library as these 32-bit
//! patterns, so that every decision taken on them is checked here exactly as
//! the hardware comparison would take it.

use vstd::prelude::*;

verus! {

/// Biased exponent field of a single-precision bit pattern.
pub open spec fn sp_exponent(b: u32) -> u32 {
    ((b / 0x80_0000) % 0x100) as u32
}

/// Fraction (mantissa) field of a single-precision bit pattern.
pub open spec fn sp_fraction(b: u32) -> u32 {
    b % 0x80_0000
}

/// The sign bit is set.
pub open spec fn sp_negative(b: u32) -> bool {
    b >= 0x8000_0000
}

/// The pattern encodes a NaN.
pub open spec fn sp_is_nan(b: u32) -> bool {
    sp_exponent(b) == 0xff && sp_fraction(b) != 0
}

/// The pattern encodes a finite number (neither infinite nor NaN).
pub open spec fn sp_is_finite(b: u32) -> bool {
    sp_exponent(b) != 0xff
}

/// An integer that orders all non-NaN patterns as their numeric values are
/// ordered: magnitudes grow with the unsigned pattern, the sign flips them,
/// and both zeros map to 0.
pub open spec fn sp_key(b: u32) -> int {
    if sp_negative(b) {
        -((b % 0x8000_0000) as int)
    } else {
        b as int
    }
}

/// `a < b` as a single-precision comparison (false when either is NaN).
pub open spec fn sp_lt(a: u32, b: u32) -> bool {
    !sp_is_nan(a) && !sp_is_nan(b) && sp_key(a) < sp_key(b)
}

/// `a >= b` as a single-precision comparison (false when either is NaN).
pub open spec fn sp_ge(a: u32, b: u32) -> bool {
    !sp_is_nan(a) && !sp_is_nan(b) && sp_key(a) >= sp_key(b)
}

/// Whether the pattern encodes a finite number.
pub fn is_finite_bits(b: u32) -> (r: bool)
    ensures
        r == sp_is_finite(b),
{
    (b / 0x80_0000) % 0x100 != 0xff
}

/// Whether the pattern encodes a NaN.
pub fn is_nan_bits(b: u32) -> (r: bool)
    ensures
        r == sp_is_nan(b),
{
    (b / 0x80_0000) % 0x100 == 0xff && b % 0x80_0000 != 0
}

/// The ordering key of `sp_key`, computed.
fn key_of(b: u32) -> (k: i64)
    ensures
        k as int == sp_key(b),
{
    if b >= 0x8000_0000 {
        -((b % 0x8000_0000) as i64)
    } else {
        b as i64
    }
}

/// `a >= b` on single-precision bit patterns, as the hardware compares them.
pub fn ge_bits(a: u32, b: u32) -> (r: bool)
    ensures
        r == sp_ge(a, b),
{
    !is_nan_bits(a) && !is_nan_bits(b) && key_of(a) >= key_of(b)
}

/// `a < b` on single-precision bit patterns, as the hardware compares them.
pub fn lt_bits(a: u32, b: u32) -> (r: bool)
    ensures
        r == sp_lt(a, b),
{
    !is_nan_bits(a) && !is_nan_bits(b) && key_of(a) < key_of(b)
}

} // verus!
