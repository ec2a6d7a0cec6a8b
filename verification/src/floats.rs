//! Floating-point numbers, carried as IEEE 754 double-precision bit
//! patterns.
//!
//! Verified code holds no floating-point type, so every float travels
//! through the interpreter as its 64-bit pattern. Classification
//! (NaN, zero), equality and ordering are pure bit arithmetic and are
//! implemented and specified here. Arithmetic, conversion, parsing
//! and formatting need the host's floating-point unit: the embedder
//! supplies them by implementing [`FloatOps`], typically as thin calls
//! onto the host float type. Nothing is assumed about the results
//! those methods return.

use vstd::prelude::*;

verus! {

/// The host-supplied floating-point operations. Every argument and
/// result named `bits` is an IEEE 754 double-precision bit pattern.
///
/// The interpreter states nothing about the values these methods
/// return; whatever they yield is carried through as an opaque number.
pub trait FloatOps {
    /// The bit pattern of the sum of the two doubles.
    fn add(&self, a: u64, b: u64) -> u64;

    /// The bit pattern of the difference of the two doubles.
    fn sub(&self, a: u64, b: u64) -> u64;

    /// The bit pattern of the product of the two doubles.
    fn mul(&self, a: u64, b: u64) -> u64;

    /// The bit pattern of the quotient of the two doubles.
    fn div(&self, a: u64, b: u64) -> u64;

    /// The bit pattern of the square root of the double.
    fn sqrt(&self, a: u64) -> u64;

    /// The bit pattern of the double nearest to the given integer.
    fn from_int(&self, n: i64) -> u64;

    /// The bit pattern parsed from a numeric token; called only on
    /// tokens that satisfy [`is_float_syntax`](crate::reader::is_float_syntax).
    fn parse(&self, tok: &str) -> u64;

    /// The decimal rendering of the double with the given bits.
    fn render(&self, bits: u64) -> String;
}

/// The sign bit of a double's bit pattern.
pub open spec fn f64_sign(b: u64) -> bool {
    b >> 63 == 1u64
}

/// The magnitude field (everything but the sign bit).
pub open spec fn f64_mag(b: u64) -> u64 {
    b & 0x7fff_ffff_ffff_ffff
}

/// Whether the bit pattern encodes a NaN: exponent all ones and a
/// non-zero fraction.
pub open spec fn f64_is_nan(b: u64) -> bool {
    f64_mag(b) > 0x7ff0_0000_0000_0000
}

/// Whether the bit pattern encodes a zero (of either sign).
pub open spec fn f64_is_zero(b: u64) -> bool {
    f64_mag(b) == 0
}

/// A signed ordering key: for bit patterns of non-NaN doubles,
/// comparing keys is exactly the IEEE comparison, with the two zeros
/// sharing the key `0`.
pub open spec fn f64_key(b: u64) -> int {
    if f64_sign(b) {
        -(f64_mag(b) as int)
    } else {
        f64_mag(b) as int
    }
}

/// Structural float equality, as the value model uses it: the two
/// zeros are equal, every NaN equals every NaN, and everything else
/// goes by its bits.
pub open spec fn f64_eq(a: u64, b: u64) -> bool {
    if f64_is_nan(a) || f64_is_nan(b) {
        f64_is_nan(a) && f64_is_nan(b)
    } else {
        f64_key(a) == f64_key(b)
    }
}

/// IEEE `<` on bit patterns; false whenever either side is NaN.
pub open spec fn f64_lt(a: u64, b: u64) -> bool {
    !f64_is_nan(a) && !f64_is_nan(b) && f64_key(a) < f64_key(b)
}

/// Whether the double is strictly negative (NaN is not).
pub open spec fn f64_is_neg(b: u64) -> bool {
    !f64_is_nan(b) && f64_sign(b) && !f64_is_zero(b)
}

/// Compute the magnitude field.
pub fn mag_of(b: u64) -> (r: u64)
    ensures
        r == f64_mag(b),
{
    b & 0x7fff_ffff_ffff_ffff
}

/// Decide whether the bit pattern encodes a NaN.
pub fn is_nan_bits(b: u64) -> (r: bool)
    ensures
        r == f64_is_nan(b),
{
    mag_of(b) > 0x7ff0_0000_0000_0000
}

/// Decide whether the bit pattern encodes a zero of either sign.
pub fn is_zero_bits(b: u64) -> (r: bool)
    ensures
        r == f64_is_zero(b),
{
    mag_of(b) == 0
}

/// Decide whether the double is strictly negative.
pub fn is_neg_bits(b: u64) -> (r: bool)
    ensures
        r == f64_is_neg(b),
{
    !is_nan_bits(b) && (b >> 63 == 1) && mag_of(b) != 0
}

/// Decide structural float equality on bit patterns.
pub fn eq_bits(a: u64, b: u64) -> (r: bool)
    ensures
        r == f64_eq(a, b),
{
    proof {
        assert(a >> 63 == 0 || a >> 63 == 1) by (bit_vector);
        assert(b >> 63 == 0 || b >> 63 == 1) by (bit_vector);
    }
    if is_nan_bits(a) || is_nan_bits(b) {
        is_nan_bits(a) && is_nan_bits(b)
    } else if (a >> 63 == 1) == (b >> 63 == 1) {
        mag_of(a) == mag_of(b)
    } else {
        mag_of(a) == 0 && mag_of(b) == 0
    }
}

/// Decide IEEE `<` on bit patterns (false when either side is NaN).
pub fn lt_bits(a: u64, b: u64) -> (r: bool)
    ensures
        r == f64_lt(a, b),
{
    proof {
        assert(a >> 63 == 0 || a >> 63 == 1) by (bit_vector);
        assert(b >> 63 == 0 || b >> 63 == 1) by (bit_vector);
    }
    if is_nan_bits(a) || is_nan_bits(b) {
        false
    } else {
        let sa = a >> 63 == 1;
        let sb = b >> 63 == 1;
        if sa != sb {
            // A negative is below a non-negative unless both are zeros.
            sa && !(mag_of(a) == 0 && mag_of(b) == 0)
        } else if sa {
            mag_of(b) < mag_of(a)
        } else {
            mag_of(a) < mag_of(b)
        }
    }
}

} // verus!
