//! Coordinate ordinates as raw IEEE-754 binary64 bit patterns.
//!
//! Every coordinate in this crate is carried as the 64-bit pattern of the
//! underlying double-precision value. The predicates here read those
//! patterns directly, so ordering and NaN tests are ordinary integer
//! arithmetic that the verifier reasons about exactly.

use vstd::prelude::*;

verus! {

/// Exponent field of a binary64 pattern: bits 52..63.
pub open spec fn exponent_bits(b: u64) -> u64 {
    (b >> 52) & 0x7ff
}

/// Fraction (mantissa) field of a binary64 pattern: bits 0..52.
pub open spec fn fraction_bits(b: u64) -> u64 {
    b & 0x000f_ffff_ffff_ffff
}

/// A pattern denotes NaN when the exponent is all ones and the fraction is
/// non-zero.
pub open spec fn is_nan(b: u64) -> bool {
    exponent_bits(b) == 0x7ff && fraction_bits(b) != 0
}

/// The quiet-NaN pattern used as the "absent ordinate" sentinel.
pub const NAN_BITS: u64 = 0x7ff8_0000_0000_0000;

/// Tests whether a bit pattern denotes NaN.
pub fn nan_bits(b: u64) -> (r: bool)
    ensures
        r == is_nan(b),
{
    ((b >> 52) & 0x7ff) == 0x7ff && (b & 0x000f_ffff_ffff_ffff) != 0
}

/// The sentinel itself denotes NaN.
pub proof fn lemma_nan_sentinel_is_nan()
    ensures
        is_nan(NAN_BITS),
{
    assert(exponent_bits(NAN_BITS) == 0x7ff && fraction_bits(NAN_BITS) != 0) by (bit_vector);
}

/// Magnitude (everything but the sign bit) of a pattern.
pub open spec fn magnitude_bits(b: u64) -> u64 {
    b & 0x7fff_ffff_ffff_ffff
}

/// Sign bit of a pattern, as a boolean.
pub open spec fn sign_of(b: u64) -> bool {
    (b >> 63) == 1
}

/// The IEEE-754 "less than or equal" on two non-NaN patterns: both zeros
/// compare equal whatever their signs; otherwise opposite signs order by
/// sign, and equal signs order by magnitude, reversed for negatives. NaN
/// compares false against everything.
pub open spec fn f_le(a: u64, b: u64) -> bool {
    if is_nan(a) || is_nan(b) {
        false
    } else if magnitude_bits(a) == 0 && magnitude_bits(b) == 0 {
        true
    } else if sign_of(a) != sign_of(b) {
        sign_of(a)
    } else if !sign_of(a) {
        a <= b
    } else {
        b <= a
    }
}

/// Comparison of two patterns as the values they denote.
pub fn le_bits(a: u64, b: u64) -> (r: bool)
    ensures
        r == f_le(a, b),
{
    if nan_bits(a) || nan_bits(b) {
        false
    } else if (a & 0x7fff_ffff_ffff_ffff) == 0 && (b & 0x7fff_ffff_ffff_ffff) == 0 {
        true
    } else if ((a >> 63) == 1) != ((b >> 63) == 1) {
        (a >> 63) == 1
    } else if !((a >> 63) == 1) {
        a <= b
    } else {
        b <= a
    }
}

/// The smaller of two non-NaN values.
pub open spec fn f_min(a: u64, b: u64) -> u64 {
    if f_le(a, b) {
        a
    } else {
        b
    }
}

/// The larger of two non-NaN values.
pub open spec fn f_max(a: u64, b: u64) -> u64 {
    if f_le(a, b) {
        b
    } else {
        a
    }
}

pub fn min_bits(a: u64, b: u64) -> (r: u64)
    ensures
        r == f_min(a, b),
{
    if le_bits(a, b) {
        a
    } else {
        b
    }
}

pub fn max_bits(a: u64, b: u64) -> (r: u64)
    ensures
        r == f_max(a, b),
{
    if le_bits(a, b) {
        b
    } else {
        a
    }
}

} // verus!
