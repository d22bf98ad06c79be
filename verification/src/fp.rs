//! Arithmetic on binary64 bit patterns.
//!
//! The library never holds a floating-point value: every ordinate travels
//! as its 64-bit pattern. The one trusted arithmetic primitive is the fused
//! multiply-add of the software math library, which is deterministic;
//! addition, subtraction, multiplication and the degree conversions are
//! defined from it in verified code. The trigonometric functions of the
//! same library are deterministic too, so their results carry names.

use vstd::prelude::*;
use crate::bits::{is_nan, nan_bits};

verus! {

/// Sign bit of a binary64 pattern.
pub const SIGN_BIT: u64 = 0x8000_0000_0000_0000;

/// Pattern of the value one.
pub const ONE_BITS: u64 = 0x3ff0_0000_0000_0000;

/// Pattern of the value minus one.
pub const NEG_ONE_BITS: u64 = 0xbff0_0000_0000_0000;

/// Pattern of the value one half.
pub const HALF_BITS: u64 = 0x3fe0_0000_0000_0000;

/// Pattern of the radians in one degree.
pub const RAD_PER_DEG_BITS: u64 = 0x3f91_df46_a252_9d39;

/// Pattern of the degrees in one radian.
pub const DEG_PER_RAD_BITS: u64 = 0x404c_a5dc_1a63_c1f8;

/// What the fused multiply-add returns: round(a * b + c), one rounding.
pub uninterp spec fn fma3_bits(a: u64, b: u64, c: u64) -> u64;

/// What the software sine returns, on the pattern of a radian angle.
pub uninterp spec fn sin_bits(x: u64) -> u64;

/// What the software cosine returns.
pub uninterp spec fn cos_bits(x: u64) -> u64;

/// What the software tangent returns.
pub uninterp spec fn tan_bits(x: u64) -> u64;

/// What the floating remainder returns: x - n*y for the integral n that
/// leaves |r| < |y| with the sign of x; exact, so a function of the bits.
pub uninterp spec fn fmod_bits(x: u64, y: u64) -> u64;

/// Relies on `libm::fma`: the fused multiply-add `round(a * b + c)` with a
/// single rounding, computed in software, so the result's pattern is a
/// function of the operands' patterns on every machine.
#[verifier::external_body]
fn fma3(a: u64, b: u64, c: u64) -> (r: u64)
    ensures
        r == fma3_bits(a, b, c),
{
    bytemuck::cast(libm::fma(bytemuck::cast(a), bytemuck::cast(b), bytemuck::cast(c)))
}

/// Relies on `libm::fmod`: the exact floating remainder, which IEEE-754
/// defines with no rounding at all, so deterministic.
#[verifier::external_body]
fn fmod_raw(x: u64, y: u64) -> (r: u64)
    ensures
        r == fmod_bits(x, y),
{
    bytemuck::cast(libm::fmod(bytemuck::cast(x), bytemuck::cast(y)))
}

/// Relies on `libm::sin`, computed in software, so deterministic.
#[verifier::external_body]
fn sin_raw(x: u64) -> (r: u64)
    ensures
        r == sin_bits(x),
{
    bytemuck::cast(libm::sin(bytemuck::cast(x)))
}

/// Relies on `libm::cos`, computed in software, so deterministic.
#[verifier::external_body]
fn cos_raw(x: u64) -> (r: u64)
    ensures
        r == cos_bits(x),
{
    bytemuck::cast(libm::cos(bytemuck::cast(x)))
}

/// Relies on `libm::tan`, computed in software, so deterministic.
#[verifier::external_body]
fn tan_raw(x: u64) -> (r: u64)
    ensures
        r == tan_bits(x),
{
    bytemuck::cast(libm::tan(bytemuck::cast(x)))
}

/// Sum of two values: `round(1 * a + b)`, which is the IEEE-754 sum.
pub open spec fn add_bits(a: u64, b: u64) -> u64 {
    fma3_bits(ONE_BITS, a, b)
}

/// Difference of two values: `round(-1 * b + a)`, which is the IEEE-754
/// difference.
pub open spec fn sub_bits(a: u64, b: u64) -> u64 {
    fma3_bits(NEG_ONE_BITS, b, a)
}

/// Product of two values: `round(a * b + 0)`, with the sign of a zero
/// product restored (adding positive zero would turn a negative zero
/// product positive).
pub open spec fn mul_bits(a: u64, b: u64) -> u64 {
    let r = fma3_bits(a, b, 0);
    if r == 0 && ((a ^ b) >> 63) == 1 && !is_nan(a) && !is_nan(b) {
        SIGN_BIT
    } else {
        r
    }
}

/// Midpoint of two values: their sum halved.
pub open spec fn midpoint_bits(a: u64, b: u64) -> u64 {
    mul_bits(add_bits(a, b), HALF_BITS)
}

/// Degrees turned to radians: one multiplication by a constant, as the
/// standard conversion does it.
pub open spec fn radians_bits(x: u64) -> u64 {
    mul_bits(x, RAD_PER_DEG_BITS)
}

/// Radians turned to degrees.
pub open spec fn degrees_bits(x: u64) -> u64 {
    mul_bits(x, DEG_PER_RAD_BITS)
}

pub fn f_add(a: u64, b: u64) -> (r: u64)
    ensures
        r == add_bits(a, b),
{
    fma3(ONE_BITS, a, b)
}

pub fn f_sub(a: u64, b: u64) -> (r: u64)
    ensures
        r == sub_bits(a, b),
{
    fma3(NEG_ONE_BITS, b, a)
}

pub fn f_mul(a: u64, b: u64) -> (r: u64)
    ensures
        r == mul_bits(a, b),
{
    let r = fma3(a, b, 0);
    if r == 0 && ((a ^ b) >> 63) == 1 && !nan_bits(a) && !nan_bits(b) {
        SIGN_BIT
    } else {
        r
    }
}

pub fn midpoint(a: u64, b: u64) -> (r: u64)
    ensures
        r == midpoint_bits(a, b),
{
    let s = f_add(a, b);
    f_mul(s, HALF_BITS)
}

pub fn to_radians(x: u64) -> (r: u64)
    ensures
        r == radians_bits(x),
{
    f_mul(x, RAD_PER_DEG_BITS)
}

pub fn to_degrees(x: u64) -> (r: u64)
    ensures
        r == degrees_bits(x),
{
    f_mul(x, DEG_PER_RAD_BITS)
}

pub fn f_mod(x: u64, y: u64) -> (r: u64)
    ensures
        r == fmod_bits(x, y),
{
    fmod_raw(x, y)
}

pub fn sin(x: u64) -> (r: u64)
    ensures
        r == sin_bits(x),
{
    sin_raw(x)
}

pub fn cos(x: u64) -> (r: u64)
    ensures
        r == cos_bits(x),
{
    cos_raw(x)
}

pub fn tan(x: u64) -> (r: u64)
    ensures
        r == tan_bits(x),
{
    tan_raw(x)
}

/// Sign flip: exact on every value, a pure bit operation.
pub open spec fn neg_bits(x: u64) -> u64 {
    x ^ SIGN_BIT
}

pub fn neg(x: u64) -> (r: u64)
    ensures
        r == neg_bits(x),
{
    x ^ SIGN_BIT
}

} // verus!
