//! Q16.16 fixed-point arithmetic on signed 32-bit integers.

use vstd::prelude::*;

verus! {

/// A Q16.16 fixed-point number: a signed 32-bit integer read as `value / 65536`.
pub type Fixed = i32;

/// Number of fractional bits of a [`Fixed`].
pub const FRACTIONAL_BITS: i32 = 16;

/// The fixed-point representation of `1.0`.
pub const SCALE: Fixed = 65536;

/// The integer in `i32` range that is congruent to `x` modulo `2^32`.
pub open spec fn wrap_i32(x: int) -> int {
    (x + 0x8000_0000) % 0x1_0000_0000 - 0x8000_0000
}

/// Model of the Q16.16 product: the exact product, divided by `2^16` rounding
/// toward negative infinity, then wrapped into 32 bits.
pub open spec fn fixed_mul_spec(a: int, b: int) -> int {
    wrap_i32((a * b) / 65536)
}

/// Model of 32-bit saturation: `x` clamped into the `i32` range.
pub open spec fn saturate_i32(x: int) -> int {
    if x > i32::MAX {
        i32::MAX as int
    } else if x < i32::MIN {
        i32::MIN as int
    } else {
        x
    }
}

/// Model of saturating addition.
pub open spec fn add_sat_spec(a: int, b: int) -> int {
    saturate_i32(a + b)
}

/// Model of saturating subtraction.
pub open spec fn sub_sat_spec(a: int, b: int) -> int {
    saturate_i32(a - b)
}

/// Multiplies two fixed-point numbers through a 64-bit intermediate.
/// The narrowing to 32 bits wraps.
pub fn fixed_mul(a: Fixed, b: Fixed) -> (r: Fixed)
    ensures
        r == fixed_mul_spec(a as int, b as int),
{
    assert(-0x4000_0000_0000_0000 <= (a as int) * (b as int) <= 0x4000_0000_0000_0000)
        by (nonlinear_arith)
        requires
            -0x8000_0000 <= a <= 0x7fff_ffff,
            -0x8000_0000 <= b <= 0x7fff_ffff,
    ;
    let p: i64 = (a as i64) * (b as i64);
    let q: i64 = p >> 16;
    assert(q == p / 65536) by (bit_vector)
        requires
            q == p >> 16,
    ;
    let r: i32 = #[verifier::truncate] (q as i32);
    assert(r == wrap_i32(q as int)) by (bit_vector)
        requires
            r == q as i32,
    ;
    r
}

/// Adds two fixed-point numbers, saturating at the bounds of `i32`.
pub fn add_sat(a: Fixed, b: Fixed) -> (r: Fixed)
    ensures
        r == add_sat_spec(a as int, b as int),
{
    let s: i64 = a as i64 + b as i64;
    if s > i32::MAX as i64 {
        i32::MAX
    } else if s < i32::MIN as i64 {
        i32::MIN
    } else {
        s as i32
    }
}

/// Subtracts `b` from `a`, saturating at the bounds of `i32`.
pub fn sub_sat(a: Fixed, b: Fixed) -> (r: Fixed)
    ensures
        r == sub_sat_spec(a as int, b as int),
{
    let s: i64 = a as i64 - b as i64;
    if s > i32::MAX as i64 {
        i32::MAX
    } else if s < i32::MIN as i64 {
        i32::MIN
    } else {
        s as i32
    }
}

/// A product with zero is zero.
pub proof fn lemma_fixed_mul_zero(b: int)
    ensures
        fixed_mul_spec(0, b) == 0,
        fixed_mul_spec(b, 0) == 0,
{
    assert(0 * b == 0) by (nonlinear_arith);
    assert(b * 0 == 0) by (nonlinear_arith);
}

/// Scaling a non-negative value by a factor between `0.0` and `1.0` neither
/// wraps nor grows it: the product lies between zero and the value.
pub proof fn lemma_fixed_mul_shrinks(t: int, alpha: int)
    requires
        0 <= t <= i32::MAX,
        0 <= alpha <= SCALE,
    ensures
        0 <= fixed_mul_spec(t, alpha) <= t,
        fixed_mul_spec(t, alpha) == (t * alpha) / 65536,
        fixed_mul_spec(alpha, t) == fixed_mul_spec(t, alpha),
{
    assert(0 <= t * alpha <= t * 65536) by (nonlinear_arith)
        requires
            0 <= t,
            0 <= alpha <= 65536,
    ;
    assert(alpha * t == t * alpha) by (nonlinear_arith);
}

} // verus!
