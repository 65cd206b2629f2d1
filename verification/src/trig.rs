//! Fixed-point sine and cosine over binary angles.
//!
//! An angle is a `u32` fraction of a full turn, so the four axis-aligned
//! directions are exact. Within a half turn the sine is the classical
//! rational approximation `16 s (1 - s) / (5 - 4 s (1 - s))` of
//! `sin(pi * s)`, evaluated in integer arithmetic and scaled by
//! [`crate::fixed::SCALE`]. It is exact at every quarter turn, bounded by
//! one in magnitude, and symmetric about the quarter turn, which is all
//! the traversal relies on.

use vstd::prelude::*;

use crate::fixed::{wrap32, wrap_add32, QUARTER_TURN};

verus! {

/// The approximated sine over the first half turn, scaled by `SCALE`.
/// `h` counts binary-angle units, `0 ..= HALF_TURN`.
pub open spec fn sin_half_fp(h: int) -> int {
    let u = (h * (0x8000_0000 - h)) / 0x8000_0000;
    (1048576 * u) / (0x2_8000_0000 - 4 * u)
}

/// The approximated sine of binary angle `a`, scaled by `SCALE`.
pub open spec fn sin_fp(a: int) -> int {
    if a < 0x8000_0000 {
        sin_half_fp(a)
    } else {
        -sin_half_fp(a - 0x8000_0000)
    }
}

/// The approximated cosine of binary angle `a`, scaled by `SCALE`:
/// the sine a quarter turn ahead.
pub open spec fn cos_fp(a: int) -> int {
    sin_fp(wrap32(a + 0x4000_0000))
}

/// The half-turn sine is between 0 and `SCALE`, and its intermediate
/// product stays in bounds.
pub proof fn lemma_sin_half_bounds(h: int)
    requires
        0 <= h <= 0x8000_0000,
    ensures
        0 <= sin_half_fp(h) <= 65536,
        0 <= h * (0x8000_0000 - h) <= 0x1000_0000_0000_0000,
        0 <= (h * (0x8000_0000 - h)) / 0x8000_0000 <= 0x2000_0000,
{
    assert(0 <= h * (0x8000_0000 - h) <= 0x1000_0000_0000_0000) by (nonlinear_arith)
        requires
            0 <= h <= 0x8000_0000,
    ;
    let p = h * (0x8000_0000 - h);
    let u = p / 0x8000_0000;
    vstd::arithmetic::div_mod::lemma_div_pos_is_pos(p, 0x8000_0000);
    vstd::arithmetic::div_mod::lemma_div_is_ordered(p, 0x1000_0000_0000_0000, 0x8000_0000);
    assert(u <= 0x2000_0000);
    let num = 1048576 * u;
    let den = 0x2_8000_0000 - 4 * u;
    assert(den >= 0x2_0000_0000);
    vstd::arithmetic::div_mod::lemma_div_pos_is_pos(num, den);
    assert(num <= den * 65536) by (nonlinear_arith)
        requires
            0 <= u <= 0x2000_0000,
            num == 1048576 * u,
            den == 0x2_8000_0000 - 4 * u,
    ;
    vstd::arithmetic::div_mod::lemma_multiply_divide_le(num, den, 65536);
}

/// Exact values at the four axis-aligned angles: the sine and cosine of
/// 0, a quarter turn, a half turn and three quarter turns are exactly
/// 0 or plus or minus `SCALE`.
pub proof fn lemma_axis_values()
    ensures
        sin_fp(0) == 0,
        cos_fp(0) == 65536,
        sin_fp(0x4000_0000) == 65536,
        cos_fp(0x4000_0000) == 0,
        sin_fp(0x8000_0000) == 0,
        cos_fp(0x8000_0000) == -65536,
        sin_fp(0xC000_0000) == -65536,
        cos_fp(0xC000_0000) == 0,
{
    assert(0x4000_0000 * (0x8000_0000 - 0x4000_0000) == 0x1000_0000_0000_0000int) by (nonlinear_arith);
    assert(0x1000_0000_0000_0000int / 0x8000_0000 == 0x2000_0000) by {
        vstd::arithmetic::div_mod::lemma_fundamental_div_mod_converse(
            0x1000_0000_0000_0000,
            0x8000_0000,
            0x2000_0000,
            0,
        );
    }
    assert(1048576int * 0x2000_0000 == 0x2_0000_0000_0000int) by (nonlinear_arith);
    assert(0x2_8000_0000int - 4 * 0x2000_0000 == 0x2_0000_0000int);
    assert(0x2_0000_0000_0000int / 0x2_0000_0000 == 65536) by {
        vstd::arithmetic::div_mod::lemma_fundamental_div_mod_converse(
            0x2_0000_0000_0000,
            0x2_0000_0000,
            65536,
            0,
        );
    }
    assert(sin_half_fp(0x4000_0000) == 65536);
    assert(sin_half_fp(0) == 0);
    assert(wrap32(0int + 0x4000_0000) == 0x4000_0000) by {
        vstd::arithmetic::div_mod::lemma_small_mod(0x4000_0000, 0x1_0000_0000);
    }
    assert(wrap32(0x4000_0000int + 0x4000_0000) == 0x8000_0000) by {
        vstd::arithmetic::div_mod::lemma_small_mod(0x8000_0000, 0x1_0000_0000);
    }
    assert(wrap32(0x8000_0000int + 0x4000_0000) == 0xC000_0000) by {
        vstd::arithmetic::div_mod::lemma_small_mod(0xC000_0000, 0x1_0000_0000);
    }
    assert(wrap32(0xC000_0000int + 0x4000_0000) == 0) by {
        vstd::arithmetic::div_mod::lemma_fundamental_div_mod_converse(
            0x1_0000_0000,
            0x1_0000_0000,
            1,
            0,
        );
    }
    assert(sin_half_fp(0x8000_0000 - 0x8000_0000) == 0);
    assert(sin_half_fp(0xC000_0000 - 0x8000_0000) == 65536);
}

/// The half-turn sine is symmetric about the quarter turn.
pub proof fn lemma_sin_half_symmetry(h: int)
    requires
        0 <= h <= 0x8000_0000,
    ensures
        sin_half_fp(h) == sin_half_fp(0x8000_0000 - h),
{
    assert(h * (0x8000_0000 - h) == (0x8000_0000 - h) * (0x8000_0000 - (0x8000_0000 - h)))
        by (nonlinear_arith);
}

/// The fixed-point sine of binary angle `a`.
pub fn sin_fixed(a: u32) -> (r: i64)
    ensures
        r == sin_fp(a as int),
        -65536 <= r <= 65536,
{
    if a < 0x8000_0000 {
        sin_half(a as u64)
    } else {
        let s = sin_half((a - 0x8000_0000) as u64);
        -s
    }
}

/// The fixed-point cosine of binary angle `a`.
pub fn cos_fixed(a: u32) -> (r: i64)
    ensures
        r == cos_fp(a as int),
        -65536 <= r <= 65536,
{
    let b = wrap_add32(a, QUARTER_TURN);
    sin_fixed(b)
}

/// The half-turn sine, evaluated in `u64` arithmetic.
fn sin_half(h: u64) -> (r: i64)
    requires
        h <= 0x8000_0000,
    ensures
        r == sin_half_fp(h as int),
        0 <= r <= 65536,
{
    proof {
        lemma_sin_half_bounds(h as int);
    }
    let p: u64 = h * (0x8000_0000 - h);
    let u: u64 = p / 0x8000_0000;
    let num: u64 = 1048576 * u;
    let den: u64 = 0x2_8000_0000 - 4 * u;
    let r: u64 = num / den;
    r as i64
}

} // verus!
