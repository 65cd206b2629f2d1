//! Fixed-point arithmetic for grid geometry.
//!
//! Coordinates are tile units scaled by [`SCALE`], held in `i64`. A value
//! `c` stands for the fractional tile coordinate `c / SCALE`; tile column
//! and row numbers are floors of such values. Binary angles are `u32`
//! fractions of a full turn, so quarter turns are exact.

use vstd::prelude::*;

verus! {

/// Number of fixed-point units per tile.
pub const SCALE: i64 = 65536;

/// One full turn of a binary angle (`u32` range).
pub const FULL_TURN: u64 = 0x1_0000_0000;

/// A quarter turn as a binary angle.
pub const QUARTER_TURN: u32 = 0x4000_0000;

/// A half turn as a binary angle.
pub const HALF_TURN: u32 = 0x8000_0000;

/// Largest coordinate magnitude the distance helpers accept; traversal
/// coordinates stay far below this.
pub const COORD_LIMIT: i64 = 0x4_0000_0000_0000;

/// Absolute value of a mathematical integer.
pub open spec fn abs_i(a: int) -> int {
    if a >= 0 {
        a
    } else {
        -a
    }
}

/// Truncating division (rounding toward zero), the rounding that the
/// executable fixed-point helpers use.
pub open spec fn div_trunc_spec(a: int, b: int) -> int {
    if (a >= 0) == (b >= 0) {
        abs_i(a) / abs_i(b)
    } else {
        -(abs_i(a) / abs_i(b))
    }
}

/// The tile number containing fixed-point coordinate `c` (floor).
pub open spec fn tile_of(c: int) -> int {
    c / (SCALE as int)
}

/// Whether fixed-point coordinate `c` lies exactly on a grid line.
pub open spec fn on_line(c: int) -> bool {
    c % (SCALE as int) == 0
}

/// The smallest tile number whose grid line is at or above coordinate `c`
/// (ceiling of `c / SCALE`).
pub open spec fn ceil_tile_spec(c: int) -> int {
    if on_line(c) {
        tile_of(c)
    } else {
        tile_of(c) + 1
    }
}

/// A binary angle reduced to the `u32` range.
pub open spec fn wrap32(a: int) -> int {
    a % (FULL_TURN as int)
}

/// Division of `a` by `b`, rounded toward zero as Rust's `/` rounds.
pub fn div_trunc(a: i64, b: i64) -> (r: i64)
    requires
        b != 0,
        a > i64::MIN,
        b > i64::MIN,
    ensures
        r == div_trunc_spec(a as int, b as int),
        abs_i(r as int) <= abs_i(a as int),
{
    let ma: u64 = if a < 0 {
        (-a) as u64
    } else {
        a as u64
    };
    let mb: u64 = if b < 0 {
        (-b) as u64
    } else {
        b as u64
    };
    let q: u64 = ma / mb;
    proof {
        assert(ma == abs_i(a as int));
        assert(mb == abs_i(b as int));
        vstd::arithmetic::div_mod::lemma_div_nonincreasing(ma as int, mb as int);
        vstd::arithmetic::div_mod::lemma_div_pos_is_pos(ma as int, mb as int);
    }
    if (a < 0) == (b < 0) {
        q as i64
    } else {
        -(q as i64)
    }
}

/// The floor of `c / SCALE`: the tile number containing coordinate `c`.
pub fn floor_tile(c: i64) -> (r: i64)
    requires
        c > i64::MIN,
    ensures
        r == tile_of(c as int),
{
    if c >= 0 {
        let q: u64 = (c as u64) / 65536;
        q as i64
    } else {
        let m: u64 = (-c) as u64;
        let q: u64 = m / 65536;
        let rem: u64 = m % 65536;
        if rem == 0 {
            proof {
                assert(c == (-(q as int)) * 65536 + 0) by {
                    vstd::arithmetic::div_mod::lemma_fundamental_div_mod(m as int, 65536);
                }
                vstd::arithmetic::div_mod::lemma_fundamental_div_mod_converse(
                    c as int,
                    65536,
                    -(q as int),
                    0,
                );
            }
            -(q as i64)
        } else {
            proof {
                assert(c == (-(q as int) - 1) * 65536 + (65536 - rem)) by {
                    vstd::arithmetic::div_mod::lemma_fundamental_div_mod(m as int, 65536);
                }
                vstd::arithmetic::div_mod::lemma_fundamental_div_mod_converse(
                    c as int,
                    65536,
                    -(q as int) - 1,
                    65536 - rem as int,
                );
            }
            -(q as i64) - 1
        }
    }
}

/// Whether coordinate `c` lies exactly on a grid line.
pub fn is_on_line(c: i64) -> (r: bool)
    requires
        c > i64::MIN,
    ensures
        r == on_line(c as int),
{
    let t = floor_tile(c);
    proof {
        vstd::arithmetic::div_mod::lemma_fundamental_div_mod(c as int, 65536);
        vstd::arithmetic::div_mod::lemma_mod_bound(c as int, 65536);
    }
    c == t * 65536
}

/// The ceiling of `c / SCALE`.
pub fn ceil_tile(c: i64) -> (r: i64)
    requires
        c > i64::MIN,
        c < i64::MAX - 65536,
    ensures
        r == ceil_tile_spec(c as int),
{
    let t = floor_tile(c);
    if is_on_line(c) {
        t
    } else {
        proof {
            vstd::arithmetic::div_mod::lemma_fundamental_div_mod(c as int, 65536);
            vstd::arithmetic::div_mod::lemma_mod_bound(c as int, 65536);
        }
        t + 1
    }
}

/// Binary-angle addition: `a + b` wrapped to a full turn.
pub fn wrap_add32(a: u32, b: u32) -> (r: u32)
    ensures
        r == wrap32(a + b),
{
    let s: u64 = a as u64 + b as u64;
    let w: u64 = s % 0x1_0000_0000;
    proof {
        vstd::arithmetic::div_mod::lemma_mod_bound(s as int, FULL_TURN as int);
    }
    w as u32
}

/// Binary-angle addition of a wide increment, wrapped to a full turn.
pub fn wrap_add_wide(a: u32, b: u64) -> (r: u32)
    requires
        b <= u64::MAX - u32::MAX,
    ensures
        r == wrap32(a + b),
{
    let s: u64 = a as u64 + b;
    let w: u64 = s % 0x1_0000_0000;
    proof {
        vstd::arithmetic::div_mod::lemma_mod_bound(s as int, FULL_TURN as int);
    }
    w as u32
}

/// Adding a full turn to the increment does not change the wrapped
/// binary angle.
pub proof fn lemma_wrap32_shift(v: int, w_plus: int, w: int)
    requires
        w_plus == w + 0x1_0000_0000,
    ensures
        wrap32(v + w_plus) == wrap32(v + w),
{
    vstd::arithmetic::div_mod::lemma_mod_add_multiples_vanish(v + w, 0x1_0000_0000);
}

/// Wrapping the first operand before adding does not change the wrapped
/// binary angle.
pub proof fn lemma_wrap32_add(v: int, w: int)
    ensures
        wrap32(wrap32(v) + w) == wrap32(v + w),
{
    vstd::arithmetic::div_mod::lemma_mod_twice(v, 0x1_0000_0000);
    vstd::arithmetic::div_mod::lemma_add_mod_noop(wrap32(v), w, 0x1_0000_0000);
    vstd::arithmetic::div_mod::lemma_add_mod_noop(v, w, 0x1_0000_0000);
}

/// Whether `r` is the integer square root of `n`.
pub open spec fn is_sqrt(n: int, r: int) -> bool {
    0 <= r && r * r <= n && n < (r + 1) * (r + 1)
}

/// The integer square root of a non-negative integer.
pub open spec fn sqrt_of(n: int) -> int {
    choose|r: int| is_sqrt(n, r)
}

/// Two integer square roots of the same number are equal.
pub proof fn lemma_sqrt_unique(n: int, r1: int, r2: int)
    requires
        is_sqrt(n, r1),
        is_sqrt(n, r2),
    ensures
        r1 == r2,
{
    assert(r1 == r2) by (nonlinear_arith)
        requires
            0 <= r1 && r1 * r1 <= n && n < (r1 + 1) * (r1 + 1),
            0 <= r2 && r2 * r2 <= n && n < (r2 + 1) * (r2 + 1),
    ;
}

/// The integer square root, by bisection.
pub fn isqrt(n: u128) -> (r: u64)
    requires
        n < 0x4000_0000_0000_0000_0000_0000_0000_0000u128,
    ensures
        is_sqrt(n as int, r as int),
        r == sqrt_of(n as int),
{
    let mut lo: u128 = 0;
    let mut hi: u128 = 0x8000_0000_0000_0000;
    while lo + 1 < hi
        invariant
            lo < hi <= 0x8000_0000_0000_0000,
            lo * lo <= n,
            hi * hi > n,
        decreases hi - lo,
    {
        let mid: u128 = lo + (hi - lo) / 2;
        proof {
            assert(lo < mid < hi);
            assert(mid * mid < 0x4000_0000_0000_0000_0000_0000_0000_0000u128) by (nonlinear_arith)
                requires
                    mid < 0x8000_0000_0000_0000u128,
            ;
        }
        if mid * mid <= n {
            lo = mid;
        } else {
            hi = mid;
        }
    }
    proof {
        assert((lo + 1) * (lo + 1) > n) by (nonlinear_arith)
            requires
                lo + 1 >= hi,
                lo < hi,
                hi * hi > n,
                0 <= n,
        ;
        assert(lo * lo <= n);
        assert(lo < 0x1_0000_0000_0000_0000u128) by (nonlinear_arith)
            requires
                lo * lo <= n,
                n < 0x4000_0000_0000_0000_0000_0000_0000_0000u128,
                lo <= 0x8000_0000_0000_0000u128,
        ;
        assert(is_sqrt(n as int, lo as int));
        lemma_sqrt_unique(n as int, lo as int, sqrt_of(n as int));
    }
    lo as u64
}

} // verus!
