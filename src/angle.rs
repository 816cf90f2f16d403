//! Angle arithmetic on fixed-point angles.
//!
//! Every angle in this crate is an integer number of hundredths of a degree
//! (so `8980` is 89.8 degrees). Yaw is periodic with a full turn of `36000`;
//! pitch is not wrapped.
use vstd::arithmetic::div_mod::{lemma_mod_multiples_vanish, lemma_fundamental_div_mod};
use vstd::prelude::*;

verus! {

/// One full turn, in hundredths of a degree.
pub const FULL_TURN: i64 = 36000;

/// Half a turn, in hundredths of a degree.
pub const HALF_TURN: i64 = 18000;

/// Absolute value over the integers.
pub open spec fn abs(x: int) -> int {
    if x < 0 {
        -x
    } else {
        x
    }
}

/// The signed shortest displacement equivalent to `d` modulo a full turn,
/// in the half-open range `(-HALF_TURN, HALF_TURN]`.
pub open spec fn wrap_delta(d: int) -> int {
    let m = d % 36000;
    if m > 18000 {
        m - 36000
    } else {
        m
    }
}

/// The yaw displacement from `previous` to `current`.
pub open spec fn yaw_delta_of(current: int, previous: int) -> int {
    wrap_delta(current - previous)
}

/// Signed shortest angular displacement from `previous` to `current` yaw.
pub fn yaw_delta(current: i32, previous: i32) -> (r: i32)
    ensures
        r == yaw_delta_of(current as int, previous as int),
{
    let diff: i64 = current as i64 - previous as i64;
    // A multiple of a full turn large enough to make any difference of two
    // `i32` values non-negative.
    let shifted: u64 = (diff + 120000 * FULL_TURN) as u64;
    let m: u64 = shifted % 36000;
    proof {
        lemma_mod_multiples_vanish(120000, diff as int, 36000);
    }
    if m > 18000 {
        (m as i64 - FULL_TURN) as i32
    } else {
        m as i32
    }
}

/// Pitch displacement from `previous` to `current`: plain subtraction.
pub fn pitch_delta(current: i32, previous: i32) -> (r: i64)
    ensures
        r == current - previous,
{
    current as i64 - previous as i64
}

/// The yaw displacement lies in `(-HALF_TURN, HALF_TURN]` and differs from
/// the plain difference `current - previous` by a whole number of turns.
pub proof fn lemma_yaw_delta_wraps(current: int, previous: int)
    ensures
        -18000 < yaw_delta_of(current, previous) <= 18000,
        (current - previous - yaw_delta_of(current, previous)) % 36000 == 0,
{
    let d = current - previous;
    let m = d % 36000;
    lemma_fundamental_div_mod(d, 36000);
    assert(0 <= m < 36000);
    let q = d / 36000;
    if m > 18000 {
        assert(d - (m - 36000) == 36000 * (q + 1));
        lemma_mod_multiples_vanish(q + 1, 0, 36000);
    } else {
        assert(d - m == 36000 * q);
        lemma_mod_multiples_vanish(q, 0, 36000);
    }
}

/// Floor of the square root: the largest `r` with `r * r <= n`.
pub fn isqrt(n: u128) -> (r: u64)
    ensures
        r * r <= n < (r + 1) * (r + 1),
{
    let mut lo: u128 = 0;
    let mut hi: u128 = 0x1_0000_0000_0000_0000;
    assert(n < (hi as int) * (hi as int)) by (nonlinear_arith)
        requires
            hi == 0x1_0000_0000_0000_0000,
            n <= 0xFFFF_FFFF_FFFF_FFFF_FFFF_FFFF_FFFF_FFFF,
    ;
    while hi - lo > 1
        invariant
            lo < hi <= 0x1_0000_0000_0000_0000,
            (lo as int) * (lo as int) <= n,
            n < (hi as int) * (hi as int),
        decreases hi - lo,
    {
        let mid: u128 = lo + (hi - lo) / 2;
        assert((mid as int) * (mid as int) < 0x1_0000_0000_0000_0000_0000_0000_0000_0000) by (nonlinear_arith)
            requires
                0 <= mid < 0x1_0000_0000_0000_0000,
        ;
        let sq: u128 = mid * mid;
        if sq <= n {
            lo = mid;
        } else {
            hi = mid;
        }
    }
    assert(hi == lo + 1);
    lo as u64
}

} // verus!
