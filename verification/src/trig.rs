//! Fixed-point circular functions. Sine and cosine use the classical
//! rational approximation of the sine on a half turn; the arc tangent uses a
//! quadratic correction of the linear ramp on the first octant. Each
//! function's contract names its exact integer value, so everything built on
//! top of them is a deterministic function of its inputs. At the axes the
//! values are exact: `sin 0 = sin pi = 0`, `sin (pi/2) = 1`, `atan2` of a
//! point on the positive x axis is `0`.

use vstd::prelude::*;
use crate::fixed::{ARENA_FX, HALF_PI_FX, MICRO, PI_FX, TWO_PI_FX, lemma_div_le_bound, wrap_two_pi};

verus! {

/// An eighth of a turn, in micro-radians: half of `HALF_PI_FX`.
pub const QUARTER_PI_FX: i64 = 785_398;

/// Weight of the quadratic correction term of the arc tangent ramp
/// (`0.273` in micro-units).
pub const ATAN_K: i64 = 273_000;

/// The sine on `[0, PI_FX]`, in micro-units: the rational approximation
/// `16 x (pi - x) / (5 pi^2 - 4 x (pi - x))`, scaled by `MICRO`.
pub open spec fn spec_sin_half(x: int) -> int {
    (16 * (x * (PI_FX - x)) * MICRO) / (5 * PI_FX * PI_FX - 4 * (x * (PI_FX - x)))
}

/// The sine on a full turn `[0, TWO_PI_FX)`, in micro-units.
pub open spec fn spec_sin(a: int) -> int {
    if a <= PI_FX {
        spec_sin_half(a)
    } else {
        -spec_sin_half(a - PI_FX)
    }
}

/// The cosine on a full turn `[0, TWO_PI_FX)`: the sine a quarter turn ahead.
pub open spec fn spec_cos(a: int) -> int {
    spec_sin((a + HALF_PI_FX) % (TWO_PI_FX as int))
}

/// The arc tangent of `z / MICRO` for `z` in `[0, MICRO]`, in micro-radians:
/// a linear ramp to `pi/4` plus a quadratic correction that vanishes at both
/// ends of the octant.
pub open spec fn spec_atan_unit(z: int) -> int {
    (QUARTER_PI_FX * z * MICRO + ATAN_K * z * (MICRO - z)) / (MICRO * MICRO)
}

/// The angle of the ray from the origin through `(x, y)`, in `[0, TWO_PI_FX)`.
/// The degenerate ray through the origin itself is given angle `0`.
pub open spec fn spec_atan2(y: int, x: int) -> int {
    if y == 0 && x == 0 {
        0
    } else {
        let ax = if x < 0 { -x } else { x };
        let ay = if y < 0 { -y } else { y };
        let t = if ax >= ay {
            spec_atan_unit((ay * MICRO) / ax)
        } else {
            HALF_PI_FX - spec_atan_unit((ax * MICRO) / ay)
        };
        if x >= 0 && y >= 0 {
            t
        } else if x < 0 && y >= 0 {
            PI_FX - t
        } else if x < 0 {
            PI_FX + t
        } else {
            (TWO_PI_FX - t) % (TWO_PI_FX as int)
        }
    }
}

/// The product `x * (PI_FX - x)` of the sine formula stays within a quarter
/// of `PI_FX` squared.
proof fn lemma_sin_parabola_range(x: int)
    requires
        0 <= x <= PI_FX,
    ensures
        0 <= x * (PI_FX - x),
        4 * (x * (PI_FX - x)) <= 9_869_600_294_464,
{
    assert(0 <= x * (PI_FX - x) && 4 * (x * (PI_FX - x)) <= 9_869_600_294_464)
        by (nonlinear_arith)
        requires
            0 <= x <= PI_FX,
            PI_FX == 3_141_592,
    ;
}

/// The sine of the first half turn stays within one unit of either sign.
proof fn lemma_sin_half_range(x: int)
    requires
        0 <= x <= PI_FX,
    ensures
        0 <= spec_sin_half(x) <= MICRO,
{
    let p = x * (PI_FX - x);
    lemma_sin_parabola_range(x);
    assert(16 * p * MICRO <= (5 * PI_FX * PI_FX - 4 * p) * MICRO) by (nonlinear_arith)
        requires
            0 <= p,
            4 * p <= 9_869_600_294_464,
            PI_FX == 3_141_592,
            MICRO == 1_000_000,
    ;
    lemma_div_le_bound(16 * p * MICRO, 5 * PI_FX * PI_FX - 4 * p, MICRO as int);
}

/// Computes `spec_sin_half` on `[0, PI_FX]`.
fn sin_half(x: i64) -> (r: i64)
    requires
        0 <= x <= PI_FX,
    ensures
        r == spec_sin_half(x as int),
        0 <= r <= MICRO,
{
    proof {
        lemma_sin_parabola_range(x as int);
        lemma_sin_half_range(x as int);
    }
    let p: i64 = x * (PI_FX - x);
    proof {
        assert(16 * (p as int) * MICRO == 16 * ((x as int) * (PI_FX - x)) * MICRO)
            by (nonlinear_arith)
            requires
                p == (x as int) * (PI_FX - x),
        ;
    }
    let num: u128 = 16 * (p as u128) * (MICRO as u128);
    let den: u128 = 5 * (PI_FX as u128) * (PI_FX as u128) - 4 * (p as u128);
    (num / den) as i64
}

/// Computes `spec_sin` on a full turn; the result is in `[-MICRO, MICRO]`.
pub fn sin_fx(a: i64) -> (r: i64)
    requires
        0 <= a < TWO_PI_FX,
    ensures
        r == spec_sin(a as int),
        -MICRO <= r <= MICRO,
{
    if a <= PI_FX {
        sin_half(a)
    } else {
        -sin_half(a - PI_FX)
    }
}

/// Computes `spec_cos` on a full turn; the result is in `[-MICRO, MICRO]`.
pub fn cos_fx(a: i64) -> (r: i64)
    requires
        0 <= a < TWO_PI_FX,
    ensures
        r == spec_cos(a as int),
        -MICRO <= r <= MICRO,
{
    let b = wrap_two_pi(a + HALF_PI_FX);
    sin_fx(b)
}

/// The arc tangent on the first octant lies between `0` and a quarter of pi.
proof fn lemma_atan_unit_range(z: int)
    requires
        0 <= z <= MICRO,
    ensures
        0 <= QUARTER_PI_FX * z * MICRO + ATAN_K * z * (MICRO - z),
        QUARTER_PI_FX * z * MICRO + ATAN_K * z * (MICRO - z) <= (MICRO * MICRO)
            * QUARTER_PI_FX,
        0 <= spec_atan_unit(z) <= QUARTER_PI_FX,
{
    assert(0 <= QUARTER_PI_FX * z * MICRO + ATAN_K * z * (MICRO - z) <= (MICRO * MICRO)
        * QUARTER_PI_FX) by (nonlinear_arith)
        requires
            0 <= z <= MICRO,
            MICRO == 1_000_000,
            QUARTER_PI_FX == 785_398,
            ATAN_K == 273_000,
    ;
    lemma_div_le_bound(
        QUARTER_PI_FX * z * MICRO + ATAN_K * z * (MICRO - z),
        MICRO * MICRO,
        QUARTER_PI_FX as int,
    );
}

/// Computes `spec_atan_unit` on `[0, MICRO]`.
fn atan_unit(z: i64) -> (r: i64)
    requires
        0 <= z <= MICRO,
    ensures
        r == spec_atan_unit(z as int),
        0 <= r <= QUARTER_PI_FX,
{
    proof {
        lemma_atan_unit_range(z as int);
        assert((ATAN_K as int) * z <= 273_000_000_000 && ((ATAN_K as int) * z) * (MICRO - z)
            <= 273_000_000_000_000_000) by (nonlinear_arith)
            requires
                0 <= z <= MICRO,
                MICRO == 1_000_000,
                ATAN_K == 273_000,
        ;
    }
    let ramp: u128 = (QUARTER_PI_FX as u128) * (z as u128) * (MICRO as u128);
    let bend: u128 = ((ATAN_K as u128) * (z as u128)) * ((MICRO - z) as u128);
    let den: u128 = (MICRO as u128) * (MICRO as u128);
    ((ramp + bend) / den) as i64
}

/// Computes `spec_atan2` for a point of the arena-sized square around the
/// origin; the result is an angle of `[0, TWO_PI_FX)`, and a point on the
/// positive `x` axis gets angle `0` exactly.
pub fn atan2_fx(y: i64, x: i64) -> (r: i64)
    requires
        -ARENA_FX <= y <= ARENA_FX,
        -ARENA_FX <= x <= ARENA_FX,
    ensures
        r == spec_atan2(y as int, x as int),
        0 <= r < TWO_PI_FX,
        y == 0 && x >= 0 ==> r == 0,
{
    if y == 0 && x == 0 {
        return 0;
    }
    let ax: i64 = if x < 0 { -x } else { x };
    let ay: i64 = if y < 0 { -y } else { y };
    let t: i64 = if ax >= ay {
        let z: i64 = {
            proof {
                lemma_div_le_bound((ay as int) * MICRO, ax as int, MICRO as int);
            }
            (((ay as u128) * (MICRO as u128)) / (ax as u128)) as i64
        };
        atan_unit(z)
    } else {
        let z: i64 = {
            proof {
                lemma_div_le_bound((ax as int) * MICRO, ay as int, MICRO as int);
            }
            (((ax as u128) * (MICRO as u128)) / (ay as u128)) as i64
        };
        HALF_PI_FX - atan_unit(z)
    };
    if x >= 0 && y >= 0 {
        t
    } else if x < 0 && y >= 0 {
        PI_FX - t
    } else if x < 0 {
        PI_FX + t
    } else {
        proof {
            if t != 0 {
                vstd::arithmetic::div_mod::lemma_small_mod(
                    (TWO_PI_FX - t) as nat,
                    TWO_PI_FX as nat,
                );
            } else {
                vstd::arithmetic::div_mod::lemma_mod_self_0(TWO_PI_FX as int);
            }
        }
        if t == 0 {
            0
        } else {
            TWO_PI_FX - t
        }
    }
}

} // verus!
