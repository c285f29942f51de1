//! Fixed-point ground layer: the micro-unit scale, the angle constants, and
//! the small integer tools (clamping, angle wrapping, integer square root)
//! that the rest of the crate builds on.

use vstd::prelude::*;

verus! {

/// One whole unit: `1.0` in micro-units.
pub const MICRO: i64 = 1_000_000;

/// A quarter turn, in micro-radians. The other angle constants are exact
/// multiples of it, so halving and doubling angles stays exact.
pub const HALF_PI_FX: i64 = 1_570_796;

/// Half a turn, in micro-radians.
pub const PI_FX: i64 = 2 * HALF_PI_FX;

/// A full turn, in micro-radians. Angles are kept in `[0, TWO_PI_FX)`.
pub const TWO_PI_FX: i64 = 4 * HALF_PI_FX;

/// Side of the square arena the simulated agent is clamped into
/// (`100.0` units, in micro-units).
pub const ARENA_FX: i64 = 100_000_000;

/// Largest nutritional value a single food may carry (`1000.0` units).
pub const VALUE_MAX_FX: i64 = 1_000_000_000;

/// Largest number of foods a layout may hold; keeps every weighted sum
/// far inside `i128` range.
pub const MAX_FOODS: usize = 10_000;

/// Clamping a value into `[lo, hi]`.
pub open spec fn spec_clamp(v: int, lo: int, hi: int) -> int {
    if v < lo {
        lo
    } else if v > hi {
        hi
    } else {
        v
    }
}

/// Clamps `v` into the interval `[lo, hi]`.
pub fn clamp_i64(v: i64, lo: i64, hi: i64) -> (r: i64)
    requires
        lo <= hi,
    ensures
        r == spec_clamp(v as int, lo as int, hi as int),
        lo <= r <= hi,
{
    if v < lo {
        lo
    } else if v > hi {
        hi
    } else {
        v
    }
}

/// Brings an angle that overshot by less than one turn back into
/// `[0, TWO_PI_FX)`; the result is exactly the remainder modulo a full turn.
pub fn wrap_two_pi(a: i64) -> (r: i64)
    requires
        0 <= a < 2 * TWO_PI_FX,
    ensures
        r == a as int % (TWO_PI_FX as int),
        0 <= r < TWO_PI_FX,
{
    proof {
        lemma_mod_one_turn(a as int);
    }
    if a >= TWO_PI_FX {
        a - TWO_PI_FX
    } else {
        a
    }
}

/// The remainder modulo a full turn, spelled out for angles that overshot by
/// less than one extra turn.
proof fn lemma_mod_one_turn(a: int)
    requires
        0 <= a < 2 * TWO_PI_FX,
    ensures
        a < TWO_PI_FX ==> a % (TWO_PI_FX as int) == a,
        a >= TWO_PI_FX ==> a % (TWO_PI_FX as int) == a - TWO_PI_FX,
{
    if a < TWO_PI_FX {
        vstd::arithmetic::div_mod::lemma_small_mod(a as nat, TWO_PI_FX as nat);
    } else {
        vstd::arithmetic::div_mod::lemma_fundamental_div_mod_converse(
            a,
            TWO_PI_FX as int,
            1,
            a - TWO_PI_FX,
        );
    }
}

/// A quotient of non-negative values stays within `bound` as soon as the
/// numerator is at most `den * bound`.
pub proof fn lemma_div_le_bound(num: int, den: int, bound: int)
    requires
        0 <= num,
        0 < den,
        num <= den * bound,
    ensures
        0 <= num / den <= bound,
{
    vstd::arithmetic::div_mod::lemma_div_pos_is_pos(num, den);
    vstd::arithmetic::div_mod::lemma_div_is_ordered(num, den * bound, den);
    vstd::arithmetic::div_mod::lemma_div_multiples_vanish(bound, den);
}

/// Whether `r` is the integer square root of `n` rounded down.
pub open spec fn is_sqrt_floor(n: int, r: int) -> bool {
    &&& 0 <= r
    &&& r * r <= n
    &&& n < (r + 1) * (r + 1)
}

/// The integer square root of `n` rounded down: the unique value that
/// `is_sqrt_floor` accepts.
pub open spec fn spec_sqrt(n: int) -> int {
    choose|r: int| is_sqrt_floor(n, r)
}

/// Two values accepted by `is_sqrt_floor` for the same radicand are equal.
pub proof fn lemma_sqrt_unique(n: int, r1: int, r2: int)
    requires
        is_sqrt_floor(n, r1),
        is_sqrt_floor(n, r2),
    ensures
        r1 == r2,
{
    if r1 < r2 {
        assert((r1 + 1) * (r1 + 1) <= r2 * r2) by (nonlinear_arith)
            requires
                0 <= r1,
                r1 < r2,
        ;
    }
    if r2 < r1 {
        assert((r2 + 1) * (r2 + 1) <= r1 * r1) by (nonlinear_arith)
            requires
                0 <= r2,
                r2 < r1,
        ;
    }
}

/// A witness accepted by `is_sqrt_floor` pins down `spec_sqrt`.
pub proof fn lemma_sqrt_is(n: int, r: int)
    requires
        is_sqrt_floor(n, r),
    ensures
        spec_sqrt(n) == r,
{
    let w = choose|w: int| is_sqrt_floor(n, w);
    lemma_sqrt_unique(n, w, r);
}

/// Integer square root, rounded down.
pub fn isqrt(n: u64) -> (r: u64)
    ensures
        r == spec_sqrt(n as int),
        is_sqrt_floor(n as int, r as int),
{
    let mut lo: u64 = 0;
    let mut hi: u64 = 0xFFFF_FFFF;
    if n < 0xFFFF_FFFF {
        hi = n;
    }
    proof {
        assert((hi + 1) * (hi + 1) > n) by (nonlinear_arith)
            requires
                hi == n < 0xFFFF_FFFFu64 || hi == 0xFFFF_FFFFu64,
                n <= u64::MAX,
        ;
    }
    while lo < hi
        invariant
            lo <= hi <= 0xFFFF_FFFF,
            lo * lo <= n,
            n < (hi + 1) * (hi + 1),
        decreases hi - lo,
    {
        let mid: u64 = lo + (hi - lo + 1) / 2;
        proof {
            assert((mid as int) * (mid as int) <= 0xFFFF_FFFF * 0xFFFF_FFFF) by (nonlinear_arith)
                requires
                    0 <= mid <= 0xFFFF_FFFFu64,
            ;
        }
        let sq: u128 = (mid as u128) * (mid as u128);
        if sq <= n as u128 {
            lo = mid;
        } else {
            hi = mid - 1;
        }
    }
    proof {
        lemma_sqrt_is(n as int, lo as int);
    }
    lo
}

} // verus!
