//! The evolvable policy: a brain of three bounded parameters that maps the
//! agent's position and the remaining food to a movement angle. With food in
//! sight the angle is the weight-averaged bearing of the foods, each food
//! weighted by its value over its distance; with none, the agent turns
//! slowly on the spot. A bounded random nudge, suppressed by a high
//! `food_attraction`, is added to the food-seeking angle. The genome
//! operators of the optimizer — uniform crossover and clamped point
//! mutation — live here too.

use vstd::prelude::*;
use crate::fixed::{
    ARENA_FX, MICRO, TWO_PI_FX, clamp_i64, lemma_div_le_bound, spec_clamp, wrap_two_pi,
};
use crate::rng::{Rng64, sm_next, spec_draw_in};
use crate::trig::{atan2_fx, spec_atan2};
use crate::world::{Food, dist_fx, food_valid, foods_valid, spec_dist};

verus! {

/// Slowest speed a brain may drive (`1.0`).
pub const SPEED_MIN_FX: i64 = 1_000_000;

/// Fastest speed a brain may drive (`3.0`).
pub const SPEED_MAX_FX: i64 = 3_000_000;

/// How far the no-food fallback advances the heading each query (`0.1` rad).
pub const TURN_STEP_FX: i64 = 100_000;

/// Probability of mutating one parameter (`0.2`), out of `MICRO`.
pub const MUT_PROB_FX: i64 = 200_000;

/// Half-width of a `food_attraction` mutation (`0.1`).
pub const FA_STEP_FX: i64 = 100_000;

/// Half-width of a `speed_factor` mutation (`0.2`).
pub const SPEED_STEP_FX: i64 = 200_000;

/// Half-width of a `life_threshold` mutation (`0.1`).
pub const LT_STEP_FX: i64 = 100_000;

/// The genome: three bounded parameters, in micro-units.
#[derive(Clone, Copy, PartialEq, Eq, Structural, Debug)]
pub struct Brain {
    /// How strongly food pulls, and how strongly randomness is suppressed;
    /// in `[0, MICRO]`.
    pub food_attraction: i64,
    /// Distance covered per step, in `[SPEED_MIN_FX, SPEED_MAX_FX]`.
    pub speed_factor: i64,
    /// Life level under which the runtime boosts speed; in `[0, MICRO]`.
    pub life_threshold: i64,
}

/// Every parameter inside its declared hard bounds.
pub open spec fn brain_valid(b: Brain) -> bool {
    &&& 0 <= b.food_attraction <= MICRO
    &&& SPEED_MIN_FX <= b.speed_factor <= SPEED_MAX_FX
    &&& 0 <= b.life_threshold <= MICRO
}

/// The pull of one food seen from `(x, y)`: its value over its distance plus
/// one unit, so that a food right underfoot weighs its full value.
pub open spec fn spec_weight(f: Food, x: int, y: int) -> int {
    (f.value * MICRO) / (spec_dist(x, y, f.x as int, f.y as int) + MICRO)
}

/// The two sums of the weighted angle average over a food list: the sum of
/// weighted bearing angles, and the sum of weights.
pub open spec fn spec_sums(s: Seq<Food>, x: int, y: int) -> (int, int)
    decreases s.len(),
{
    if s.len() == 0 {
        (0, 0)
    } else {
        let prev = spec_sums(s.drop_last(), x, y);
        let f = s.last();
        let th = spec_atan2(f.y - y, f.x - x);
        let w = spec_weight(f, x, y);
        (prev.0 + w * th, prev.1 + w)
    }
}

/// The heading chosen when no food weighs in: the agent's own position
/// angle, advanced a tenth of a radian, wrapped into a full turn.
pub open spec fn spec_fallback_dir(x: int, y: int) -> int {
    (spec_atan2(y, x) + TURN_STEP_FX) % (TWO_PI_FX as int)
}

/// The random nudge: a unit draw `u`, scaled by `0.2` and by how far
/// `food_attraction` falls short of one.
pub open spec fn spec_perturb(u: int, fa: int) -> int {
    (u * (MICRO - fa)) / (5 * MICRO)
}

/// The angle `direction` returns and the random state it leaves behind.
/// Only the food-seeking branch draws from the random source.
pub open spec fn spec_direction(b: Brain, x: int, y: int, foods: Seq<Food>, s: u64) -> (int, u64) {
    let sums = spec_sums(foods, x, y);
    if foods.len() == 0 || sums.1 == 0 {
        (spec_fallback_dir(x, y), s)
    } else {
        let base = sums.0 / sums.1;
        let u = spec_draw_in(s, 0, MICRO as int);
        ((base + spec_perturb(u, b.food_attraction as int)) % (TWO_PI_FX as int), sm_next(s))
    }
}

/// A food's weight is non-negative and never passes the food's own value.
proof fn lemma_weight_bounds(f: Food, x: int, y: int)
    requires
        food_valid(f),
        0 <= spec_dist(x, y, f.x as int, f.y as int),
    ensures
        0 <= spec_weight(f, x, y) <= f.value,
{
    let d = spec_dist(x, y, f.x as int, f.y as int);
    assert(f.value * MICRO <= (d + MICRO) * f.value) by (nonlinear_arith)
        requires
            0 < f.value,
            0 <= d,
    ;
    lemma_div_le_bound(f.value * MICRO, d + MICRO, f.value as int);
}

impl Brain {
    /// The movement angle for an agent at `(x, y)` facing the food list
    /// `foods`, in `[0, TWO_PI_FX)`. The exact angle, and whether the random
    /// source advances, is `spec_direction`.
    pub fn direction(&self, x: i64, y: i64, foods: &Vec<Food>, rng: &mut Rng64) -> (a: i64)
        requires
            0 <= x <= ARENA_FX,
            0 <= y <= ARENA_FX,
            foods_valid(foods@),
            brain_valid(*self),
        ensures
            a == spec_direction(*self, x as int, y as int, foods@, old(rng).state).0,
            final(rng).state == spec_direction(*self, x as int, y as int, foods@, old(rng).state).1,
            0 <= a < TWO_PI_FX,
            foods@.len() == 0 ==> a == (spec_atan2(y as int, x as int) + TURN_STEP_FX) % (
            TWO_PI_FX as int) && final(rng).state == old(rng).state,
    {
        let ghost s0 = rng.state;
        let mut num: i128 = 0;
        let mut den: i64 = 0;
        let mut i: usize = 0;
        while i < foods.len()
            invariant
                0 <= i <= foods.len(),
                foods_valid(foods@),
                0 <= x <= ARENA_FX,
                0 <= y <= ARENA_FX,
                num as int == spec_sums(foods@.take(i as int), x as int, y as int).0,
                den as int == spec_sums(foods@.take(i as int), x as int, y as int).1,
                0 <= den <= (i as int) * 1_000_000_000,
                0 <= num <= (den as int) * 6_283_183,
            decreases foods.len() - i,
        {
            let f = foods[i];
            let th: i64 = atan2_fx(f.y - y, f.x - x);
            let d: i64 = dist_fx(x, y, f.x, f.y);
            proof {
                lemma_weight_bounds(f, x as int, y as int);
            }
            let w: i64 = (((f.value as u64) * (MICRO as u64)) / ((d + MICRO) as u64)) as i64;
            proof {
                assert((i as int) * 1_000_000_000 + 1_000_000_000 == (i + 1) * 1_000_000_000)
                    by (nonlinear_arith);
                assert(0 <= (w as int) * (th as int) && (num as int) + (w as int) * (th as int)
                    <= ((den as int) + w) * 6_283_183 && ((den as int) + w) * 6_283_183
                    <= 62_831_830_000_000_000_000) by (nonlinear_arith)
                    requires
                        0 <= w <= 1_000_000_000,
                        0 <= th <= 6_283_183,
                        0 <= num <= (den as int) * 6_283_183,
                        0 <= den,
                        (den as int) + w <= 10_000_000_000_000,
                ;
                assert(foods@.take(i + 1).drop_last() =~= foods@.take(i as int));
            }
            num = num + (w as i128) * (th as i128);
            den = den + w;
            i = i + 1;
        }
        proof {
            assert(foods@.take(foods@.len() as int) =~= foods@);
        }
        if foods.len() == 0 || den == 0 {
            let base = atan2_fx(y, x);
            return wrap_two_pi(base + TURN_STEP_FX);
        }
        proof {
            lemma_div_le_bound(num as int, den as int, 6_283_183);
        }
        let base: i64 = ((num as u128) / (den as u128)) as i64;
        let u: i64 = rng.next_in(0, MICRO);
        proof {
            assert(0 <= (u as int) * (MICRO - self.food_attraction) <= 1_000_000_000_000)
                by (nonlinear_arith)
                requires
                    0 <= u <= 1_000_000i64,
                    0 <= self.food_attraction <= 1_000_000i64,
                    MICRO == 1_000_000,
            ;
            lemma_div_le_bound(
                (u as int) * (MICRO - self.food_attraction),
                5 * MICRO,
                200_000,
            );
        }
        let pert: i64 = (((u as u64) * ((MICRO - self.food_attraction) as u64)) / ((5 * MICRO)
            as u64)) as i64;
        wrap_two_pi(base + pert)
    }
}

/// One parameter's mutation: with probability `MUT_PROB_FX` out of `MICRO`,
/// a uniform draw of `[-step, step]` is added and the result clamped back
/// into `[lo, hi]`; otherwise the parameter and one draw's worth of state
/// pass through untouched.
pub open spec fn spec_mutate_param(v: int, lo: int, hi: int, step: int, s: u64) -> (int, u64) {
    let gate = spec_draw_in(s, 0, MICRO - 1);
    let s1 = sm_next(s);
    if gate < MUT_PROB_FX {
        let d = spec_draw_in(s1, -step, step);
        (spec_clamp(v + d, lo, hi), sm_next(s1))
    } else {
        (v, s1)
    }
}

/// The brain `mutate` leaves behind, each parameter mutated independently
/// in field order, and the random state after the gates and draws.
pub open spec fn spec_mutate(b: Brain, s: u64) -> (Brain, u64) {
    let fa = spec_mutate_param(b.food_attraction as int, 0, MICRO as int, FA_STEP_FX as int, s);
    let sp = spec_mutate_param(
        b.speed_factor as int,
        SPEED_MIN_FX as int,
        SPEED_MAX_FX as int,
        SPEED_STEP_FX as int,
        fa.1,
    );
    let lt = spec_mutate_param(b.life_threshold as int, 0, MICRO as int, LT_STEP_FX as int, sp.1);
    (
        Brain {
            food_attraction: fa.0 as i64,
            speed_factor: sp.0 as i64,
            life_threshold: lt.0 as i64,
        },
        lt.1,
    )
}

/// The brain uniform crossover breeds: each parameter comes from the first
/// parent on a zero draw and from the second otherwise, one fair draw per
/// parameter in field order.
pub open spec fn spec_crossover(p: Brain, q: Brain, s: u64) -> (Brain, u64) {
    let u1 = spec_draw_in(s, 0, 1);
    let s1 = sm_next(s);
    let u2 = spec_draw_in(s1, 0, 1);
    let s2 = sm_next(s1);
    let u3 = spec_draw_in(s2, 0, 1);
    let s3 = sm_next(s2);
    (
        Brain {
            food_attraction: if u1 == 0 {
                p.food_attraction
            } else {
                q.food_attraction
            },
            speed_factor: if u2 == 0 {
                p.speed_factor
            } else {
                q.speed_factor
            },
            life_threshold: if u3 == 0 {
                p.life_threshold
            } else {
                q.life_threshold
            },
        },
        s3,
    )
}

/// Mutates one parameter as `spec_mutate_param` says; the result stays in
/// `[lo, hi]`.
fn mutate_param(v: i64, lo: i64, hi: i64, step: i64, rng: &mut Rng64) -> (r: i64)
    requires
        lo <= v <= hi,
        0 < step <= MICRO,
        -SPEED_MAX_FX <= lo <= hi <= SPEED_MAX_FX,
    ensures
        r == spec_mutate_param(v as int, lo as int, hi as int, step as int, old(rng).state).0,
        final(rng).state == spec_mutate_param(
            v as int,
            lo as int,
            hi as int,
            step as int,
            old(rng).state,
        ).1,
        lo <= r <= hi,
{
    let gate = rng.next_in(0, MICRO - 1);
    if gate < MUT_PROB_FX {
        let d = rng.next_in(-step, step);
        clamp_i64(v + d, lo, hi)
    } else {
        v
    }
}

impl Brain {
    /// Mutates this brain in place. Afterwards every parameter lies within
    /// its declared hard bounds, whatever was drawn.
    pub fn mutate(&mut self, rng: &mut Rng64)
        requires
            brain_valid(*old(self)),
        ensures
            *final(self) == spec_mutate(*old(self), old(rng).state).0,
            final(rng).state == spec_mutate(*old(self), old(rng).state).1,
            brain_valid(*final(self)),
    {
        self.food_attraction = mutate_param(self.food_attraction, 0, MICRO, FA_STEP_FX, rng);
        self.speed_factor = mutate_param(
            self.speed_factor,
            SPEED_MIN_FX,
            SPEED_MAX_FX,
            SPEED_STEP_FX,
            rng,
        );
        self.life_threshold = mutate_param(self.life_threshold, 0, MICRO, LT_STEP_FX, rng);
    }

    /// Breeds a child of two parents by uniform crossover. Each parameter is
    /// one of the parents' parameters, so a child of valid parents is valid.
    pub fn crossover(p: &Brain, q: &Brain, rng: &mut Rng64) -> (c: Brain)
        requires
            brain_valid(*p),
            brain_valid(*q),
        ensures
            c == spec_crossover(*p, *q, old(rng).state).0,
            final(rng).state == spec_crossover(*p, *q, old(rng).state).1,
            brain_valid(c),
    {
        let u1 = rng.next_in(0, 1);
        let u2 = rng.next_in(0, 1);
        let u3 = rng.next_in(0, 1);
        Brain {
            food_attraction: if u1 == 0 {
                p.food_attraction
            } else {
                q.food_attraction
            },
            speed_factor: if u2 == 0 {
                p.speed_factor
            } else {
                q.speed_factor
            },
            life_threshold: if u3 == 0 {
                p.life_threshold
            } else {
                q.life_threshold
            },
        }
    }
}

} // verus!
