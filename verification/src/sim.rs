//! The foraging simulator: one agent, one food layout, a bounded number of
//! steps. Each step asks the brain for a heading, moves the agent and clamps
//! it into the arena, consumes every food within the consumption radius of
//! the new position (value to the tally, a capped life bonus per food, the
//! food leaves the run-local list), and drains life in proportion to the
//! brain's speed. The run's fitness is the total food value consumed.
//!
//! The whole run is specified as a pure function (`spec_run`) of the brain,
//! the layout and the random-source state, so determinism is a statement of
//! the model, not a hope about the code: equal inputs give the run one
//! possible outcome.

use vstd::prelude::*;
use crate::fixed::{ARENA_FX, MICRO, clamp_i64, spec_clamp};
use crate::rng::Rng64;
use crate::trig::{cos_fx, sin_fx, spec_cos, spec_sin};
use crate::brain::{Brain, brain_valid, spec_direction};
use crate::world::{
    Food, TOTAL_VALUE_MAX_FX, Worm, dist_fx, food_valid, foods_valid, lemma_total_value_bound,
    spec_dist, total_value, worm_valid,
};

verus! {

/// How close the agent must be to a food to consume it (`2.0` units).
pub const RADIUS_FX: i64 = 2_000_000;

/// Life regained per food consumed (`0.1`), before the cap at one.
pub const BONUS_FX: i64 = 100_000;

/// Number of steps of one fitness evaluation.
pub const MAX_ITERS: usize = 500;

/// Whether the agent at `(x, y)` consumes the food `f`: strictly closer
/// than the consumption radius, so distance zero consumes.
pub open spec fn food_eaten(f: Food, x: int, y: int) -> bool {
    spec_dist(x, y, f.x as int, f.y as int) < RADIUS_FX
}

/// The foods that survive a visit of `(x, y)`, in their original order.
pub open spec fn kept_foods(s: Seq<Food>, x: int, y: int) -> Seq<Food>
    decreases s.len(),
{
    if s.len() == 0 {
        Seq::empty()
    } else {
        let rest = kept_foods(s.drop_last(), x, y);
        if food_eaten(s.last(), x, y) {
            rest
        } else {
            rest.push(s.last())
        }
    }
}

/// The total value of the foods a visit of `(x, y)` consumes.
pub open spec fn eaten_value(s: Seq<Food>, x: int, y: int) -> int
    decreases s.len(),
{
    if s.len() == 0 {
        0
    } else {
        eaten_value(s.drop_last(), x, y) + if food_eaten(s.last(), x, y) {
            s.last().value as int
        } else {
            0
        }
    }
}

/// How many foods a visit of `(x, y)` consumes.
pub open spec fn eaten_count(s: Seq<Food>, x: int, y: int) -> int
    decreases s.len(),
{
    if s.len() == 0 {
        0
    } else {
        eaten_count(s.drop_last(), x, y) + if food_eaten(s.last(), x, y) {
            1int
        } else {
            0int
        }
    }
}

/// A cosine or sine in micro-units times the speed, scaled back down:
/// division rounds toward zero, as the executable division does.
pub open spec fn spec_scale_speed(c: int, speed: int) -> int {
    if c >= 0 {
        (c * speed) / (MICRO as int)
    } else {
        -(((-c) * speed) / (MICRO as int))
    }
}

/// One simulator step. A dead agent (life at zero) is left as it is; the
/// step order for a live one is: heading, move and clamp, consume at the
/// new position, starve by speed.
pub open spec fn spec_step(b: Brain, w: Worm, foods: Seq<Food>, s: u64) -> (Worm, Seq<Food>, u64) {
    if w.life <= 0 {
        (w, foods, s)
    } else {
        let dir = spec_direction(b, w.x as int, w.y as int, foods, s);
        let nx = spec_clamp(
            w.x + spec_scale_speed(spec_cos(dir.0), b.speed_factor as int),
            0,
            ARENA_FX as int,
        );
        let ny = spec_clamp(
            w.y + spec_scale_speed(spec_sin(dir.0), b.speed_factor as int),
            0,
            ARENA_FX as int,
        );
        let gain = eaten_count(foods, nx, ny) * BONUS_FX;
        let fed = if w.life + gain > MICRO {
            MICRO as int
        } else {
            w.life + gain
        };
        let loss = b.speed_factor as int / 1000;
        let life = if fed - loss < 0 {
            0
        } else {
            fed - loss
        };
        (
            Worm {
                x: nx as i64,
                y: ny as i64,
                life: life as i64,
                food_consumed: (w.food_consumed + eaten_value(foods, nx, ny)) as i64,
            },
            kept_foods(foods, nx, ny),
            dir.1,
        )
    }
}

/// The agent every evaluation starts from.
pub open spec fn origin_worm() -> Worm {
    Worm { x: 0, y: 0, life: MICRO, food_consumed: 0 }
}

/// The simulator state after `n` steps from the given start.
pub open spec fn spec_run(b: Brain, w: Worm, foods: Seq<Food>, s: u64, n: nat) -> (
    Worm,
    Seq<Food>,
    u64,
)
    decreases n,
{
    if n == 0 {
        (w, foods, s)
    } else {
        let prev = spec_run(b, w, foods, s, (n - 1) as nat);
        spec_step(b, prev.0, prev.1, prev.2)
    }
}

/// What one visit consumes adds up: the eaten value plus the value of the
/// kept foods is the value of the whole list, the counts balance, and kept
/// foods are as valid as they were.
pub proof fn lemma_consumption(s: Seq<Food>, x: int, y: int)
    requires
        forall|i: int| 0 <= i < s.len() ==> food_valid(#[trigger] s[i]),
    ensures
        0 <= eaten_count(s, x, y) <= s.len(),
        0 <= eaten_value(s, x, y),
        kept_foods(s, x, y).len() + eaten_count(s, x, y) == s.len(),
        forall|i: int|
            0 <= i < kept_foods(s, x, y).len() ==> food_valid(#[trigger] kept_foods(s, x, y)[i]),
        eaten_value(s, x, y) + total_value(kept_foods(s, x, y)) == total_value(s),
    decreases s.len(),
{
    if s.len() > 0 {
        lemma_consumption(s.drop_last(), x, y);
        let rest = kept_foods(s.drop_last(), x, y);
        if !food_eaten(s.last(), x, y) {
            assert(rest.push(s.last()).drop_last() =~= rest);
        }
    }
}

/// Copies a food list into an owned, run-local list.
fn copy_foods(foods: &Vec<Food>) -> (r: Vec<Food>)
    ensures
        r@ == foods@,
{
    let mut r: Vec<Food> = Vec::new();
    let mut i: usize = 0;
    while i < foods.len()
        invariant
            0 <= i <= foods.len(),
            r@ == foods@.take(i as int),
        decreases foods.len() - i,
    {
        r.push(foods[i]);
        i = i + 1;
    }
    proof {
        assert(foods@.take(foods@.len() as int) =~= foods@);
    }
    r
}

/// Scales a trig component in `[-MICRO, MICRO]` by the speed, rounding
/// toward zero.
fn scale_speed(c: i64, speed: i64) -> (r: i64)
    requires
        -MICRO <= c <= MICRO,
        0 < speed <= 3_000_000,
    ensures
        r == spec_scale_speed(c as int, speed as int),
        -3_000_000 <= r <= 3_000_000,
{
    proof {
        assert(0 <= (if c >= 0 { c as int } else { -c as int }) * speed <= 3_000_000_000_000
            && ((if c >= 0 { c as int } else { -c as int }) * speed) / 1_000_000 <= 3_000_000)
            by (nonlinear_arith)
            requires
                -1_000_000 <= c <= 1_000_000i64,
                0 < speed <= 3_000_000i64,
        ;
        assert(MICRO == 1_000_000);
    }
    if c >= 0 {
        let p: i64 = c * speed;
        ((p as u64) / (MICRO as u64)) as i64
    } else {
        let p: i64 = (-c) * speed;
        -(((p as u64) / (MICRO as u64)) as i64)
    }
}

/// Runs one simulator step on an explicit state, returning the stepped worm
/// and the surviving foods; the random source advances exactly as the step
/// model says. Value is conserved: what leaves the food list enters the
/// tally.
pub fn sim_step(brain: &Brain, worm: &Worm, foods: &Vec<Food>, rng: &mut Rng64) -> (r: (
    Worm,
    Vec<Food>,
))
    requires
        brain_valid(*brain),
        worm_valid(*worm),
        foods_valid(foods@),
        worm.food_consumed + total_value(foods@) <= TOTAL_VALUE_MAX_FX,
    ensures
        (r.0, r.1@, final(rng).state) == spec_step(*brain, *worm, foods@, old(rng).state),
        worm_valid(r.0),
        foods_valid(r.1@),
        r.0.food_consumed + total_value(r.1@) == worm.food_consumed + total_value(foods@),
{
    proof {
        lemma_total_value_bound(foods@);
    }
    if worm.life <= 0 {
        let kept = copy_foods(foods);
        return (*worm, kept);
    }
    let dir = brain.direction(worm.x, worm.y, foods, rng);
    let c = cos_fx(dir);
    let s = sin_fx(dir);
    let nx = clamp_i64(worm.x + scale_speed(c, brain.speed_factor), 0, ARENA_FX);
    let ny = clamp_i64(worm.y + scale_speed(s, brain.speed_factor), 0, ARENA_FX);

    let mut kept: Vec<Food> = Vec::new();
    let mut ev: i64 = 0;
    let mut ec: usize = 0;
    let mut j: usize = 0;
    while j < foods.len()
        invariant
            0 <= j <= foods.len(),
            foods_valid(foods@),
            0 <= nx <= ARENA_FX,
            0 <= ny <= ARENA_FX,
            kept@ == kept_foods(foods@.take(j as int), nx as int, ny as int),
            ev as int == eaten_value(foods@.take(j as int), nx as int, ny as int),
            ec as int == eaten_count(foods@.take(j as int), nx as int, ny as int),
            0 <= ev <= (j as int) * 1_000_000_000,
            0 <= ec <= j,
        decreases foods.len() - j,
    {
        proof {
            assert(foods@.take(j + 1).drop_last() =~= foods@.take(j as int));
            assert((j as int) * 1_000_000_000 + 1_000_000_000 == (j + 1) * 1_000_000_000)
                by (nonlinear_arith);
        }
        let f = foods[j];
        let d = dist_fx(nx, ny, f.x, f.y);
        if d < RADIUS_FX {
            ev = ev + f.value;
            ec = ec + 1;
        } else {
            kept.push(f);
        }
        j = j + 1;
    }
    proof {
        assert(foods@.take(foods@.len() as int) =~= foods@);
        lemma_consumption(foods@, nx as int, ny as int);
        assert((ec as int) * BONUS_FX <= 1_000_000_000) by (nonlinear_arith)
            requires
                0 <= ec <= 10_000,
                BONUS_FX == 100_000,
        ;
    }
    let gain: i64 = (ec as i64) * BONUS_FX;
    let mut life: i64 = worm.life + gain;
    if life > MICRO {
        life = MICRO;
    }
    let loss: i64 = ((brain.speed_factor as u64) / 1000) as i64;
    if life < loss {
        life = 0;
    } else {
        life = life - loss;
    }
    let stepped = Worm { x: nx, y: ny, life, food_consumed: worm.food_consumed + ev };
    (stepped, kept)
}

/// Runs a full evaluation: a fresh agent at the origin, full life, against
/// a run-local copy of the layout, for `MAX_ITERS` steps. The result is the
/// state the run model reaches, so two runs from equal inputs agree; the
/// tally never passes the layout's total value.
pub fn evaluate(brain: &Brain, foods: &Vec<Food>, rng: &mut Rng64) -> (w: Worm)
    requires
        brain_valid(*brain),
        foods_valid(foods@),
    ensures
        w == spec_run(*brain, origin_worm(), foods@, old(rng).state, MAX_ITERS as nat).0,
        final(rng).state == spec_run(
            *brain,
            origin_worm(),
            foods@,
            old(rng).state,
            MAX_ITERS as nat,
        ).2,
        worm_valid(w),
        0 <= w.food_consumed <= total_value(foods@),
{
    let ghost w0 = origin_worm();
    let ghost s0 = rng.state;
    proof {
        lemma_total_value_bound(foods@);
        assert(foods@.len() * 1_000_000_000 <= 10_000_000_000_000) by (nonlinear_arith)
            requires
                0 <= foods@.len() <= 10_000,
        ;
    }
    let mut worm = Worm::at_origin();
    let mut cur = copy_foods(foods);
    let mut i: usize = 0;
    while i < MAX_ITERS
        invariant
            0 <= i <= MAX_ITERS,
            brain_valid(*brain),
            foods_valid(foods@),
            (worm, cur@, rng.state) == spec_run(*brain, w0, foods@, s0, i as nat),
            worm_valid(worm),
            foods_valid(cur@),
            worm.food_consumed + total_value(cur@) == total_value(foods@),
            total_value(foods@) <= TOTAL_VALUE_MAX_FX,
        decreases MAX_ITERS - i,
    {
        let r = sim_step(brain, &worm, &cur, rng);
        worm = r.0;
        cur = r.1;
        i = i + 1;
    }
    proof {
        lemma_total_value_bound(cur@);
    }
    worm
}

/// The fitness one evaluation run yields, and the random state it leaves
/// behind: the total food value the run model's final agent has consumed.
pub open spec fn spec_fitness(b: Brain, foods: Seq<Food>, s: u64) -> (i64, u64) {
    let r = spec_run(b, origin_worm(), foods, s, MAX_ITERS as nat);
    (r.0.food_consumed, r.2)
}

/// The fitness of one evaluation run: the total food value consumed.
pub fn fitness_of(brain: &Brain, foods: &Vec<Food>, rng: &mut Rng64) -> (fit: i64)
    requires
        brain_valid(*brain),
        foods_valid(foods@),
    ensures
        (fit, final(rng).state) == spec_fitness(*brain, foods@, old(rng).state),
        0 <= fit <= total_value(foods@),
{
    let w = evaluate(brain, foods, rng);
    w.food_consumed
}

/// Determinism of evaluation: the run model is a function, so equal brains,
/// equal layouts and equal random-source states reach equal outcomes —
/// the same fitness, the same final agent, the same surviving foods.
pub proof fn lemma_run_deterministic(
    b1: Brain,
    b2: Brain,
    w1: Worm,
    w2: Worm,
    f1: Seq<Food>,
    f2: Seq<Food>,
    s1: u64,
    s2: u64,
    n: nat,
)
    requires
        b1 == b2,
        w1 == w2,
        f1 == f2,
        s1 == s2,
    ensures
        spec_run(b1, w1, f1, s1, n) == spec_run(b2, w2, f2, s2, n),
{
}

} // verus!
