//! The data the simulation acts on: food items and the simulated agent
//! ("worm"), their validity bounds, the distance between points of the
//! arena, and the fitness bounds a food layout allows.

use vstd::prelude::*;
use crate::fixed::{
    ARENA_FX, MAX_FOODS, MICRO, VALUE_MAX_FX, is_sqrt_floor, isqrt, spec_sqrt,
};

verus! {

/// Largest total nutritional value a valid food layout can carry:
/// `MAX_FOODS * VALUE_MAX_FX`.
pub const TOTAL_VALUE_MAX_FX: i64 = 10_000_000_000_000;

/// A food item: a position of the arena and a nutritional value, all in
/// micro-units.
#[derive(Clone, Copy, PartialEq, Eq, Structural, Debug)]
pub struct Food {
    /// Horizontal position, in `[0, ARENA_FX]`.
    pub x: i64,
    /// Vertical position, in `[0, ARENA_FX]`.
    pub y: i64,
    /// Nutritional worth, in `(0, VALUE_MAX_FX]`.
    pub value: i64,
}

/// The simulated agent of one fitness evaluation.
#[derive(Clone, Copy, PartialEq, Eq, Structural, Debug)]
pub struct Worm {
    /// Horizontal position, in `[0, ARENA_FX]`.
    pub x: i64,
    /// Vertical position, in `[0, ARENA_FX]`.
    pub y: i64,
    /// Remaining life, in `[0, MICRO]`.
    pub life: i64,
    /// Total value of the food consumed so far.
    pub food_consumed: i64,
}

/// A food item whose position lies in the arena and whose value is positive
/// and bounded.
pub open spec fn food_valid(f: Food) -> bool {
    &&& 0 <= f.x <= ARENA_FX
    &&& 0 <= f.y <= ARENA_FX
    &&& 0 < f.value <= VALUE_MAX_FX
}

/// A food layout: every item valid, and few enough of them that every sum
/// in the simulator stays bounded.
pub open spec fn foods_valid(s: Seq<Food>) -> bool {
    &&& s.len() <= MAX_FOODS
    &&& forall|i: int| 0 <= i < s.len() ==> food_valid(#[trigger] s[i])
}

/// A worm that lies in the arena with life in `[0, 1.0]` and a non-negative
/// food tally.
pub open spec fn worm_valid(w: Worm) -> bool {
    &&& 0 <= w.x <= ARENA_FX
    &&& 0 <= w.y <= ARENA_FX
    &&& 0 <= w.life <= MICRO
    &&& 0 <= w.food_consumed
}

impl Worm {
    /// The agent every evaluation starts from: the origin, full life,
    /// nothing consumed yet.
    pub fn at_origin() -> (w: Worm)
        ensures
            w == (Worm { x: 0, y: 0, life: MICRO, food_consumed: 0 }),
            worm_valid(w),
    {
        Worm { x: 0, y: 0, life: MICRO, food_consumed: 0 }
    }
}

/// The distance between two points, rounded down to micro-units.
pub open spec fn spec_dist(x1: int, y1: int, x2: int, y2: int) -> int {
    spec_sqrt((x2 - x1) * (x2 - x1) + (y2 - y1) * (y2 - y1))
}

/// Computes the distance between two points of the arena.
pub fn dist_fx(x1: i64, y1: i64, x2: i64, y2: i64) -> (r: i64)
    requires
        0 <= x1 <= ARENA_FX,
        0 <= y1 <= ARENA_FX,
        0 <= x2 <= ARENA_FX,
        0 <= y2 <= ARENA_FX,
    ensures
        r == spec_dist(x1 as int, y1 as int, x2 as int, y2 as int),
        0 <= r <= 150_000_000,
{
    let dx: i64 = x2 - x1;
    let dy: i64 = y2 - y1;
    proof {
        assert(0 <= (dx as int) * (dx as int) <= 10_000_000_000_000_000 && 0 <= (dy as int)
            * (dy as int) <= 10_000_000_000_000_000) by (nonlinear_arith)
            requires
                -100_000_000 <= dx <= 100_000_000,
                -100_000_000 <= dy <= 100_000_000,
        ;
    }
    let sq: u64 = ((dx as i128) * (dx as i128) + (dy as i128) * (dy as i128)) as u64;
    let r = isqrt(sq);
    proof {
        assert(r <= 150_000_000) by (nonlinear_arith)
            requires
                (r as int) * (r as int) <= 20_000_000_000_000_000,
                r >= 0,
        ;
    }
    r as i64
}

/// The total nutritional value of a food list.
pub open spec fn total_value(s: Seq<Food>) -> int
    decreases s.len(),
{
    if s.len() == 0 {
        0
    } else {
        total_value(s.drop_last()) + s.last().value
    }
}

/// A valid food list's total value is non-negative and bounded by one
/// maximal value per item.
pub proof fn lemma_total_value_bound(s: Seq<Food>)
    requires
        forall|i: int| 0 <= i < s.len() ==> food_valid(#[trigger] s[i]),
    ensures
        0 <= total_value(s) <= s.len() * VALUE_MAX_FX,
    decreases s.len(),
{
    if s.len() > 0 {
        lemma_total_value_bound(s.drop_last());
        assert((s.len() - 1) * VALUE_MAX_FX + VALUE_MAX_FX == s.len() * VALUE_MAX_FX)
            by (nonlinear_arith);
    }
}

/// The best fitness a layout allows: everything eaten. Fitness is the total
/// value consumed, so it can reach, but never pass, the layout's total value.
pub fn highest_possible_fitness(foods: &Vec<Food>) -> (r: i64)
    requires
        foods_valid(foods@),
    ensures
        r == total_value(foods@),
        0 <= r <= TOTAL_VALUE_MAX_FX,
{
    proof {
        lemma_total_value_bound(foods@);
    }
    let mut acc: i64 = 0;
    let mut i: usize = 0;
    while i < foods.len()
        invariant
            0 <= i <= foods.len(),
            foods_valid(foods@),
            acc == total_value(foods@.take(i as int)),
            0 <= acc <= (i as int) * VALUE_MAX_FX,
        decreases foods.len() - i,
    {
        proof {
            assert(foods@.take(i + 1).drop_last() =~= foods@.take(i as int));
            assert(foods@.take(i + 1).last() == foods@[i as int]);
            assert((i as int) * VALUE_MAX_FX + VALUE_MAX_FX == (i + 1) * VALUE_MAX_FX)
                by (nonlinear_arith);
            assert((i + 1) * VALUE_MAX_FX <= MAX_FOODS * VALUE_MAX_FX) by (nonlinear_arith)
                requires
                    0 <= i + 1 <= MAX_FOODS,
            ;
        }
        acc = acc + foods[i].value;
        i = i + 1;
    }
    proof {
        assert(foods@.take(foods@.len() as int) =~= foods@);
    }
    acc
}

/// The worst fitness any run can produce: nothing eaten.
pub fn lowest_possible_fitness() -> (r: i64)
    ensures
        r == 0,
{
    0
}

} // verus!
