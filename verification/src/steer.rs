//! The runtime direction adapter: a persisted record drives live agents.
//! Each decision tick asks the record's brain for a heading per agent given
//! the current food, hands the movement step a unit vector for it, and
//! boosts the speed by half when an agent's life has fallen under the
//! brain's threshold — emergency foraging on top of the base policy.

use vstd::prelude::*;
use crate::brain::{Brain, spec_direction};
use crate::model::{Model, model_valid};
use crate::rng::Rng64;
use crate::trig::{cos_fx, sin_fx, spec_cos, spec_sin};
use crate::world::{Food, Worm, foods_valid, worm_valid};

verus! {

/// What the movement step consumes for one agent: a unit direction vector
/// in micro-units, and the speed to move at.
#[derive(Clone, Copy, PartialEq, Eq, Structural, Debug)]
pub struct Steering {
    /// Cosine of the chosen heading, in micro-units.
    pub dir_x: i64,
    /// Sine of the chosen heading, in micro-units.
    pub dir_y: i64,
    /// The brain's speed, boosted by half below the life threshold.
    pub speed: i64,
}

/// The speed the adapter hands out: the brain's own speed, times one and a
/// half (rounded down) when life is under the threshold.
pub open spec fn spec_boosted_speed(b: Brain, life: i64) -> int {
    if life < b.life_threshold {
        (b.speed_factor * 3) / 2
    } else {
        b.speed_factor as int
    }
}

/// The steering of one agent, and the random state left behind: the heading
/// comes from the brain, the vector from the fixed-point circle functions.
pub open spec fn spec_steer_one(b: Brain, w: Worm, foods: Seq<Food>, s: u64) -> (Steering, u64) {
    let d = spec_direction(b, w.x as int, w.y as int, foods, s);
    (
        Steering {
            dir_x: spec_cos(d.0) as i64,
            dir_y: spec_sin(d.0) as i64,
            speed: spec_boosted_speed(b, w.life) as i64,
        },
        d.1,
    )
}

/// The steerings of a whole agent list, one after the other, threading the
/// random state through in list order.
pub open spec fn spec_steer_all(b: Brain, worms: Seq<Worm>, foods: Seq<Food>, s: u64) -> (
    Seq<Steering>,
    u64,
)
    decreases worms.len(),
{
    if worms.len() == 0 {
        (Seq::empty(), s)
    } else {
        let prev = spec_steer_all(b, worms.drop_last(), foods, s);
        let one = spec_steer_one(b, worms.last(), foods, prev.1);
        (prev.0.push(one.0), one.1)
    }
}

/// Computes one decision tick for every live agent against the current
/// food, using a persisted record's brain: one steering per agent, in
/// agent order.
pub fn steer_worms(model: &Model, worms: &Vec<Worm>, foods: &Vec<Food>, rng: &mut Rng64) -> (r:
    Vec<Steering>)
    requires
        model_valid(*model),
        foods_valid(foods@),
        forall|i: int| 0 <= i < worms@.len() ==> worm_valid(#[trigger] worms@[i]),
    ensures
        (r@, final(rng).state) == spec_steer_all(model.brain, worms@, foods@, old(rng).state),
        r@.len() == worms@.len(),
{
    let ghost s0 = rng.state;
    let mut r: Vec<Steering> = Vec::new();
    let mut i: usize = 0;
    while i < worms.len()
        invariant
            0 <= i <= worms@.len(),
            model_valid(*model),
            foods_valid(foods@),
            forall|k: int| 0 <= k < worms@.len() ==> worm_valid(#[trigger] worms@[k]),
            r@.len() == i,
            (r@, rng.state) == spec_steer_all(model.brain, worms@.take(i as int), foods@, s0),
        decreases worms.len() - i,
    {
        proof {
            assert(worms@.take(i + 1).drop_last() =~= worms@.take(i as int));
        }
        let w = worms[i];
        let dir = model.brain.direction(w.x, w.y, foods, rng);
        let c = cos_fx(dir);
        let sn = sin_fx(dir);
        let speed: i64 = if w.life < model.brain.life_threshold {
            (((model.brain.speed_factor as u64) * 3) / 2) as i64
        } else {
            model.brain.speed_factor
        };
        r.push(Steering { dir_x: c, dir_y: sn, speed });
        i = i + 1;
    }
    proof {
        assert(worms@.take(worms@.len() as int) =~= worms@);
    }
    r
}

} // verus!
