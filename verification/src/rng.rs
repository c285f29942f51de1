//! The injectable random source. Training, mutation and the direction policy
//! all draw from an explicit generator value, so a run is a pure function of
//! its seed: the same seed replays the same run, which is what makes the
//! optimizer's trajectory and the simulator reproducible and testable.
//!
//! The generator is the splitmix construction on 64 bits: the state advances
//! by a fixed odd constant and the output is a bijective scramble of the new
//! state. Every step is specified exactly, so contracts downstream can name
//! the precise value of every draw.

use vstd::prelude::*;

verus! {

/// The state a splitmix step adds each time it is asked for a value.
pub const SM_GAMMA: u64 = 0x9E37_79B9_7F4A_7C15;

/// First multiplier of the output scramble.
pub const SM_MUL1: u64 = 0xBF58_476D_1CE4_E5B9;

/// Second multiplier of the output scramble.
pub const SM_MUL2: u64 = 0x94D0_49BB_1331_11EB;

/// The state that follows `s`.
pub open spec fn sm_next(s: u64) -> u64 {
    s.wrapping_add(SM_GAMMA)
}

/// The value the generator outputs when its (already advanced) state is `s`.
pub open spec fn sm_mix(s: u64) -> u64 {
    let z1 = (s ^ (s >> 30)).wrapping_mul(SM_MUL1);
    let z2 = (z1 ^ (z1 >> 27)).wrapping_mul(SM_MUL2);
    z2 ^ (z2 >> 31)
}

/// The raw 64-bit value drawn from state `s`, before the state advances.
pub open spec fn sm_draw(s: u64) -> u64 {
    sm_mix(sm_next(s))
}

/// A draw from `[lo, hi]` out of state `s`: the raw draw reduced into the
/// interval.
pub open spec fn spec_draw_in(s: u64, lo: int, hi: int) -> int {
    lo + sm_draw(s) as int % (hi - lo + 1)
}

/// A deterministic, seedable random source.
pub struct Rng64 {
    /// Current generator state.
    pub state: u64,
}

impl Rng64 {
    /// A generator that will replay the draw sequence of `seed`.
    pub fn new(seed: u64) -> (r: Rng64)
        ensures
            r.state == seed,
    {
        Rng64 { state: seed }
    }

    /// Draws the next raw 64-bit value and advances the state once.
    pub fn next_u64(&mut self) -> (r: u64)
        ensures
            final(self).state == sm_next(old(self).state),
            r == sm_draw(old(self).state),
    {
        self.state = self.state.wrapping_add(SM_GAMMA);
        let z0 = self.state;
        let z1 = (z0 ^ (z0 >> 30)).wrapping_mul(SM_MUL1);
        let z2 = (z1 ^ (z1 >> 27)).wrapping_mul(SM_MUL2);
        z2 ^ (z2 >> 31)
    }

    /// Draws a value of `[lo, hi]`, advancing the state once.
    pub fn next_in(&mut self, lo: i64, hi: i64) -> (r: i64)
        requires
            lo <= hi,
            hi - lo < u64::MAX,
        ensures
            final(self).state == sm_next(old(self).state),
            r == spec_draw_in(old(self).state, lo as int, hi as int),
            lo <= r <= hi,
    {
        let draw = self.next_u64();
        let span: u64 = ((hi as i128) - (lo as i128) + 1) as u64;
        let rem: u64 = draw % span;
        proof {
            assert(0 <= draw as int % (span as int) < span as int) by {
                vstd::arithmetic::div_mod::lemma_mod_bound(draw as int, span as int);
            }
        }
        ((lo as i128) + (rem as i128)) as i64
    }
}

} // verus!
