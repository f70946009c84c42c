//! A seeded, deterministic random source.
//!
//! Shuffling and weight initialization draw from an explicit random-source
//! object passed in by the caller, never from ambient process randomness:
//! training is therefore a function of its arguments, and two runs from one
//! seed are identical. The generator is a linear congruential generator on
//! 64 bits whose next state and draws are specified exactly.

use vstd::prelude::*;

verus! {

use vstd::wrapping::u64_specs;

/// Multiplier of the linear congruential step.
pub const RNG_MUL: u64 = 6364136223846793005;

/// Increment of the linear congruential step.
pub const RNG_INC: u64 = 1442695040888963407;

/// The state after one linear congruential step.
pub open spec fn spec_next_state(s: u64) -> u64 {
    u64_specs::wrapping_add(u64_specs::wrapping_mul(s, RNG_MUL), RNG_INC)
}

/// The state after `k` steps.
pub open spec fn spec_state_after(s: u64, k: int) -> u64
    decreases k,
    when k >= 0
{
    if k <= 0 {
        s
    } else {
        spec_next_state(spec_state_after(s, k - 1))
    }
}

/// Stepping `a + b` times is stepping `a` times, then `b` times.
pub proof fn lemma_state_after_add(s: u64, a: int, b: int)
    requires
        a >= 0,
        b >= 0,
    ensures
        spec_state_after(s, a + b) == spec_state_after(spec_state_after(s, a), b),
    decreases b,
{
    if b > 0 {
        lemma_state_after_add(s, a, b - 1);
    }
}

/// The value drawn from state `s` for a positive bound: the stepped state's
/// upper bits, reduced modulo the bound.
pub open spec fn spec_draw(s: u64, bound: int) -> int
    recommends
        bound > 0,
{
    (spec_next_state(s) / 0x2_0000_0000) as int % bound
}

/// A deterministic random source: a 64-bit linear congruential generator.
pub struct RandomSource {
    state: u64,
}

impl View for RandomSource {
    type V = u64;

    closed spec fn view(&self) -> u64 {
        self.state
    }
}

impl RandomSource {
    /// A source whose whole future is fixed by `seed`.
    pub fn new(seed: u64) -> (r: RandomSource)
        ensures
            r@ == seed,
    {
        RandomSource { state: seed }
    }

    /// Draw a value below `bound`, stepping the state once.
    pub fn next_below(&mut self, bound: usize) -> (r: usize)
        requires
            bound > 0,
        ensures
            final(self)@ == spec_next_state(old(self)@),
            r as int == spec_draw(old(self)@, bound as int),
            r < bound,
    {
        self.state = self.state.wrapping_mul(RNG_MUL).wrapping_add(RNG_INC);
        let shifted: u64 = self.state / 0x2_0000_0000;
        (shifted % (bound as u64)) as usize
    }
}

} // verus!
