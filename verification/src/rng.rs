//! A small deterministic pseudo-random number generator.
//!
//! The engine owns its randomness as explicit state handed through the
//! generation and decision functions, so every run is reproducible from the
//! seed and every contract can speak about the values drawn.

use vstd::prelude::*;

verus! {

/// Multiplier of the linear congruential step.
pub const RNG_MUL: u64 = 6364136223846793005;
/// Increment of the linear congruential step.
pub const RNG_INC: u64 = 1442695040888963407;

/// The successor state of the generator.
pub open spec fn rng_next(state: u64) -> u64 {
    ((RNG_MUL * state + RNG_INC) % 0x1_0000_0000_0000_0000) as u64
}

/// Explicit pseudo-random generator state.
#[derive(Clone, Copy, Debug, PartialEq, Eq, Structural)]
pub struct RngState {
    pub state: u64,
}

impl RngState {
    /// A generator seeded with `seed`.
    pub fn new(seed: u64) -> (r: RngState)
        ensures
            r.state == seed,
    {
        RngState { state: seed }
    }

    /// Advances the state and returns its new value.
    pub fn next_u64(&mut self) -> (r: u64)
        ensures
            final(self).state == rng_next(old(self).state),
            r == final(self).state,
    {
        let wide: u128 = (RNG_MUL as u128) * (self.state as u128) + (RNG_INC as u128);
        let next: u64 = (wide % 0x1_0000_0000_0000_0000u128) as u64;
        proof {
            assert(next == rng_next(self.state)) by (nonlinear_arith)
                requires
                    wide == (RNG_MUL as int) * (self.state as int) + (RNG_INC as int),
                    next == wide as int % 0x1_0000_0000_0000_0000,
            ;
        }
        self.state = next;
        next
    }

    /// Draws a value below `n`.
    pub fn below(&mut self, n: u64) -> (r: u64)
        requires
            n > 0,
        ensures
            final(self).state == rng_next(old(self).state),
            r == rng_next(old(self).state) % n,
            r < n,
    {
        let v = self.next_u64();
        v % n
    }

    /// Draws a value in the inclusive range `lo..=hi`.
    pub fn range_inclusive(&mut self, lo: i32, hi: i32) -> (r: i32)
        requires
            lo <= hi,
            -1_000_000 <= lo,
            hi <= 1_000_000,
        ensures
            final(self).state == rng_next(old(self).state),
            lo <= r <= hi,
            r == lo + (rng_next(old(self).state) % ((hi - lo + 1) as u64)) as i32,
    {
        let span: u64 = (hi - lo) as u64 + 1;
        let v = self.below(span);
        lo + (v as i32)
    }
}

} // verus!
