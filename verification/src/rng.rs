//! Pseudo-random numbers for sampling.
//!
//! The generator is an explicit value passed to everything that samples,
//! so a render is reproducible from its seed: the successor of a state is
//! a spec function, and every draw is stated exactly. A fresh,
//! unpredictable seed can be taken from the process-wide generator of the
//! `rand` crate through [`random_seed`].

use vstd::prelude::*;

verus! {

/// Multiplier of the linear congruential step.
pub const STEP_MUL: u64 = 6364136223846793005;

/// Increment of the linear congruential step.
pub const STEP_ADD: u64 = 1442695040888963407;

/// The successor of a generator state.
pub open spec fn next_state(s: int) -> int {
    (s * 6364136223846793005 + 1442695040888963407) % 0x1_0000_0000_0000_0000
}

/// The value of a draw in the half-open range from `lo` to `hi`, taken
/// from the state `s`: the successor state, folded into the range.
pub open spec fn draw_v(s: int, lo: int, hi: int) -> int {
    lo + next_state(s) % (hi - lo)
}

/// A deterministic pseudo-random generator: a linear congruential
/// sequence over the full 64-bit state.
pub struct Rng {
    /// Current state; the next draw is a function of it alone.
    pub state: u64,
}

impl Rng {
    /// A generator starting from the given seed.
    pub fn new(seed: u64) -> (r: Rng)
        ensures
            r.state == seed,
    {
        Rng { state: seed }
    }

    /// Advances the state once and returns it as the draw.
    pub fn next_u64(&mut self) -> (r: u64)
        ensures
            final(self).state as int == next_state(old(self).state as int),
            r == final(self).state,
    {
        let w: u128 = (self.state as u128) * 6364136223846793005u128 + 1442695040888963407u128;
        let s: u64 = (w % 0x1_0000_0000_0000_0000u128) as u64;
        proof {
            assert(w as int == (old(self).state as int) * 6364136223846793005
                + 1442695040888963407);
        }
        self.state = s;
        s
    }

    /// A draw below `n`.
    pub fn next_below(&mut self, n: u64) -> (r: u64)
        requires
            n >= 1,
        ensures
            final(self).state as int == next_state(old(self).state as int),
            r as int == next_state(old(self).state as int) % (n as int),
            r < n,
    {
        let d = self.next_u64();
        d % n
    }

    /// A draw in the half-open range from `lo` to `hi`.
    pub fn next_range(&mut self, lo: i64, hi: i64) -> (r: i64)
        requires
            lo < hi,
            hi - lo <= i64::MAX,
        ensures
            final(self).state as int == next_state(old(self).state as int),
            r as int == draw_v(old(self).state as int, lo as int, hi as int),
            lo <= r < hi,
    {
        let span: u64 = (hi - lo) as u64;
        let d = self.next_below(span);
        lo + (d as i64)
    }
}

/// Relies on rand::random: a fresh draw from the thread-local generator
/// of the `rand` crate. Nothing is promised of the value.
#[verifier::external_body]
pub fn random_seed() -> u64 {
    rand::random::<u64>()
}

} // verus!
