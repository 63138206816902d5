//! A small deterministic noise generator, seeded explicitly so that every
//! rendering of a performance is reproducible and tests are deterministic.
//!
//! The generator is a 64-bit xorshift; each draw scrambles the state and
//! hands out sixteen of its middle bits recentered into `[-UNIT, UNIT)`.

use vstd::prelude::*;

use crate::UNIT;

verus! {

/// The state a zero seed falls back to (a xorshift state must be nonzero to
/// move).
pub const SEED_FALLBACK: u64 = 0x9e3779b97f4a7c15;

/// One xorshift round of the generator state.
pub open spec fn spec_scramble(x: u64) -> u64 {
    let a = x ^ (x << 13);
    let b = a ^ (a >> 7);
    b ^ (b << 17)
}

/// The sample handed out for a given state: sixteen middle bits, recentered
/// to be bipolar.
pub open spec fn spec_noise_of(state: u64) -> int {
    (((state >> 32) & 0xffff) as int) - 32768
}

/// A seedable deterministic noise source.
#[derive(Clone, Copy, Debug)]
pub struct NoiseSource {
    /// Generator state; nonzero after seeding.
    pub state: u64,
}

impl NoiseSource {
    /// Seed the generator; a zero seed is replaced by a fixed nonzero state.
    pub fn new(seed: u64) -> (r: NoiseSource)
        ensures
            r.state == if seed == 0 {
                SEED_FALLBACK
            } else {
                seed
            },
    {
        NoiseSource { state: if seed == 0 {
            SEED_FALLBACK
        } else {
            seed
        } }
    }

    /// Draw one bipolar noise sample in `[-UNIT, UNIT)`.
    pub fn next(&mut self) -> (r: i32)
        ensures
            final(self).state == spec_scramble(old(self).state),
            r as int == spec_noise_of(final(self).state),
            -UNIT <= r < UNIT,
    {
        let x0: u64 = self.state;
        let a: u64 = x0 ^ (x0 << 13);
        let b: u64 = a ^ (a >> 7);
        let c: u64 = b ^ (b << 17);
        self.state = c;
        let bits: u64 = (c >> 32) & 0xffff;
        proof {
            assert((c >> 32) & 0xffff < 0x10000) by (bit_vector);
        }
        bits as i32 - UNIT
    }
}

} // verus!
