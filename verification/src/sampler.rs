use crate::num::SCALE;
use vstd::prelude::*;

verus! {

/// Multiplier of the linear-congruential step.
pub const LCG_MUL: u64 = 6364136223846793005;

/// Increment of the linear-congruential step.
pub const LCG_ADD: u64 = 1442695040888963407;

/// The generator state after one linear-congruential step.
pub open spec fn lcg_next(s: u64) -> u64 {
    (((s as int) * (LCG_MUL as int) + (LCG_ADD as int)) % 0x1_0000_0000_0000_0000) as u64
}

/// The fixed-point value in `[0, SCALE)` read off a state: the upper half of
/// the state, reduced modulo one.
pub open spec fn unit_of(s: u64) -> int {
    ((s as int) / 0x1_0000_0000) % (SCALE as int)
}

/// A deterministic sample source for anti-aliasing jitter: explicit
/// linear-congruential state threaded through the render loop, so a fixed
/// seed reproduces an image byte for byte.
pub struct Sampler {
    pub state: u64,
}

impl Sampler {
    pub fn new(seed: u64) -> (s: Sampler)
        ensures
            s.state == seed,
    {
        Sampler { state: seed }
    }

    /// Draws a fixed-point value in `[0, 1)` and steps the state.
    pub fn next_unit(&mut self) -> (r: i128)
        ensures
            final(self).state == lcg_next(old(self).state),
            r == unit_of(final(self).state),
            0 <= r < SCALE,
    {
        proof {
            crate::num::lemma_mul_abs(self.state as int, LCG_MUL as int, 0xffff_ffff_ffff_ffff,
                LCG_MUL as int);
        }
        let wide: u128 = (self.state as u128) * (LCG_MUL as u128) + (LCG_ADD as u128);
        let next = (wide % 0x1_0000_0000_0000_0000) as u64;
        self.state = next;
        let hi = next / 0x1_0000_0000;
        (hi % (SCALE as u64)) as i128
    }
}

} // verus!
