//! A tiny deterministic PRNG so scene selection is reproducible in tests.
use vstd::prelude::*;
use vstd::wrapping::u64_specs::{wrapping_add, wrapping_mul};

verus! {

/// The splitmix64 finalizer applied to `seed`, forced odd (a valid xorshift state).
pub open spec fn seed_state(seed: u64) -> u64 {
    let z = wrapping_add(seed, 0x9E37_79B9_7F4A_7C15);
    let z = wrapping_mul(z ^ (z >> 30u64), 0xBF58_476D_1CE4_E5B9);
    let z = wrapping_mul(z ^ (z >> 27u64), 0x94D0_49BB_1331_11EB);
    let z = z ^ (z >> 31u64);
    z | 1
}

/// One xorshift64 step.
pub open spec fn xorshift(x: u64) -> u64 {
    let x = x ^ (x << 13u64);
    let x = x ^ (x >> 7u64);
    x ^ (x << 17u64)
}

/// The draw that follows state `x`: the high 32 bits of the next state.
pub open spec fn draw(x: u64) -> u32 {
    (xorshift(x) >> 32u64) as u32
}

/// A small xorshift64 generator.
#[derive(Debug, Clone)]
pub struct Rng(u64);

impl Rng {
    /// The generator's state.
    pub closed spec fn state(&self) -> u64 {
        self.0
    }

    /// Create a generator from `seed`.
    ///
    /// The seed is run through the splitmix64 finalizer first, so small seeds are
    /// spread across all 64 bits and the very first draw is already well distributed.
    pub fn new(seed: u64) -> (r: Self)
        ensures
            r.state() == seed_state(seed),
    {
        let mut z = seed.wrapping_add(0x9E37_79B9_7F4A_7C15);
        z = (z ^ (z >> 30)).wrapping_mul(0xBF58_476D_1CE4_E5B9);
        z = (z ^ (z >> 27)).wrapping_mul(0x94D0_49BB_1331_11EB);
        z = z ^ (z >> 31);
        Rng(z | 1)
    }

    /// Next pseudo-random `u32`.
    pub fn next_u32(&mut self) -> (v: u32)
        ensures
            final(self).state() == xorshift(old(self).state()),
            v == draw(old(self).state()),
    {
        let mut x = self.0;
        x = x ^ (x << 13);
        x = x ^ (x >> 7);
        x = x ^ (x << 17);
        self.0 = x;
        (x >> 32) as u32
    }

    /// A value in `0..n` (returns 0 when `n == 0`), matching `rand() % n`.
    pub fn below(&mut self, n: u32) -> (v: u32)
        ensures
            n == 0 ==> v == 0 && final(self).state() == old(self).state(),
            n > 0 ==> v == draw(old(self).state()) % n && v < n && final(self).state() == xorshift(
                old(self).state(),
            ),
    {
        if n == 0 {
            0
        } else {
            self.next_u32() % n
        }
    }
}

} // verus!
