//! The engine's random source: a small seedable xorshift stream.
//!
//! The engine consumes values from a single per-run source, threaded
//! through generation by mutable reference.  Nothing is promised about
//! the values drawn beyond their ranges; seeding deterministically gives
//! a reproducible run.

use vstd::prelude::*;

verus! {

/// A seedable stream of pseudo-random numbers.
pub struct Rng {
    state: u64,
}

impl Rng {
    /// A stream seeded with `seed`; equal seeds give equal streams.
    pub fn seeded(seed: u64) -> Rng {
        Rng { state: if seed == 0 { 0x9E3779B97F4A7C15u64 } else { seed } }
    }

    /// Draw the next raw word.
    pub fn next_u64(&mut self) -> u64 {
        let mut x = self.state;
        x = x ^ (x << 13);
        x = x ^ (x >> 7);
        x = x ^ (x << 17);
        self.state = x;
        x
    }

    /// Draw a boolean.
    pub fn next_bool(&mut self) -> bool {
        self.next_u64() & 1 == 1
    }

    /// Draw a byte.
    pub fn next_byte(&mut self) -> (r: u8) {
        let x = self.next_u64();
        let b = (x >> 32) & 0xFF;
        proof {
            assert((x >> 32) & 0xFF < 256) by (bit_vector);
        }
        b as u8
    }

    /// Draw a number below `n`.
    pub fn below(&mut self, n: usize) -> (r: usize)
        requires
            n > 0,
        ensures
            r < n,
    {
        let x = self.next_u64();
        let m = x % (n as u64);
        m as usize
    }
}

} // verus!
