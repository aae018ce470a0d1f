//! The integer lattice hashes under the value noise that shapes generated terrain. The
//! noise itself interpolates in floating point and is computed by the caller from these.

use vstd::prelude::*;
use crate::terrain::wmul;

verus! {

/// A seeded value-noise source.
pub struct Noise2D {
    seed: u32,
}

/// The final avalanche of the lattice hashes.
pub open spec fn mix(h: u32) -> u32 {
    let a = wmul(h ^ (h >> 13u32), 1274126177);
    a ^ (a >> 16u32)
}

/// The 24-bit hash of 2-d lattice point (x, z) under `seed`.
pub open spec fn lattice_hash_spec(seed: u32, x: i32, z: i32) -> u32 {
    mix(wmul(x as u32, 374761393) ^ wmul(z as u32, 668265263) ^ wmul(seed, 2246822519)) & 0xFF_FFFFu32
}

/// The 24-bit hash of 3-d lattice point (x, y, z) under `seed`.
pub open spec fn lattice3d_hash_spec(seed: u32, x: i32, y: i32, z: i32) -> u32 {
    mix(wmul(x as u32, 374761393) ^ wmul(y as u32, 3266489917) ^ wmul(z as u32, 668265263) ^ wmul(
        seed,
        2246822519,
    )) & 0xFF_FFFFu32
}

impl Noise2D {
    /// The seed this source was made with.
    pub closed spec fn spec_seed(&self) -> u32 {
        self.seed
    }

    pub fn new(seed: u32) -> (n: Self)
        ensures
            n.spec_seed() == seed,
    {
        Noise2D { seed }
    }

    pub fn seed(&self) -> (s: u32)
        ensures
            s == self.spec_seed(),
    {
        self.seed
    }

    /// The 24-bit hash of lattice point (x, z); the lattice value is `hash / 0x7FFFFF - 1`.
    pub fn lattice_hash(&self, x: i32, z: i32) -> (h: u32)
        ensures
            h == lattice_hash_spec(self.spec_seed(), x, z),
            h <= 0xFF_FFFF,
    {
        let mut h = (x as u32).wrapping_mul(374761393);
        h ^= (z as u32).wrapping_mul(668265263);
        h ^= self.seed.wrapping_mul(2246822519);
        h = (h ^ (h >> 13u32)).wrapping_mul(1274126177);
        h ^= h >> 16u32;
        let r = h & 0xFF_FFFFu32;
        assert(r <= 0xFF_FFFF) by (bit_vector)
            requires r == h & 0xFF_FFFFu32;
        r
    }

    /// The 24-bit hash of lattice point (x, y, z); the lattice value is `hash / 0x7FFFFF - 1`.
    pub fn lattice3d_hash(&self, x: i32, y: i32, z: i32) -> (h: u32)
        ensures
            h == lattice3d_hash_spec(self.spec_seed(), x, y, z),
            h <= 0xFF_FFFF,
    {
        let mut h = (x as u32).wrapping_mul(374761393);
        h ^= (y as u32).wrapping_mul(3266489917);
        h ^= (z as u32).wrapping_mul(668265263);
        h ^= self.seed.wrapping_mul(2246822519);
        h = (h ^ (h >> 13u32)).wrapping_mul(1274126177);
        h ^= h >> 16u32;
        let r = h & 0xFF_FFFFu32;
        assert(r <= 0xFF_FFFF) by (bit_vector)
            requires r == h & 0xFF_FFFFu32;
        r
    }
}

} // verus!
