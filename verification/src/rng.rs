//! Deterministic, position-seeded randomness for the generator.
//!
//! There is no process-wide generator state: every draw sequence is
//! derived per call from `(world seed, category tag, column coordinates)`
//! through a fixed non-cryptographic mixing function, so the same world
//! seed always produces identical results at identical coordinates,
//! independent of generation order or parallelism.

use vstd::prelude::*;

verus! {

/// Category tag for tree placement: the bytes `TREE` read as an integer.
pub const TREE_TAG: u64 = 0x54524545;

/// The 64-bit finalizer of the mixing function: xor-shift and
/// multiply rounds that spread every input bit over the whole word.
pub open spec fn spec_mix64(z: u64) -> u64 {
    let a = (z ^ (z >> 30)).wrapping_mul(0xBF58476D1CE4E5B9u64);
    let b = (a ^ (a >> 27)).wrapping_mul(0x94D049BB133111EBu64);
    b ^ (b >> 31)
}

/// The generator state derived from the world seed, a category tag, and
/// one pair of global column coordinates.
pub open spec fn spec_seeded_state(seed: u64, tag: u64, i: int, j: int) -> u64 {
    let a = spec_mix64(seed ^ 0x9E3779B97F4A7C15u64);
    let b = spec_mix64(a ^ tag);
    let c = spec_mix64(b ^ (i as u64));
    spec_mix64(c ^ (j as u64))
}

/// The state advanced by one draw.
pub open spec fn spec_rng_next_state(s: u64) -> u64 {
    s.wrapping_add(0x9E3779B97F4A7C15u64)
}

/// The value produced by one draw from state `s` (after advancing).
pub open spec fn spec_rng_output(s: u64) -> u64 {
    spec_mix64(spec_rng_next_state(s))
}

/// A position-seeded pseudo-random generator: a 64-bit counter state with
/// a mixing finalizer per draw.
pub struct GenRng {
    state: u64,
}

impl GenRng {
    /// The current counter state.
    pub closed spec fn state(self) -> u64 {
        self.state
    }

    /// Derives the generator for `(seed, tag, (i, j))`.
    pub fn from_parts(seed: u64, tag: u64, i: i64, j: i64) -> (rng: GenRng)
        ensures
            rng.state() == spec_seeded_state(seed, tag, i as int, j as int),
    {
        let a = mix64(seed ^ 0x9E3779B97F4A7C15u64);
        let b = mix64(a ^ tag);
        let c = mix64(b ^ (i as u64));
        GenRng { state: mix64(c ^ (j as u64)) }
    }

    /// Draws the next 64-bit value.
    pub fn next_u64(&mut self) -> (v: u64)
        ensures
            final(self).state() == spec_rng_next_state(old(self).state()),
            v == spec_rng_output(old(self).state()),
    {
        self.state = self.state.wrapping_add(0x9E3779B97F4A7C15u64);
        mix64(self.state)
    }
}

/// Executable finalizer; see [`spec_mix64`].
fn mix64(z: u64) -> (r: u64)
    ensures
        r == spec_mix64(z),
{
    let a = (z ^ (z >> 30)).wrapping_mul(0xBF58476D1CE4E5B9u64);
    let b = (a ^ (a >> 27)).wrapping_mul(0x94D049BB133111EBu64);
    b ^ (b >> 31)
}

} // verus!
