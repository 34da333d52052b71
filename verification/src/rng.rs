//! Random draws, behind a seeded generator.
//!
//! The renderer consumes randomness as plain fixed-point values; the
//! generator itself comes from the `rand` crate and is the one unverified
//! ingredient, wrapped here.  Seeding is explicit so that a render can be
//! reproduced and each parallel task can own an independent stream.

use vstd::prelude::*;
use crate::fixed::SCALE;

verus! {

#[verifier::external_type_specification]
#[verifier::external_body]
pub struct ExStdRng(rand::rngs::StdRng);

/// A deterministic pseudo-random stream with an explicit seed.
pub struct RandomSource {
    inner: rand::rngs::StdRng,
}

/// Relies on rand's `SeedableRng::seed_from_u64` for `StdRng`: builds a
/// generator whose stream is a function of the 64-bit seed alone.
#[verifier::external_body]
fn seeded_generator(seed: u64) -> rand::rngs::StdRng {
    <rand::rngs::StdRng as rand::SeedableRng>::seed_from_u64(seed)
}

/// Relies on rand's `RngCore::next_u64` for `StdRng`: hands back the
/// generator's next 64 bits; nothing is promised of the value.
#[verifier::external_body]
fn next_bits(source: &mut RandomSource) -> u64 {
    rand::RngCore::next_u64(&mut source.inner)
}

impl RandomSource {
    pub fn new(seed: u64) -> RandomSource {
        RandomSource { inner: seeded_generator(seed) }
    }

    /// A draw from `[0, bound)`.
    pub fn next_below(&mut self, bound: u64) -> (r: u64)
        requires
            bound > 0,
        ensures
            r < bound,
    {
        let raw = next_bits(self);
        raw % bound
    }

    /// A fixed-point draw from the unit interval `[0, SCALE)`.
    pub fn next_unit(&mut self) -> (r: i64)
        ensures
            0 <= r < SCALE,
    {
        let raw = self.next_below(65536);
        raw as i64
    }

    /// A fixed-point draw from `[lo, hi)`.
    pub fn next_range(&mut self, lo: i64, hi: i64) -> (r: i64)
        requires
            lo < hi,
            hi - lo <= i64::MAX,
        ensures
            lo <= r < hi,
    {
        let span: i64 = hi - lo;
        let draw = self.next_below(span as u64);
        lo + (draw as i64)
    }
}

} // verus!
