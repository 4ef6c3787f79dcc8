//! Pseudo random numbers: a generator of the `rand_xoshiro` crate, seeded
//! through a hasher of the `wyhash` crate.

use vstd::prelude::*;
use rand::{Rng, SeedableRng};
use rand_xoshiro::Xoroshiro128PlusPlus;
use std::hash::Hasher;
use wyhash::WyHash;

verus! {

/// The generator of the `rand_xoshiro` crate. Nothing is known of its
/// state.
#[verifier::external_type_specification]
#[verifier::external_body]
pub struct ExXoroshiro128PlusPlus(Xoroshiro128PlusPlus);

/// The hasher of the `wyhash` crate. Nothing is known of its state.
#[verifier::external_type_specification]
#[verifier::external_body]
pub struct ExWyHash(WyHash);

/// `Rng::gen_range` on a half-open range of `u32`: some number of the
/// range, which must not be empty.
#[verifier::external_body]
fn rng_gen_range_u32(rng: &mut Xoroshiro128PlusPlus, low: u32, high: u32) -> (n: u32)
    requires
        low < high,
    ensures
        low <= n < high,
{
    rng.gen_range(low..high)
}

/// `Rng::gen_range` on a half-open range of `usize`: some number of the
/// range, which must not be empty.
#[verifier::external_body]
fn rng_gen_range_usize(rng: &mut Xoroshiro128PlusPlus, low: usize, high: usize) -> (n: usize)
    requires
        low < high,
    ensures
        low <= n < high,
{
    rng.gen_range(low..high)
}

/// `Rng::gen_ratio`: a boolean that is certainly true where the numerator
/// equals the denominator and certainly false where the numerator is 0. The
/// denominator must not be 0 nor less than the numerator.
#[verifier::external_body]
fn rng_gen_ratio(rng: &mut Xoroshiro128PlusPlus, numerator: u32, denominator: u32) -> (b: bool)
    requires
        denominator > 0,
        numerator <= denominator,
    ensures
        numerator == denominator ==> b,
        numerator == 0 ==> !b,
{
    rng.gen_ratio(numerator, denominator)
}

/// `Rng::gen` for `bool`: some boolean.
#[verifier::external_body]
fn rng_gen_bool(rng: &mut Xoroshiro128PlusPlus) -> bool {
    rng.gen::<bool>()
}

/// `SeedableRng::seed_from_u64`: a generator made from the seed.
#[verifier::external_body]
fn rng_seed_from_u64(seed: u64) -> Xoroshiro128PlusPlus {
    Xoroshiro128PlusPlus::seed_from_u64(seed)
}

/// `rand::random`: some number, drawn from the generator of the thread.
#[verifier::external_body]
fn random_seed() -> u64 {
    rand::random::<u64>()
}

/// `WyHash::with_seed`: a hasher that starts from the seed.
#[verifier::external_body]
fn hasher_with_seed(seed: u64) -> WyHash {
    WyHash::with_seed(seed)
}

/// `Hasher::write_i32`: feeds the number to the hasher.
#[verifier::external_body]
fn hasher_write_i32(hasher: &mut WyHash, val: i32) {
    hasher.write_i32(val);
}

/// `Hasher::write_u32`: feeds the number to the hasher.
#[verifier::external_body]
fn hasher_write_u32(hasher: &mut WyHash, val: u32) {
    hasher.write_u32(val);
}

/// `Hasher::write_u64`: feeds the number to the hasher.
#[verifier::external_body]
fn hasher_write_u64(hasher: &mut WyHash, val: u64) {
    hasher.write_u64(val);
}

/// `Hasher::finish`: the hash of what was fed so far.
#[verifier::external_body]
fn hasher_finish(hasher: &WyHash) -> u64 {
    hasher.finish()
}

/// A pseudo random number generator.
pub struct PRng(Xoroshiro128PlusPlus);

impl PRng {
    /// Some number `n` with `low <= n < high`.
    pub fn gen_range(&mut self, low: u32, high: u32) -> (n: u32)
        requires
            low < high,
        ensures
            low <= n < high,
    {
        rng_gen_range_u32(&mut self.0, low, high)
    }

    /// Some index `n` with `low <= n < high`.
    pub fn gen_range_usize(&mut self, low: usize, high: usize) -> (n: usize)
        requires
            low < high,
        ensures
            low <= n < high,
    {
        rng_gen_range_usize(&mut self.0, low, high)
    }

    /// A boolean that is true with the given odds: always with odds of 1,
    /// never with odds of 0.
    pub fn gen_ratio(&mut self, numerator: u32, denominator: u32) -> (b: bool)
        requires
            denominator > 0,
            numerator <= denominator,
        ensures
            numerator == denominator ==> b,
            numerator == 0 ==> !b,
    {
        rng_gen_ratio(&mut self.0, numerator, denominator)
    }

    /// Some boolean.
    pub fn gen_bool(&mut self) -> bool {
        rng_gen_bool(&mut self.0)
    }
}

/// Collects what a generator is seeded with.
pub struct PRngBuilder {
    hasher: WyHash,
}

impl PRngBuilder {
    /// A builder that starts from the given seed.
    pub fn new_seeded(seed: u64) -> PRngBuilder {
        PRngBuilder { hasher: hasher_with_seed(seed) }
    }

    /// A builder that starts from a seed drawn at random.
    pub fn new() -> PRngBuilder {
        PRngBuilder { hasher: hasher_with_seed(random_seed()) }
    }

    pub fn write_i32(self, val: i32) -> PRngBuilder {
        let mut builder = self;
        hasher_write_i32(&mut builder.hasher, val);
        builder
    }

    pub fn write_u32(self, val: u32) -> PRngBuilder {
        let mut builder = self;
        hasher_write_u32(&mut builder.hasher, val);
        builder
    }

    pub fn write_u64(self, val: u64) -> PRngBuilder {
        let mut builder = self;
        hasher_write_u64(&mut builder.hasher, val);
        builder
    }

    /// The generator seeded with the hash of everything written.
    pub fn build(self) -> PRng {
        PRng(rng_seed_from_u64(hasher_finish(&self.hasher)))
    }
}

} // verus!
