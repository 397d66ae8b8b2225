//! The engine's source of randomness: a seeded generator from the `rand`
//! crate, reached through a few trusted wrappers.
//!
//! Each wrapper promises only what `rand`'s documentation does — that a draw
//! lies in the requested non-empty interval. Nothing pins which value comes
//! back, so everything proved about the engine holds for every outcome.

use rand::Rng;
use vstd::prelude::*;

verus! {

#[verifier::external_type_specification]
#[verifier::external_body]
pub struct ExStdRng(rand::rngs::StdRng);

/// Relies on `rand::SeedableRng::seed_from_u64`: builds a generator from a
/// 64-bit seed. Nothing is promised of the generator's state.
#[verifier::external_body]
pub fn rng_from_seed(seed: u64) -> rand::rngs::StdRng {
    <rand::rngs::StdRng as rand::SeedableRng>::seed_from_u64(seed)
}

/// Relies on `rand::Rng::gen_range`: a uniform draw from the half-open
/// interval `[lo, hi)`, which panics on an empty interval — ruled out here.
#[verifier::external_body]
pub fn draw_usize(rng: &mut rand::rngs::StdRng, lo: usize, hi: usize) -> (r: usize)
    requires
        lo < hi,
    ensures
        lo <= r < hi,
{
    rng.gen_range(lo..hi)
}

/// Relies on `rand::Rng::gen_range`: a uniform draw from the half-open
/// interval `[lo, hi)`, which panics on an empty interval — ruled out here.
#[verifier::external_body]
pub fn draw_u32(rng: &mut rand::rngs::StdRng, lo: u32, hi: u32) -> (r: u32)
    requires
        lo < hi,
    ensures
        lo <= r < hi,
{
    rng.gen_range(lo..hi)
}

/// Relies on `rand::Rng::gen_range`: a uniform draw from the closed
/// interval `[lo, hi]`, which panics on an empty interval — ruled out here.
#[verifier::external_body]
pub fn draw_i64_inclusive(rng: &mut rand::rngs::StdRng, lo: i64, hi: i64) -> (r: i64)
    requires
        lo <= hi,
    ensures
        lo <= r <= hi,
{
    rng.gen_range(lo..=hi)
}

} // verus!
