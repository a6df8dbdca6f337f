//! Random sampling, as an explicit generator resource.
//!
//! Each render worker owns one `Rng` and passes it into every sampling
//! call, so generator lifetime and independence are visible in the code.
//! The generator itself comes from the `rand` crate; only the two small
//! wrappers below are trusted.

use crate::common::fx::SCALE;
use vstd::prelude::*;

verus! {

#[verifier::external_type_specification]
#[verifier::external_body]
pub struct ExSmallRng(rand::rngs::SmallRng);

/// A pseudo-random generator owned by one worker.
pub struct Rng {
    inner: rand::rngs::SmallRng,
}

/// Relies on rand's `SmallRng::from_entropy`: a fresh generator seeded from
/// system entropy, independent of every other generator.
#[verifier::external_body]
pub fn new_rng() -> (r: Rng) {
    Rng { inner: <rand::rngs::SmallRng as rand::SeedableRng>::from_entropy() }
}

/// Relies on rand's `Rng::gen_range` on an `i64` half-open range: it returns
/// a value in `[lower, upper)` and panics only when the range is empty,
/// which the precondition rules out.
#[verifier::external_body]
pub fn range(rng: &mut Rng, lower: i64, upper: i64) -> (r: i64)
    requires
        lower < upper,
    ensures
        lower <= r < upper,
{
    rand::Rng::gen_range(&mut rng.inner, lower..upper)
}

/// A sample in `[0, 1)`, in fixed-point quanta.
pub fn unit(rng: &mut Rng) -> (r: i64)
    ensures
        0 <= r < SCALE,
{
    range(rng, 0, SCALE)
}

} // verus!
