//! The random source of the uncertainty jitter, an explicitly owned generator.
use vstd::prelude::*;
use rand::rngs::StdRng;
use rand::{Rng, SeedableRng};
use crate::fixed::{Vec3, LIMIT};
use crate::particle::Jitter;

verus! {

#[verifier::external_type_specification]
#[verifier::external_body]
pub struct ExStdRng(StdRng);

#[verifier::external_type_specification]
#[verifier::external_body]
pub struct ExRandError(rand::Error);

/// Relies on rand's `SeedableRng::seed_from_u64` for `StdRng`: a generator whose
/// stream is fixed by the seed.
#[verifier::external_body]
fn generator_from_seed(seed: u64) -> (r: StdRng) {
    StdRng::seed_from_u64(seed)
}

/// Relies on rand's `SeedableRng::from_rng` for `StdRng`, fed by `OsRng`: fails
/// when the operating system's entropy source cannot be read.
#[verifier::external_body]
fn generator_from_os() -> (r: Result<StdRng, rand::Error>) {
    StdRng::from_rng(rand::rngs::OsRng)
}

/// Relies on rand's `Rng::gen_range` on `i64` with a half-open range: a value in
/// `[low, high)`; it panics on an empty range, which `requires` excludes.
#[verifier::external_body]
fn uniform_in(rng: &mut StdRng, low: i64, high: i64) -> (r: i64)
    requires
        low < high,
    ensures
        low <= r < high,
{
    rng.gen_range(low..high)
}

/// The random generator could not be created.
#[derive(Clone, Copy, Debug, PartialEq, Eq, Structural)]
pub enum RandomSourceError {
    EntropyUnavailable,
}

/// Each component lies in `[-bound, bound)`, and all are zero when `bound` is zero.
pub open spec fn jitter_drawn(j: Jitter, bound: int) -> bool {
    if bound == 0 {
        j.position.is_zero() && j.velocity.is_zero()
    } else {
        &&& -bound <= j.position.x < bound
        &&& -bound <= j.position.y < bound
        &&& -bound <= j.position.z < bound
        &&& -bound <= j.velocity.x < bound
        &&& -bound <= j.velocity.y < bound
        &&& -bound <= j.velocity.z < bound
    }
}

/// Source of uniformly distributed jitter components.
pub struct NoiseSource {
    rng: StdRng,
}

impl NoiseSource {
    /// A reproducible source: the same seed gives the same stream.
    pub fn from_seed(seed: u64) -> (r: NoiseSource) {
        NoiseSource { rng: generator_from_seed(seed) }
    }

    /// A source seeded from the operating system.
    pub fn from_entropy() -> (r: Result<NoiseSource, RandomSourceError>) {
        match generator_from_os() {
            Ok(rng) => Ok(NoiseSource { rng }),
            Err(_) => Err(RandomSourceError::EntropyUnavailable),
        }
    }

    /// One draw in `[-bound, bound)`; no draw is made for a zero bound.
    pub fn offset(&mut self, bound: i64) -> (r: i64)
        requires
            0 <= bound <= LIMIT,
        ensures
            bound == 0 ==> r == 0,
            bound > 0 ==> -bound <= r < bound,
    {
        if bound == 0 {
            0
        } else {
            uniform_in(&mut self.rng, -bound, bound)
        }
    }

    /// Six independent draws, one per position and velocity component.
    pub fn jitter(&mut self, bound: i64) -> (r: Jitter)
        requires
            0 <= bound <= LIMIT,
        ensures
            jitter_drawn(r, bound as int),
            r.within(LIMIT as int),
    {
        let px = self.offset(bound);
        let py = self.offset(bound);
        let pz = self.offset(bound);
        let vx = self.offset(bound);
        let vy = self.offset(bound);
        let vz = self.offset(bound);
        Jitter { position: Vec3 { x: px, y: py, z: pz }, velocity: Vec3 { x: vx, y: vy, z: vz } }
    }
}

} // verus!
