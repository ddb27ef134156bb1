//! Bookkeeping of a particle swarm optimiser: particles, their personal bests,
//! the swarm-wide best, and the order in which one sweep visits them.
//!
//! Scores are IEEE-754 binary32 values carried as their bit patterns, so that
//! comparisons (NaN and signed zeros included) are stated and proved exactly.
//! Positions and velocities are of a type chosen by the caller: the library
//! copies them between fields and hands them to the caller's arithmetic.
use vstd::prelude::*;

pub mod binary32;
pub mod spawn;
pub mod swarm;

verus! {

pub use binary32::{less_than, INFINITY_BITS};
pub use spawn::spawn_generator;
pub use swarm::{Particle, ParticleWorld};

} // verus!
