//! The generator that initial positions are drawn from: one fixed seed, so
//! that two swarms built with the same count and spread start alike.
use vstd::prelude::*;

verus! {

/// rand_pcg's 128-bit multiplicative congruential generator, held opaque.
#[verifier::external_type_specification]
#[verifier::external_body]
pub struct ExMcg128Xsl64(rand_pcg::Mcg128Xsl64);

/// The generator that rand_pcg's `Mcg128Xsl64::new` builds from `state`.
pub uninterp spec fn seeded(state: u128) -> rand_pcg::Mcg128Xsl64;

/// Relies on rand_pcg's `Mcg128Xsl64::new`, which builds a generator from its
/// initial state alone (no entropy, no clock): equal states give equal
/// generators.
pub assume_specification[ rand_pcg::Mcg128Xsl64::new ](state: u128) -> (r: rand_pcg::Mcg128Xsl64)
    ensures
        r == seeded(state),
;

/// The initial state of every spawn generator.
pub const SPAWN_SEED: u128 = 0xcafef00dd15ea5e5;

/// A generator in the state that every swarm's initial positions are drawn
/// from, particle after particle and coordinate after coordinate.
pub fn spawn_generator() -> (r: rand_pcg::Mcg128Xsl64)
    ensures
        r == seeded(SPAWN_SEED),
{
    rand_pcg::Mcg128Xsl64::new(SPAWN_SEED)
}

} // verus!
