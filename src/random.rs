//! Sources of uniform draws, injected into the swarm so that a run can be
//! repeated from a seed.
use vstd::prelude::*;
use crate::fixed::ONE;
use crate::particle::unit_draw;

verus! {

#[verifier::external_type_specification]
#[verifier::external_body]
pub struct ExStdRng(rand::rngs::StdRng);

/// Relies on `rand::SeedableRng::seed_from_u64` for `StdRng`: a generator
/// whose stream is fixed by the seed. Nothing is stated of the stream.
#[verifier::external_body]
fn seeded_rng(seed: u64) -> (r: rand::rngs::StdRng) {
    rand::SeedableRng::seed_from_u64(seed)
}

/// Relies on `rand::Rng::gen_range` over the half-open range `0..bound`,
/// which is not empty here: the sample lies in the range.
#[verifier::external_body]
fn sample_below(rng: &mut rand::rngs::StdRng, bound: i64) -> (r: i64)
    requires
        bound > 0,
    ensures
        0 <= r < bound,
{
    rand::Rng::gen_range(rng, 0..bound)
}

/// A stream of uniform draws from `[0, 1)`, as fixed-point numbers.
pub trait RandomSource {
    /// The draws handed out so far, oldest first.
    spec fn drawn(&self) -> Seq<i64>;

    fn next_unit(&mut self) -> (r: i64)
        ensures
            unit_draw(r as int),
            final(self).drawn() == old(self).drawn().push(r),
    ;
}

/// Uniform draws from rand's standard generator, seeded explicitly: two
/// sources made from one seed yield the same stream.
pub struct UniformSource {
    rng: rand::rngs::StdRng,
    history: Ghost<Seq<i64>>,
}

impl UniformSource {
    pub fn seeded(seed: u64) -> (s: UniformSource)
        ensures
            s.drawn() == Seq::<i64>::empty(),
    {
        UniformSource { rng: seeded_rng(seed), history: Ghost(Seq::empty()) }
    }
}

impl RandomSource for UniformSource {
    closed spec fn drawn(&self) -> Seq<i64> {
        self.history@
    }

    fn next_unit(&mut self) -> (r: i64) {
        let r = sample_below(&mut self.rng, ONE);
        self.history = Ghost(self.history@.push(r));
        r
    }
}

} // verus!
