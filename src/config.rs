//! Run parameters and their validation.
use vstd::prelude::*;
use crate::fixed::{in_range, MAX_MAGNITUDE};
use crate::vector::Vector;

verus! {

/// Why a configuration is refused before any particle is created.
#[derive(Clone, Copy, Debug, PartialEq, Eq, Structural)]
pub enum ConfigError {
    /// The swarm would have no particles.
    NoParticles,
    /// `x_max <= x_min`: the search domain is empty.
    EmptyDomain,
    /// The velocity clamp is negative.
    NegativeVelocityLimit,
    /// The time step is zero or negative.
    NonPositiveTimeStep,
    /// A coefficient, bound or seed coordinate exceeds `MAX_MAGNITUDE`.
    OutOfRange,
}

/// The parameters of one optimisation run. Every real-valued field is a
/// fixed-point number (see `fixed::ONE`).
#[derive(Clone, Copy, Debug)]
pub struct Config {
    pub n_particles: usize,
    pub x_min: i64,
    pub x_max: i64,
    /// Cognitive coefficient: pull towards the particle's own best.
    pub c1: i64,
    /// Social coefficient: pull towards the swarm's best.
    pub c2: i64,
    /// Scale of the initial velocities.
    pub alpha: i64,
    pub delta_t: i64,
    /// Initial inertia weight.
    pub inertia: i64,
    /// Multiplier applied to the inertia weight after each step.
    pub beta: i64,
    /// The inertia weight never decays below this value.
    pub inertia_floor: i64,
    pub v_max: i64,
    /// The run has converged once the best cost is below this value.
    pub threshold: i128,
    pub iterations: u64,
    /// The swarm's best position before any particle has been evaluated.
    pub seed_best: Vector,
}

impl Config {
    pub open spec fn scalars_in_range(self) -> bool {
        &&& in_range(self.x_min as int)
        &&& in_range(self.x_max as int)
        &&& in_range(self.c1 as int)
        &&& in_range(self.c2 as int)
        &&& in_range(self.alpha as int)
        &&& in_range(self.delta_t as int)
        &&& in_range(self.inertia as int)
        &&& in_range(self.beta as int)
        &&& in_range(self.inertia_floor as int)
        &&& in_range(self.v_max as int)
        &&& self.seed_best.bounded()
    }

    /// The first problem found, in the order of the variants of `ConfigError`.
    pub open spec fn spec_error(self) -> Option<ConfigError> {
        if self.n_particles == 0 {
            Some(ConfigError::NoParticles)
        } else if self.x_max <= self.x_min {
            Some(ConfigError::EmptyDomain)
        } else if self.v_max < 0 {
            Some(ConfigError::NegativeVelocityLimit)
        } else if self.delta_t <= 0 {
            Some(ConfigError::NonPositiveTimeStep)
        } else if !self.scalars_in_range() {
            Some(ConfigError::OutOfRange)
        } else {
            None
        }
    }

    pub open spec fn valid(self) -> bool {
        self.spec_error() is None
    }

    /// Checks the configuration before a run.
    pub fn error(&self) -> (r: Option<ConfigError>)
        ensures
            r == self.spec_error(),
    {
        if self.n_particles == 0 {
            Some(ConfigError::NoParticles)
        } else if self.x_max <= self.x_min {
            Some(ConfigError::EmptyDomain)
        } else if self.v_max < 0 {
            Some(ConfigError::NegativeVelocityLimit)
        } else if self.delta_t <= 0 {
            Some(ConfigError::NonPositiveTimeStep)
        } else if !(within(self.x_min) && within(self.x_max) && within(self.c1) && within(self.c2)
            && within(self.alpha) && within(self.delta_t) && within(self.inertia) && within(
            self.beta,
        ) && within(self.inertia_floor) && within(self.v_max) && within(self.seed_best.x)
            && within(self.seed_best.y)) {
            Some(ConfigError::OutOfRange)
        } else {
            None
        }
    }
}

fn within(v: i64) -> (r: bool)
    ensures
        r == in_range(v as int),
{
    -MAX_MAGNITUDE <= v && v <= MAX_MAGNITUDE
}

} // verus!
