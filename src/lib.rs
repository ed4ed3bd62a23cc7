//! Particle swarm optimisation over fixed-point numbers, with verified
//! contracts for initialisation, best tracking, the velocity and position
//! update, the inertia schedule and the optimiser loop.
use vstd::prelude::*;

pub mod config;
pub mod fixed;
pub mod inertia;
pub mod objective;
pub mod optimizer;
pub mod particle;
pub mod random;
pub mod swarm;
pub mod vector;

verus! {

} // verus!
