//! A verified two-dimensional particle simulator.
//!
//! Circular particles move on an integer lattice under Verlet integration.
//! Each substep relaxes pairwise overlaps by position correction, confines
//! every particle to a circular boundary and then advances it by one step.
//! All arithmetic is exact integer arithmetic: the caller chooses how many
//! lattice units make up one unit of length.
//!
//! The modules, from the ground up:
//!
//! - [`sqrt`]: integer square roots.
//! - [`vector`]: lattice vectors and their model.
//! - [`body`]: the model of one particle, with its step and its confinement.
//! - [`collision`]: the model of the correction of an overlapping pair.
//! - [`particle`]: particles with machine-word coordinates, proved against
//!   the two models.
//! - [`identity`]: equality of particles by identifier.
//! - [`config`]: the configuration and its validation.
//! - [`world`]: the model of a whole simulation, its invariant, and what the
//!   substep and the tick preserve.
//! - [`random`]: the generator of radii, the one thing taken on trust.
//! - [`simulator`]: the simulator, proved against the model.
//! - [`cadence`]: the count of frames that decides which of them may spawn.

pub mod sqrt;
pub mod vector;
pub mod body;
pub mod collision;
pub mod particle;
pub mod identity;
pub mod config;
pub mod world;
pub mod random;
pub mod simulator;
pub mod cadence;
