//! Stochastic reaction–diffusion of discrete particles on a 3D lattice.
//!
//! A bounded box is discretised into a regular grid of voxels; each voxel
//! holds up to `SITE_CAPACITY` particle tokens and belongs to exactly one
//! region.  The simulator alternates a diffusion sub-step (particles hop
//! between face-adjacent voxels) with a reaction sub-step (reactions fire
//! inside each voxel), on double-buffered lattice state.
use vstd::prelude::*;

pub mod diffusion;
pub mod errors;
pub mod geometry;
pub mod kernels;
pub mod lattice;
pub mod params;
pub mod preprocessor;
pub mod reactions;
pub mod regions;
pub mod rng;
pub mod scheduler;
pub mod simulation;
pub mod statistics;
pub mod uniforms;
pub mod utils;

verus! {

/// Greatest number of particle tokens one voxel can hold.
pub const SITE_CAPACITY: u32 = 8;

/// The reaction table may not grow past this many reactions.
pub const MAX_REACTIONS: u32 = 100;

} // verus!
