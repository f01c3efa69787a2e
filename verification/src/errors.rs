//! Error kinds of the simulation core.
use vstd::prelude::*;

verus! {

/// Everything the builder API can refuse.
#[derive(Clone, Copy, PartialEq, Eq, Structural, Debug)]
pub enum SimError {
    /// A seeding attempt hit a voxel whose slots are all taken.
    SiteFull,
    /// Seeding gave up after its retry budget: the region has no room left.
    RegionSaturated,
    /// A reservoir was painted over a voxel already reserved for another
    /// species.
    ReservoirConflict,
    /// A builder referred to a region name that was never declared.
    UnknownRegion,
    /// A builder referred to a species name that was never declared.
    UnknownSpecies,
    /// A reaction was declared with more than three reactants.
    Arity,
    /// The boundary-aware sampler exceeded its retry budget.
    CannotFit,
}

} // verus!
