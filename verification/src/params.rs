//! Immutable grid geometry and the derived voxel bookkeeping.
//!
//! Physical lengths are carried as fixed-point integers: `FIXED_ONE`
//! fixed-point units stand for one unit of physical length.  The region
//! painter works exclusively on such coordinates, so every geometric
//! inclusion test is exact integer arithmetic.
use vstd::prelude::*;

verus! {

/// One unit of physical length, in fixed-point coordinates.
pub const FIXED_ONE: i64 = 65536;

/// Magnitude bound on every fixed-point coordinate the painter accepts;
/// keeps all intermediate products of the inclusion tests inside `i128`.
pub const COORD_BOUND: i64 = 0x2000_0000;

/// Grid geometry: resolution, per-axis voxel size, time step and
/// characteristic length, and the running region count.
#[derive(Clone, Copy, Debug)]
pub struct LatticeParams {
    /// Grid resolution along each axis; a voxel index `(i, j, k)` satisfies
    /// `i < res[0]`, `j < res[1]`, `k < res[2]`.
    pub res: [u32; 3],
    /// Physical voxel edge length along each axis, fixed point.
    pub voxel_size: [i64; 3],
    /// Number of region labels currently painted (the background counts).
    pub n_regions: u32,
    /// Bit pattern of the simulation time step; the host carries it to the
    /// kernels unchanged and never computes with it.
    pub tau_bits: u32,
    /// Bit pattern of the characteristic diffusion length; carried to the
    /// kernels unchanged.
    pub lambda_bits: u32,
}

impl LatticeParams {
    /// Grid geometry small enough that index arithmetic and the painter's
    /// fixed-point arithmetic cannot overflow.
    pub open spec fn wf(self) -> bool {
        &&& 0 < self.res[0] && 0 < self.res[1] && 0 < self.res[2]
        &&& self.res[0] * self.res[1] * self.res[2] < 0x1000_0000
        &&& 0 < self.voxel_size[0] && 0 < self.voxel_size[1] && 0 < self.voxel_size[2]
        &&& self.res[0] * self.voxel_size[0] <= COORD_BOUND
        &&& self.res[1] * self.voxel_size[1] <= COORD_BOUND
        &&& self.res[2] * self.voxel_size[2] <= COORD_BOUND
    }

    /// Total number of voxels in the grid.
    pub open spec fn spec_dimensions(self) -> int {
        self.res[0] * self.res[1] * self.res[2]
    }

    pub fn new(res: [u32; 3], voxel_size: [i64; 3], tau_bits: u32, lambda_bits: u32) -> (p:
        LatticeParams)
        requires
            0 < res[0] && 0 < res[1] && 0 < res[2],
            res[0] * res[1] * res[2] < 0x1000_0000,
            0 < voxel_size[0] && 0 < voxel_size[1] && 0 < voxel_size[2],
            res[0] * voxel_size[0] <= COORD_BOUND,
            res[1] * voxel_size[1] <= COORD_BOUND,
            res[2] * voxel_size[2] <= COORD_BOUND,
        ensures
            p.wf(),
            p.res == res,
            p.voxel_size == voxel_size,
            p.n_regions == 1,
            p.tau_bits == tau_bits,
            p.lambda_bits == lambda_bits,
    {
        LatticeParams { res, voxel_size, n_regions: 1, tau_bits, lambda_bits }
    }

    /// Total number of voxels in the grid.
    pub fn dimensions(&self) -> (n: usize)
        requires
            self.wf(),
        ensures
            n == self.spec_dimensions(),
    {
        proof {
            let a = self.res[0] as int;
            let b = self.res[1] as int;
            let c = self.res[2] as int;
            assert(a * b <= a * b * c) by (nonlinear_arith)
                requires
                    0 < a && 0 < b && 0 < c,
            ;
        }
        (self.res[0] as usize) * (self.res[1] as usize) * (self.res[2] as usize)
    }

    /// Grid resolution.
    pub fn res(&self) -> (r: [u32; 3])
        ensures
            r == self.res,
    {
        self.res
    }

    /// Grid resolution as `usize` components.
    pub fn get_res_usize(&self) -> (r: [usize; 3])
        ensures
            r[0] == self.res[0] && r[1] == self.res[1] && r[2] == self.res[2],
    {
        [self.res[0] as usize, self.res[1] as usize, self.res[2] as usize]
    }

    /// Record one more painted region.
    pub fn add_region(&mut self)
        requires
            old(self).n_regions < u32::MAX,
        ensures
            final(self).n_regions == old(self).n_regions + 1,
            final(self).res == old(self).res,
            final(self).voxel_size == old(self).voxel_size,
            final(self).tau_bits == old(self).tau_bits,
            final(self).lambda_bits == old(self).lambda_bits,
    {
        self.n_regions = self.n_regions + 1;
    }

    /// Record that one region label was removed (two regions were joined).
    pub fn remove_region(&mut self)
        requires
            old(self).n_regions > 0,
        ensures
            final(self).n_regions == old(self).n_regions - 1,
            final(self).res == old(self).res,
            final(self).voxel_size == old(self).voxel_size,
            final(self).tau_bits == old(self).tau_bits,
            final(self).lambda_bits == old(self).lambda_bits,
    {
        self.n_regions = self.n_regions - 1;
    }
}


/// Per-axis voxel size derived from a physical box and a grid resolution:
/// the box length divided by the axis resolution, floored, and at least
/// one fixed-point unit.
pub fn voxel_size_for(dims: [i64; 3], res: [u32; 3]) -> (vs: [i64; 3])
    requires
        0 < res[0] && 0 < res[1] && 0 < res[2],
        forall|d: int| 0 <= d < 3 ==> 0 < #[trigger] dims[d] <= COORD_BOUND,
    ensures
        forall|d: int|
            0 <= d < 3 ==> (#[trigger] vs[d]) as int == (if dims[d] as int / res[d] as int >= 1 {
                dims[d] as int / res[d] as int
            } else {
                1int
            }),
        forall|d: int| 0 <= d < 3 ==> 0 < #[trigger] vs[d] <= COORD_BOUND,
{
    proof {
        assert(0 < dims[0] && 0 < dims[1] && 0 < dims[2]);
        vstd::arithmetic::div_mod::lemma_div_pos_is_pos(dims[0] as int, res[0] as int);
        vstd::arithmetic::div_mod::lemma_div_pos_is_pos(dims[1] as int, res[1] as int);
        vstd::arithmetic::div_mod::lemma_div_nonincreasing(dims[0] as int, res[0] as int);
        vstd::arithmetic::div_mod::lemma_div_nonincreasing(dims[1] as int, res[1] as int);
        vstd::arithmetic::div_mod::lemma_div_pos_is_pos(dims[2] as int, res[2] as int);
        vstd::arithmetic::div_mod::lemma_div_nonincreasing(dims[2] as int, res[2] as int);
    }
    let v0 = crate::geometry::floor_div(dims[0], res[0] as i64);
    let v1 = crate::geometry::floor_div(dims[1], res[1] as i64);
    let v2 = crate::geometry::floor_div(dims[2], res[2] as i64);
    [
        if v0 >= 1 {
            v0
        } else {
            1
        },
        if v1 >= 1 {
            v1
        } else {
            1
        },
        if v2 >= 1 {
            v2
        } else {
            1
        },
    ]
}

} // verus!
