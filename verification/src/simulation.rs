//! The simulation builder: regions, species, reactions and rates, over
//! double-buffered lattice state.
use vstd::prelude::*;

use crate::diffusion::{DiffusionTensor, DEFAULT_DIFFUSION_RATE_BITS};
use crate::errors::SimError;
use crate::geometry::{coords_bounded, floor_div, shape_bounded, Shape};
use crate::lattice::{total_species, Lattice};
use crate::params::{LatticeParams, COORD_BOUND, FIXED_ONE};
use crate::reactions::{reactant_index_row, stoich_delta, stoichiometry_row, ReactionParams};
use crate::regions::{covers_lin, relabel, RegionType, Regions, Sphere};
use crate::scheduler::{step_plan, StepAction};
use crate::statistics::StatisticsGroup;
use crate::MAX_REACTIONS;

verus! {

/// One region was painted: the descriptor was appended and every covered
/// voxel took the fresh label.
pub open spec fn painted_one(
    before: Regions,
    after: Regions,
    p: LatticeParams,
    sh: Shape,
    desc: RegionType,
) -> bool {
    &&& after.types@ == before.types@.push(desc)
    &&& after.regions@.len() == before.regions@.len()
    &&& forall|u: int|
        0 <= u < before.regions@.len() ==> after.regions@[u] == (if covers_lin(sh, p, u) {
            before.types@.len() as u32
        } else {
            before.regions@[u]
        })
}

/// Two regions were painted in order (outer first): the inner label wins
/// where both cover.
pub open spec fn painted_two(
    before: Regions,
    after: Regions,
    p: LatticeParams,
    outer: Shape,
    inner: Shape,
    outer_desc: RegionType,
    inner_desc: RegionType,
) -> bool {
    &&& after.types@ == before.types@.push(outer_desc).push(inner_desc)
    &&& after.regions@.len() == before.regions@.len()
    &&& forall|u: int|
        0 <= u < before.regions@.len() ==> after.regions@[u] == (if covers_lin(inner, p, u) {
            (before.types@.len() + 1) as u32
        } else if covers_lin(outer, p, u) {
            before.types@.len() as u32
        } else {
            before.regions@[u]
        })
}

/// One region slab was added to the diffusion tensor: old entries are
/// kept, the new region's intra-region rate is set for every species, and
/// every pair naming the new region gets the default transition rate.
pub open spec fn slab_one_added(
    before: DiffusionTensor,
    after: DiffusionTensor,
    n: int,
    w: int,
    rate: u32,
    transition: u32,
) -> bool {
    &&& forall|a: int, b: int, s: int|
        0 <= a < n && 0 <= b < n && 0 <= s < w ==> #[trigger] after.at(a, b, s) == before.at(
            a,
            b,
            s,
        )
    &&& forall|b: int, s: int|
        0 <= b < n && 0 <= s < w ==> #[trigger] after.at(n, b, s) == transition
    &&& forall|a: int, s: int|
        0 <= a < n && 0 <= s < w ==> #[trigger] after.at(a, n, s) == transition
    &&& forall|s: int| 0 <= s < w ==> #[trigger] after.at(n, n, s) == rate
}

/// Two region slabs were added to the diffusion tensor (a shell and its
/// interior, or a capsid's shell and interior): old entries kept, both new
/// diagonals carry the rate, every other pair naming a new region carries
/// the default transition rate.
pub open spec fn slab_two_added(
    before: DiffusionTensor,
    after: DiffusionTensor,
    n: int,
    w: int,
    rate: u32,
    transition: u32,
) -> bool {
    &&& forall|a: int, b: int, s: int|
        0 <= a < n && 0 <= b < n && 0 <= s < w ==> #[trigger] after.at(a, b, s) == before.at(
            a,
            b,
            s,
        )
    &&& forall|a: int, b: int, s: int|
        0 <= a < n + 2 && 0 <= b < n + 2 && 0 <= s < w && (a >= n || b >= n) && a != b
            ==> #[trigger] after.at(a, b, s) == transition
    &&& forall|s: int| 0 <= s < w ==> #[trigger] after.at(n, n, s) == rate
    &&& forall|s: int| 0 <= s < w ==> #[trigger] after.at(n + 1, n + 1, s) == rate
}

/// The stochastic reaction–diffusion simulation: grid geometry, regions,
/// double-buffered lattice state, the reaction network and the rate
/// tensors.
pub struct Simulation {
    /// The two lattice buffers; the host seeds buffer 0 and copies it to
    /// buffer 1 before stepping.
    pub lattices: Vec<Lattice>,
    pub lattice_params: LatticeParams,
    pub regions: Regions,
    pub diffusion_matrix: DiffusionTensor,
    /// One row per reaction, each of histogram width.
    pub stoichiometry_matrix: Vec<Vec<i32>>,
    /// Packed reactant IDs, one row of three per reaction.
    pub reactions_idx: Vec<[u32; 3]>,
    /// Rate bit patterns, one per reaction.
    pub reaction_rates: Vec<u32>,
    pub reaction_params: ReactionParams,
    pub stats: StatisticsGroup,
}

impl Simulation {
    /// Histogram width: declared species plus the void slot.
    pub open spec fn width(self) -> int {
        self.lattices@[0].width()
    }

    pub open spec fn wf(self) -> bool {
        &&& self.lattice_params.wf()
        &&& self.lattices@.len() == 2
        &&& self.lattices@[0].wf()
        &&& self.lattices@[0].res == self.lattice_params.res
        &&& self.lattices@[1].res == self.lattice_params.res
        &&& self.regions.wf()
        &&& self.regions.res == self.lattice_params.res
        &&& self.lattice_params.n_regions as int == self.regions.types@.len()
        &&& self.regions.types@.len() < 0x0800_0000
        &&& self.diffusion_matrix.wf(self.regions.types@.len() as int, self.width())
        &&& self.reaction_params.raw_params.num_species as int + 1 == self.width()
        &&& self.stoichiometry_matrix@.len() == self.reaction_params.raw_params.num_reactions
        &&& forall|j: int|
            0 <= j < self.stoichiometry_matrix@.len() ==> (
            #[trigger] self.stoichiometry_matrix@[j]@.len()) == self.width()
        &&& self.reactions_idx@.len() == self.reaction_params.raw_params.num_reactions
        &&& self.reaction_rates@.len() == self.reaction_params.raw_params.num_reactions
        &&& self.reaction_params.raw_params.num_reactions <= MAX_REACTIONS
    }

    /// A fresh simulation: one background region covering the whole box,
    /// no species, no reactions, both buffers empty.
    pub fn new(lattice_params: LatticeParams) -> (s: Simulation)
        requires
            lattice_params.wf(),
            lattice_params.n_regions == 1,
        ensures
            s.wf(),
            s.lattice_params == lattice_params,
            s.regions.types@.len() == 1,
            s.width() == 1,
            s.reaction_params.raw_params.num_species == 0,
            s.reaction_params.raw_params.num_reactions == 0,
            forall|v: int| 0 <= v < s.lattices@[0].n_voxels() ==> s.lattices@[0].occ(v) == 0,
            forall|u: int| 0 <= u < s.regions.regions@.len() ==> s.regions.regions@[u] == 0u32,
            s.lattices@[0].particle_names@[0]@ == "void"@,
            s.regions.types@[0] matches RegionType::Cube { name, p0, pf } && name@ == "background"@
                && p0[0] == 0 && p0[1] == 0 && p0[2] == 0 && pf[0]
                == lattice_params.res[0] * lattice_params.voxel_size[0] && pf[1]
                == lattice_params.res[1] * lattice_params.voxel_size[1] && pf[2]
                == lattice_params.res[2] * lattice_params.voxel_size[2],
    {
        let mut lattices: Vec<Lattice> = Vec::new();
        lattices.push(Lattice::new(&lattice_params));
        lattices.push(Lattice::new(&lattice_params));
        let dims: [i64; 3] = [
            (lattice_params.res[0] as i64) * lattice_params.voxel_size[0],
            (lattice_params.res[1] as i64) * lattice_params.voxel_size[1],
            (lattice_params.res[2] as i64) * lattice_params.voxel_size[2],
        ];
        let background = RegionType::Cube { name: background_name(), p0: [0, 0, 0], pf: dims };
        let regions = Regions::new(&lattice_params, background);
        let diffusion_matrix = DiffusionTensor::new(DEFAULT_DIFFUSION_RATE_BITS);
        Simulation {
            lattices,
            lattice_params,
            regions,
            diffusion_matrix,
            stoichiometry_matrix: Vec::new(),
            reactions_idx: Vec::new(),
            reaction_rates: Vec::new(),
            reaction_params: ReactionParams::new(0, 0),
            stats: StatisticsGroup::new(),
        }
    }

    /// Index of the first region answering to `name`.
    pub fn find_region_index(&self, name: &String) -> (r: Option<usize>)
        ensures
            match r {
                Some(i) => (i as int) < self.regions.types@.len()
                    && self.regions.types@[i as int].spec_name() == Some(name@) && (forall|j: int|
                    0 <= j < i ==> (#[trigger] self.regions.types@[j].spec_name()) != Some(name@)),
                None => forall|i: int|
                    0 <= i < self.regions.types@.len() ==> (
                    #[trigger] self.regions.types@[i].spec_name()) != Some(name@),
            },
    {
        let n = self.regions.types.len();
        let mut i: usize = 0;
        while i < n
            invariant
                i <= n,
                n == self.regions.types@.len(),
                forall|t: int|
                    0 <= t < i ==> (#[trigger] self.regions.types@[t].spec_name()) != Some(name@),
            decreases n - i,
        {
            if self.regions.types[i].matches_name(name) {
                return Some(i);
            }
            i = i + 1;
        }
        None
    }

    /// Build the per-region voxel-index lists; must run after all painting
    /// and before any seeding.
    pub fn prepare_regions(&mut self)
        requires
            old(self).wf(),
        ensures
            final(self).wf(),
            final(self).regions.regions == old(self).regions.regions,
            final(self).regions.types == old(self).regions.types,
            final(self).regions.volumes == old(self).regions.volumes,
            final(self).regions.index_buffer is Some,
            final(self).lattices == old(self).lattices,
            final(self).lattice_params == old(self).lattice_params,
            final(self).reaction_params == old(self).reaction_params,
            final(self).stoichiometry_matrix == old(self).stoichiometry_matrix,
    {
        self.regions.prepare_regions();
    }

    /// Grow the diffusion tensor and the region counter for one freshly
    /// painted region.
    fn update_matrices_region(&mut self, diffusion_bits: u32, transition_bits: u32)
        requires
            old(self).lattice_params.wf(),
            old(self).lattices@.len() == 2,
            old(self).lattices@[0].wf(),
            old(self).diffusion_matrix.wf(
                old(self).lattice_params.n_regions as int,
                old(self).width(),
            ),
            old(self).lattice_params.n_regions < 0x1000_0000,
        ensures
            final(self).lattices == old(self).lattices,
            final(self).regions == old(self).regions,
            final(self).stoichiometry_matrix == old(self).stoichiometry_matrix,
            final(self).reactions_idx == old(self).reactions_idx,
            final(self).reaction_rates == old(self).reaction_rates,
            final(self).reaction_params == old(self).reaction_params,
            final(self).stats == old(self).stats,
            final(self).lattice_params.n_regions == old(self).lattice_params.n_regions + 1,
            final(self).lattice_params.res == old(self).lattice_params.res,
            final(self).lattice_params.voxel_size == old(self).lattice_params.voxel_size,
            final(self).lattice_params.tau_bits == old(self).lattice_params.tau_bits,
            final(self).lattice_params.lambda_bits == old(self).lattice_params.lambda_bits,
            final(self).diffusion_matrix.wf(
                old(self).lattice_params.n_regions as int + 1,
                old(self).width(),
            ),
            slab_one_added(
                old(self).diffusion_matrix,
                final(self).diffusion_matrix,
                old(self).lattice_params.n_regions as int,
                old(self).width(),
                diffusion_bits,
                transition_bits,
            ),
    {
        let w = self.lattices[0].particle_names.len();
        proof {
            assert(self.diffusion_matrix.rates@.len() == old(self).lattice_params.n_regions as int);
        }
        self.diffusion_matrix.add_region(w, diffusion_bits, transition_bits);
        self.lattice_params.add_region();
    }

    /// Paint one primitive and grow the rate tensors.
    fn add_primitive(
        &mut self,
        shape: Shape,
        desc: RegionType,
        diffusion_bits: u32,
        transition_bits: u32,
    )
        requires
            old(self).wf(),
            shape_bounded(shape),
            old(self).regions.types@.len() < 0x0800_0000 - 8,
        ensures
            final(self).wf(),
            painted_one(
                old(self).regions,
                final(self).regions,
                old(self).lattice_params,
                shape,
                desc,
            ),
            final(self).regions.index_buffer is None,
            final(self).lattices == old(self).lattices,
            final(self).stoichiometry_matrix == old(self).stoichiometry_matrix,
            final(self).reactions_idx == old(self).reactions_idx,
            final(self).reaction_rates == old(self).reaction_rates,
            final(self).reaction_params == old(self).reaction_params,
            final(self).lattice_params.res == old(self).lattice_params.res,
            final(self).lattice_params.voxel_size == old(self).lattice_params.voxel_size,
            final(self).regions.types@.len() == old(self).regions.types@.len() + 1,
            slab_one_added(
                old(self).diffusion_matrix,
                final(self).diffusion_matrix,
                old(self).regions.types@.len() as int,
                old(self).width(),
                diffusion_bits,
                transition_bits,
            ),
    {
        let params = self.lattice_params;
        self.regions.paint(&params, &shape, desc);
        self.update_matrices_region(diffusion_bits, transition_bits);
    }

    /// Join region `delete` into region `keep` and shrink the rate
    /// tensors.
    fn join_regions_idx(&mut self, delete: u32, keep: u32)
        requires
            old(self).wf(),
            (delete as int) < old(self).regions.types@.len(),
            (keep as int) < old(self).regions.types@.len(),
            keep != delete,
            old(self).regions.types@.len() > 1,
        ensures
            final(self).wf(),
            final(self).regions.types@ == old(self).regions.types@.remove(delete as int),
            final(self).regions.regions@.len() == old(self).regions.regions@.len(),
            forall|u: int|
                0 <= u < old(self).regions.regions@.len() ==> final(self).regions.regions@[u]
                    == relabel(old(self).regions.regions@[u], delete, keep),
            final(self).lattices == old(self).lattices,
            final(self).stoichiometry_matrix == old(self).stoichiometry_matrix,
            final(self).reactions_idx == old(self).reactions_idx,
            final(self).reaction_rates == old(self).reaction_rates,
            final(self).reaction_params == old(self).reaction_params,
            final(self).lattice_params.res == old(self).lattice_params.res,
            final(self).lattice_params.voxel_size == old(self).lattice_params.voxel_size,
            final(self).regions.types@.len() == old(self).regions.types@.len() - 1,
            forall|a: int, b: int, s: int|
                0 <= a < delete && 0 <= b < delete && 0 <= s < old(self).width()
                    ==> #[trigger] final(self).diffusion_matrix.at(a, b, s) == old(self).diffusion_matrix.at(a, b, s),
    {
        self.regions.join(delete, keep);
        let w = self.lattices[0].particle_names.len();
        self.diffusion_matrix.remove_region(delete as usize, w);
        self.lattice_params.remove_region();
    }
}

/// The name of the initial region covering the whole box.
pub fn background_name() -> (s: String)
    ensures
        s@ == "background"@,
{
    let s = "background";
    s.to_owned()
}


/// Magnitude bound of a floor quotient.
pub proof fn lemma_div_magnitude(a: int, b: int, m: int)
    requires
        0 < b,
        -m <= a <= m,
        0 <= m,
    ensures
        -m - 1 <= a / b <= m,
{
    vstd::arithmetic::div_mod::lemma_fundamental_div_mod(a, b);
    vstd::arithmetic::div_mod::lemma_mod_division_less_than_divisor(a, b);
    let q = a / b;
    let r = a % b;
    assert(-m - 1 <= q <= m) by (nonlinear_arith)
        requires
            a == b * q + r,
            0 <= r < b,
            -m <= a <= m,
            0 < b,
            0 <= m,
    ;
}

/// Coordinate bounds under which a descriptor can be painted exactly.
pub open spec fn region_type_bounded(reg: RegionType) -> bool {
    match reg {
        RegionType::Cube { p0, pf, .. } => coords_bounded(p0) && coords_bounded(pf),
        RegionType::Sphere { center, radius, .. } => coords_bounded(center) && 0 <= radius
            <= COORD_BOUND,
        RegionType::SemiSphere { center, radius, direction, .. } => coords_bounded(center)
            && coords_bounded(direction) && 0 <= radius <= COORD_BOUND,
        RegionType::Cylinder { p0, pf, radius, .. } => coords_bounded(p0) && coords_bounded(pf) && 0
            <= radius <= COORD_BOUND,
        RegionType::SphericalShell { center, internal_radius, external_radius, .. } => coords_bounded(
            center,
        ) && 0 <= internal_radius <= COORD_BOUND && 0 <= external_radius <= COORD_BOUND,
        RegionType::CylindricalShell { p0, pf, internal_radius, external_radius, .. } => coords_bounded(
            p0,
        ) && coords_bounded(pf) && 0 <= internal_radius <= COORD_BOUND && 0 <= external_radius
            <= COORD_BOUND,
        RegionType::Capsid { center, dir, internal_radius, external_radius, total_length, .. } => {
            &&& forall|d: int| 0 <= d < 3 ==> -0x0800_0000 <= #[trigger] center[d] <= 0x0800_0000
            &&& forall|d: int| 0 <= d < 3 ==> -FIXED_ONE <= #[trigger] dir[d] <= FIXED_ONE
            &&& 0 <= internal_radius <= 0x0400_0000
            &&& 0 <= external_radius <= 0x0400_0000
            &&& 0 <= total_length <= 0x0400_0000
        },
        RegionType::Sparse { .. } => false,
    }
}

/// The axis endpoints of a capsid: the cylinder spans
/// `total_length - 2 * external_radius` about the centre, along `dir`
/// (fixed-point unit scale), with floor rounding per component.
pub open spec fn spec_capsid_offset(dir_d: i64, cylinder_length: i64) -> int {
    (dir_d * cylinder_length) as int / (2 * FIXED_ONE) as int
}

impl Simulation {
    /// Append a region descriptor: primitives paint once, shells paint
    /// outer then inner, and a capsid paints its cylinder pair and four
    /// half-balls, then joins the caps into the shell label and the inner
    /// half-balls into the interior label.
    pub fn add_region(&mut self, reg: RegionType, diffusion_rate_bits: u32) -> (r: Result<
        (),
        SimError,
    >)
        requires
            old(self).wf(),
            region_type_bounded(reg),
            old(self).regions.types@.len() < 0x0400_0000,
        ensures
            final(self).wf(),
            r is Ok,
            final(self).lattices == old(self).lattices,
            final(self).stoichiometry_matrix == old(self).stoichiometry_matrix,
            final(self).reactions_idx == old(self).reactions_idx,
            final(self).reaction_rates == old(self).reaction_rates,
            final(self).reaction_params == old(self).reaction_params,
            final(self).lattice_params.res == old(self).lattice_params.res,
            final(self).lattice_params.voxel_size == old(self).lattice_params.voxel_size,
            final(self).regions.regions@.len() == old(self).regions.regions@.len(),
            match reg {
                RegionType::Cube { name, p0, pf } => painted_one(
                    old(self).regions,
                    final(self).regions,
                    old(self).lattice_params,
                    Shape::Cube { p0, pf },
                    reg,
                ),
                RegionType::Sphere { name, center, radius } => painted_one(
                    old(self).regions,
                    final(self).regions,
                    old(self).lattice_params,
                    Shape::Sphere { center, radius },
                    reg,
                ),
                RegionType::SemiSphere { name, center, radius, direction } => painted_one(
                    old(self).regions,
                    final(self).regions,
                    old(self).lattice_params,
                    Shape::SemiSphere { center, radius, direction },
                    reg,
                ),
                RegionType::Cylinder { name, p0, pf, radius } => painted_one(
                    old(self).regions,
                    final(self).regions,
                    old(self).lattice_params,
                    Shape::Cylinder { p0, pf, radius },
                    reg,
                ),
                RegionType::SphericalShell {
                    shell_name,
                    interior_name,
                    center,
                    internal_radius,
                    external_radius,
                } => painted_two(
                    old(self).regions,
                    final(self).regions,
                    old(self).lattice_params,
                    Shape::Sphere { center, radius: external_radius },
                    Shape::Sphere { center, radius: internal_radius },
                    RegionType::Sphere { name: shell_name, center, radius: external_radius },
                    RegionType::Sphere { name: interior_name, center, radius: internal_radius },
                ),
                RegionType::CylindricalShell {
                    shell_name,
                    interior_name,
                    p0,
                    pf,
                    internal_radius,
                    external_radius,
                } => painted_two(
                    old(self).regions,
                    final(self).regions,
                    old(self).lattice_params,
                    Shape::Cylinder { p0, pf, radius: external_radius },
                    Shape::Cylinder { p0, pf, radius: internal_radius },
                    RegionType::Cylinder { name: shell_name, p0, pf, radius: external_radius },
                    RegionType::Cylinder { name: interior_name, p0, pf, radius: internal_radius },
                ),
                RegionType::Capsid { .. } => capsid_painted(
                    old(self).regions,
                    final(self).regions,
                    old(self).lattice_params,
                    reg,
                ),
                RegionType::Sparse { .. } => false,
            },
            match reg {
                RegionType::Cube { .. } | RegionType::Sphere { .. } | RegionType::SemiSphere {
                    ..
                } | RegionType::Cylinder { .. } => slab_one_added(
                    old(self).diffusion_matrix,
                    final(self).diffusion_matrix,
                    old(self).regions.types@.len() as int,
                    old(self).width(),
                    diffusion_rate_bits,
                    0u32,
                ),
                RegionType::SphericalShell { .. } | RegionType::CylindricalShell { .. }
                    | RegionType::Capsid { .. } => slab_two_added(
                    old(self).diffusion_matrix,
                    final(self).diffusion_matrix,
                    old(self).regions.types@.len() as int,
                    old(self).width(),
                    diffusion_rate_bits,
                    0u32,
                ),
                RegionType::Sparse { .. } => false,
            },
    {
        let transition_bits: u32 = 0;
        match reg {
            RegionType::Cube { name, p0, pf } => {
                self.add_primitive(
                    Shape::Cube { p0, pf },
                    RegionType::Cube { name, p0, pf },
                    diffusion_rate_bits,
                    transition_bits,
                );
                Ok(())
            },
            RegionType::Sphere { name, center, radius } => {
                self.add_primitive(
                    Shape::Sphere { center, radius },
                    RegionType::Sphere { name, center, radius },
                    diffusion_rate_bits,
                    transition_bits,
                );
                Ok(())
            },
            RegionType::SemiSphere { name, center, radius, direction } => {
                self.add_primitive(
                    Shape::SemiSphere { center, radius, direction },
                    RegionType::SemiSphere { name, center, radius, direction },
                    diffusion_rate_bits,
                    transition_bits,
                );
                Ok(())
            },
            RegionType::Cylinder { name, p0, pf, radius } => {
                self.add_primitive(
                    Shape::Cylinder { p0, pf, radius },
                    RegionType::Cylinder { name, p0, pf, radius },
                    diffusion_rate_bits,
                    transition_bits,
                );
                Ok(())
            },
            RegionType::SphericalShell {
                shell_name,
                interior_name,
                center,
                internal_radius,
                external_radius,
            } => {
                self.add_primitive(
                    Shape::Sphere { center, radius: external_radius },
                    RegionType::Sphere { name: shell_name, center, radius: external_radius },
                    diffusion_rate_bits,
                    transition_bits,
                );
                self.add_primitive(
                    Shape::Sphere { center, radius: internal_radius },
                    RegionType::Sphere { name: interior_name, center, radius: internal_radius },
                    diffusion_rate_bits,
                    transition_bits,
                );
                Ok(())
            },
            RegionType::CylindricalShell {
                shell_name,
                interior_name,
                p0,
                pf,
                internal_radius,
                external_radius,
            } => {
                self.add_primitive(
                    Shape::Cylinder { p0, pf, radius: external_radius },
                    RegionType::Cylinder { name: shell_name, p0, pf, radius: external_radius },
                    diffusion_rate_bits,
                    transition_bits,
                );
                self.add_primitive(
                    Shape::Cylinder { p0, pf, radius: internal_radius },
                    RegionType::Cylinder { name: interior_name, p0, pf, radius: internal_radius },
                    diffusion_rate_bits,
                    transition_bits,
                );
                Ok(())
            },
            RegionType::Capsid {
                shell_name,
                interior_name,
                center,
                dir,
                internal_radius,
                external_radius,
                total_length,
            } => {
                self.add_capsid(
                    shell_name,
                    interior_name,
                    center,
                    dir,
                    internal_radius,
                    external_radius,
                    total_length,
                    diffusion_rate_bits,
                    transition_bits,
                );
                Ok(())
            },
            RegionType::Sparse { .. } => {
                proof {
                    assert(false);
                }
                Err(SimError::UnknownRegion)
            },
        }
    }
}


/// Floor quotients shrink with the divisor.
pub proof fn lemma_div_shrink(a: int, b: int, m: int)
    requires
        0 < b,
        -m <= a <= m,
        0 <= m,
    ensures
        -(m / b) - 1 <= a / b <= m / b,
{
    vstd::arithmetic::div_mod::lemma_div_is_ordered(a, m, b);
    vstd::arithmetic::div_mod::lemma_div_is_ordered(-m, a, b);
    vstd::arithmetic::div_mod::lemma_fundamental_div_mod(m, b);
    vstd::arithmetic::div_mod::lemma_mod_division_less_than_divisor(m, b);
    let q = m / b;
    let r = m % b;
    if r == 0 {
        assert(-m == (-q) * b + 0) by (nonlinear_arith)
            requires
                m == b * q + r,
                r == 0,
        ;
        vstd::arithmetic::div_mod::lemma_fundamental_div_mod_converse(-m, b, -q, 0);
    } else {
        assert(-m == (-q - 1) * b + (b - r)) by (nonlinear_arith)
            requires
                m == b * q + r,
        ;
        vstd::arithmetic::div_mod::lemma_fundamental_div_mod_converse(-m, b, -q - 1, b - r);
    }
}

/// The capsid coverage of one voxel, given the computed axis endpoints:
/// the outer cylinder or either outer half-ball.
pub open spec fn capsid_outer_covers(
    p0: [i64; 3],
    pf: [i64; 3],
    neg_dir: [i64; 3],
    dir: [i64; 3],
    external_radius: i64,
    p: LatticeParams,
    u: int,
) -> bool {
    ||| covers_lin(Shape::Cylinder { p0, pf, radius: external_radius }, p, u)
    ||| covers_lin(Shape::SemiSphere { center: p0, radius: external_radius, direction: neg_dir }, p, u)
    ||| covers_lin(Shape::SemiSphere { center: pf, radius: external_radius, direction: dir }, p, u)
}

/// The voxels the capsid's interior label ends up owning: either inner
/// half-ball, or the inner cylinder where no outer cap (painted later)
/// overrides it on the end planes.
pub open spec fn capsid_inner_covers(
    p0: [i64; 3],
    pf: [i64; 3],
    neg_dir: [i64; 3],
    dir: [i64; 3],
    internal_radius: i64,
    external_radius: i64,
    p: LatticeParams,
    u: int,
) -> bool {
    ||| covers_lin(Shape::SemiSphere { center: p0, radius: internal_radius, direction: neg_dir }, p, u)
    ||| covers_lin(Shape::SemiSphere { center: pf, radius: internal_radius, direction: dir }, p, u)
    ||| (covers_lin(Shape::Cylinder { p0, pf, radius: internal_radius }, p, u) && !covers_lin(
        Shape::SemiSphere { center: p0, radius: external_radius, direction: neg_dir },
        p,
        u,
    ) && !covers_lin(
        Shape::SemiSphere { center: pf, radius: external_radius, direction: dir },
        p,
        u,
    ))
}

/// The axis endpoints and mirrored direction a capsid paints with.
pub open spec fn capsid_geometry_ok(
    center: [i64; 3],
    dir: [i64; 3],
    external_radius: i64,
    total_length: i64,
    p0: [i64; 3],
    pf: [i64; 3],
    neg_dir: [i64; 3],
) -> bool {
    let cl = total_length - 2 * external_radius;
    &&& forall|d: int|
        0 <= d < 3 ==> (#[trigger] p0[d]) as int == center[d] - spec_capsid_offset(dir[d], cl as i64)
    &&& forall|d: int|
        0 <= d < 3 ==> (#[trigger] pf[d]) as int == center[d] + spec_capsid_offset(dir[d], cl as i64)
    &&& forall|d: int| 0 <= d < 3 ==> (#[trigger] neg_dir[d]) as int == -(dir[d] as int)
}

/// What painting a capsid descriptor leaves behind: two fresh labels, the
/// shell and the interior, the shell's voxels those of the outer composite
/// not taken by the inner one.
pub open spec fn capsid_painted(
    before: Regions,
    after: Regions,
    p: LatticeParams,
    reg: RegionType,
) -> bool {
    match reg {
        RegionType::Capsid {
            shell_name,
            interior_name,
            center,
            dir,
            internal_radius,
            external_radius,
            total_length,
        } => {
            let n = before.types@.len() as int;
            exists|p0: [i64; 3], pf: [i64; 3], neg_dir: [i64; 3]|
                {
                    &&& #[trigger] capsid_geometry_ok(
                        center,
                        dir,
                        external_radius,
                        total_length,
                        p0,
                        pf,
                        neg_dir,
                    )
                    &&& after.types@ == before.types@.push(
                        RegionType::Cylinder {
                            name: shell_name,
                            p0,
                            pf,
                            radius: external_radius,
                        },
                    ).push(
                        RegionType::Cylinder {
                            name: interior_name,
                            p0,
                            pf,
                            radius: internal_radius,
                        },
                    )
                    &&& after.regions@.len() == before.regions@.len()
                    &&& forall|u: int|
                        0 <= u < before.regions@.len() ==> after.regions@[u] == (
                        if capsid_inner_covers(
                            p0,
                            pf,
                            neg_dir,
                            dir,
                            internal_radius,
                            external_radius,
                            p,
                            u,
                        ) {
                            (n + 1) as u32
                        } else if capsid_outer_covers(p0, pf, neg_dir, dir, external_radius, p, u) {
                            n as u32
                        } else {
                            before.regions@[u]
                        })
                }
        },
        _ => false,
    }
}

impl Simulation {
    /// Paint a capsid: outer and inner cylinder, two outer and two inner
    /// half-ball caps, then join the caps into the shell label and the
    /// inner half-balls into the interior label.
    fn add_capsid(
        &mut self,
        shell_name: String,
        interior_name: String,
        center: [i64; 3],
        dir: [i64; 3],
        internal_radius: i64,
        external_radius: i64,
        total_length: i64,
        diffusion_rate_bits: u32,
        transition_bits: u32,
    )
        requires
            old(self).wf(),
            region_type_bounded(
                RegionType::Capsid {
                    shell_name,
                    interior_name,
                    center,
                    dir,
                    internal_radius,
                    external_radius,
                    total_length,
                },
            ),
            old(self).regions.types@.len() < 0x0400_0000,
        ensures
            final(self).wf(),
            capsid_painted(
                old(self).regions,
                final(self).regions,
                old(self).lattice_params,
                RegionType::Capsid {
                    shell_name,
                    interior_name,
                    center,
                    dir,
                    internal_radius,
                    external_radius,
                    total_length,
                },
            ),
            final(self).lattices == old(self).lattices,
            final(self).stoichiometry_matrix == old(self).stoichiometry_matrix,
            final(self).reactions_idx == old(self).reactions_idx,
            final(self).reaction_rates == old(self).reaction_rates,
            final(self).reaction_params == old(self).reaction_params,
            final(self).lattice_params.res == old(self).lattice_params.res,
            final(self).lattice_params.voxel_size == old(self).lattice_params.voxel_size,
            final(self).regions.regions@.len() == old(self).regions.regions@.len(),
            slab_two_added(
                old(self).diffusion_matrix,
                final(self).diffusion_matrix,
                old(self).regions.types@.len() as int,
                old(self).width(),
                diffusion_rate_bits,
                transition_bits,
            ),
    {
        let cl = total_length - 2 * external_radius;
        proof {
            let ghost reg_g = RegionType::Capsid {
                shell_name: shell_name,
                interior_name: interior_name,
                center,
                dir,
                internal_radius,
                external_radius,
                total_length,
            };
            assert(region_type_bounded(reg_g));
            assert(reg_g matches RegionType::Capsid { dir: d2, center: c2, .. } && d2 == dir && c2
                == center);
            assert(-FIXED_ONE <= dir[0] <= FIXED_ONE && -FIXED_ONE <= dir[1] <= FIXED_ONE
                && -FIXED_ONE <= dir[2] <= FIXED_ONE);
            assert(-0x0800_0000 <= center[0] <= 0x0800_0000 && -0x0800_0000 <= center[1]
                <= 0x0800_0000 && -0x0800_0000 <= center[2] <= 0x0800_0000);
            assert(-0x0C00_0000 <= cl <= 0x0C00_0000);
            crate::geometry::lemma_mul_bound(dir[0] as int, cl as int, FIXED_ONE as int, 0x0C00_0000);
            crate::geometry::lemma_mul_bound(dir[1] as int, cl as int, FIXED_ONE as int, 0x0C00_0000);
            crate::geometry::lemma_mul_bound(dir[2] as int, cl as int, FIXED_ONE as int, 0x0C00_0000);
            lemma_div_shrink(dir[0] as int * cl as int, 2 * FIXED_ONE as int, 0x0C00_0000_0000);
            lemma_div_shrink(dir[1] as int * cl as int, 2 * FIXED_ONE as int, 0x0C00_0000_0000);
            lemma_div_shrink(dir[2] as int * cl as int, 2 * FIXED_ONE as int, 0x0C00_0000_0000);
        }
        let off: [i64; 3] = [
            floor_div(dir[0] * cl, 2 * FIXED_ONE),
            floor_div(dir[1] * cl, 2 * FIXED_ONE),
            floor_div(dir[2] * cl, 2 * FIXED_ONE),
        ];
        let p0: [i64; 3] = [center[0] - off[0], center[1] - off[1], center[2] - off[2]];
        let pf: [i64; 3] = [center[0] + off[0], center[1] + off[1], center[2] + off[2]];
        let neg_dir: [i64; 3] = [-dir[0], -dir[1], -dir[2]];
        let ghost params = self.lattice_params;
        let ghost g0 = self.regions;
        let ghost d0 = self.diffusion_matrix;
        let ghost w0 = self.width();
        let ghost n = g0.types@.len() as int;
        self.add_primitive(
            Shape::Cylinder { p0, pf, radius: external_radius },
            RegionType::Cylinder { name: shell_name, p0, pf, radius: external_radius },
            diffusion_rate_bits,
            transition_bits,
        );
        let ghost g1 = self.regions;
        self.add_primitive(
            Shape::Cylinder { p0, pf, radius: internal_radius },
            RegionType::Cylinder { name: interior_name, p0, pf, radius: internal_radius },
            diffusion_rate_bits,
            transition_bits,
        );
        let ghost g2 = self.regions;
        self.add_primitive(
            Shape::SemiSphere { center: p0, radius: external_radius, direction: neg_dir },
            RegionType::SemiSphere {
                name: cap_name_first(),
                center: p0,
                radius: external_radius,
                direction: neg_dir,
            },
            diffusion_rate_bits,
            transition_bits,
        );
        let ghost g3 = self.regions;
        self.add_primitive(
            Shape::SemiSphere { center: pf, radius: external_radius, direction: dir },
            RegionType::SemiSphere {
                name: cap_name_second(),
                center: pf,
                radius: external_radius,
                direction: dir,
            },
            diffusion_rate_bits,
            transition_bits,
        );
        let ghost g4 = self.regions;
        self.add_primitive(
            Shape::SemiSphere { center: p0, radius: internal_radius, direction: neg_dir },
            RegionType::SemiSphere {
                name: inside_name_first(),
                center: p0,
                radius: internal_radius,
                direction: neg_dir,
            },
            diffusion_rate_bits,
            transition_bits,
        );
        let ghost g5 = self.regions;
        self.add_primitive(
            Shape::SemiSphere { center: pf, radius: internal_radius, direction: dir },
            RegionType::SemiSphere {
                name: inside_name_second(),
                center: pf,
                radius: internal_radius,
                direction: dir,
            },
            diffusion_rate_bits,
            transition_bits,
        );
        let ghost g6 = self.regions;
        let shell_label = (self.regions.types.len() - 6) as u32;
        let interior_label = shell_label + 1;
        let cap_label = shell_label + 2;
        self.join_regions_idx(cap_label, shell_label);
        let ghost g7 = self.regions;
        self.join_regions_idx(cap_label, shell_label);
        let ghost g8 = self.regions;
        self.join_regions_idx(cap_label, interior_label);
        let ghost g9 = self.regions;
        self.join_regions_idx(cap_label, interior_label);
        proof {
            let d10 = self.diffusion_matrix;
            assert(slab_two_added(d0, d10, n, w0, diffusion_rate_bits, transition_bits));
            let g10 = self.regions;
            let cl_i = cl;
            assert(capsid_geometry_ok(
                center,
                dir,
                external_radius,
                total_length,
                p0,
                pf,
                neg_dir,
            ));
            let sh_out = Shape::Cylinder { p0, pf, radius: external_radius };
            let sh_in = Shape::Cylinder { p0, pf, radius: internal_radius };
            let ss1_out = Shape::SemiSphere {
                center: p0,
                radius: external_radius,
                direction: neg_dir,
            };
            let ss2_out = Shape::SemiSphere { center: pf, radius: external_radius, direction: dir };
            let ss1_in = Shape::SemiSphere {
                center: p0,
                radius: internal_radius,
                direction: neg_dir,
            };
            let ss2_in = Shape::SemiSphere { center: pf, radius: internal_radius, direction: dir };
            assert(g10.types@ =~= g0.types@.push(
                RegionType::Cylinder { name: shell_name, p0, pf, radius: external_radius },
            ).push(RegionType::Cylinder { name: interior_name, p0, pf, radius: internal_radius }));
            assert forall|u: int| 0 <= u < g0.regions@.len() implies g10.regions@[u] == (
            if capsid_inner_covers(
                p0,
                pf,
                neg_dir,
                dir,
                internal_radius,
                external_radius,
                params,
                u,
            ) {
                (n + 1) as u32
            } else if capsid_outer_covers(p0, pf, neg_dir, dir, external_radius, params, u) {
                n as u32
            } else {
                g0.regions@[u]
            }) by {
                assert(g1.regions@[u] == (if covers_lin(sh_out, params, u) {
                    n as u32
                } else {
                    g0.regions@[u]
                }));
                assert(g2.regions@[u] == (if covers_lin(sh_in, params, u) {
                    (n + 1) as u32
                } else {
                    g1.regions@[u]
                }));
                assert(g3.regions@[u] == (if covers_lin(ss1_out, params, u) {
                    (n + 2) as u32
                } else {
                    g2.regions@[u]
                }));
                assert(g4.regions@[u] == (if covers_lin(ss2_out, params, u) {
                    (n + 3) as u32
                } else {
                    g3.regions@[u]
                }));
                assert(g5.regions@[u] == (if covers_lin(ss1_in, params, u) {
                    (n + 4) as u32
                } else {
                    g4.regions@[u]
                }));
                assert(g6.regions@[u] == (if covers_lin(ss2_in, params, u) {
                    (n + 5) as u32
                } else {
                    g5.regions@[u]
                }));
                assert(g7.regions@[u] == relabel(g6.regions@[u], cap_label, shell_label));
                assert(g8.regions@[u] == relabel(g7.regions@[u], cap_label, shell_label));
                assert(g9.regions@[u] == relabel(g8.regions@[u], cap_label, interior_label));
                assert(g10.regions@[u] == relabel(g9.regions@[u], cap_label, interior_label));
                assert((g0.regions@[u] as int) < n);
                assert(shell_label as int == n && interior_label as int == n + 1 && cap_label
                    as int == n + 2);
                if covers_lin(ss2_in, params, u) {
                    assert(g6.regions@[u] == (n + 5) as u32);
                    assert(g7.regions@[u] == (n + 4) as u32);
                    assert(g8.regions@[u] == (n + 3) as u32);
                    assert(g9.regions@[u] == (n + 2) as u32);
                    assert(g10.regions@[u] == (n + 1) as u32);
                } else if covers_lin(ss1_in, params, u) {
                    assert(g6.regions@[u] == (n + 4) as u32);
                    assert(g7.regions@[u] == (n + 3) as u32);
                    assert(g8.regions@[u] == (n + 2) as u32);
                    assert(g9.regions@[u] == (n + 1) as u32);
                    assert(g10.regions@[u] == (n + 1) as u32);
                } else if covers_lin(ss2_out, params, u) {
                    assert(g6.regions@[u] == (n + 3) as u32);
                    assert(g7.regions@[u] == (n + 2) as u32);
                    assert(g8.regions@[u] == n as u32);
                    assert(g10.regions@[u] == n as u32);
                } else if covers_lin(ss1_out, params, u) {
                    assert(g6.regions@[u] == (n + 2) as u32);
                    assert(g7.regions@[u] == n as u32);
                    assert(g10.regions@[u] == n as u32);
                } else if covers_lin(sh_in, params, u) {
                    assert(g6.regions@[u] == (n + 1) as u32);
                    assert(g10.regions@[u] == (n + 1) as u32);
                } else if covers_lin(sh_out, params, u) {
                    assert(g6.regions@[u] == n as u32);
                    assert(g10.regions@[u] == n as u32);
                } else {
                    assert(g6.regions@[u] == g0.regions@[u]);
                    assert(g10.regions@[u] == g0.regions@[u]);
                }
            }
        }
    }
}

/// Scratch name of the first outer cap while a capsid is painted.
pub fn cap_name_first() -> (s: String)
    ensures
        s@ == "cap1"@,
{
    let s = "cap1";
    s.to_owned()
}

/// Scratch name of the second outer cap while a capsid is painted.
pub fn cap_name_second() -> (s: String)
    ensures
        s@ == "cap2"@,
{
    let s = "cap2";
    s.to_owned()
}

/// Scratch name of the first inner half-ball while a capsid is painted.
pub fn inside_name_first() -> (s: String)
    ensures
        s@ == "inside1"@,
{
    let s = "inside1";
    s.to_owned()
}

/// Scratch name of the second inner half-ball while a capsid is painted.
pub fn inside_name_second() -> (s: String)
    ensures
        s@ == "inside2"@,
{
    let s = "inside2";
    s.to_owned()
}


/// A histogram column that is zero everywhere sums to zero.
proof fn lemma_total_species_zero_column(c: Seq<i32>, w: int, nv: int, s: int)
    requires
        0 <= s < w,
        nv * w <= c.len(),
        forall|v: int| 0 <= v < nv ==> #[trigger] c[v * w + s] == 0,
    ensures
        total_species(c, w, nv, s) == 0,
    decreases nv,
{
    if nv > 0 {
        assert((nv - 1) * w <= nv * w) by (nonlinear_arith)
            requires
                w >= 0,
        ;
        lemma_total_species_zero_column(c, w, nv - 1, s);
        assert(c[(nv - 1) * w + s] == 0);
    }
}

impl Simulation {
    /// Declare one more species under `name`: the lattice histogram, the
    /// diffusion tensor and every stoichiometry row gain one column.
    fn register_species(&mut self, name: String, logging: bool) -> (particle: u32)
        requires
            old(self).wf(),
            old(self).width() < 0x0010_0000,
            old(self).lattices@[0].n_voxels() * (old(self).width() + 1) < 0x8000_0000,
        ensures
            final(self).wf(),
            particle as int == old(self).width(),
            final(self).width() == old(self).width() + 1,
            final(self).regions == old(self).regions,
            final(self).lattice_params == old(self).lattice_params,
            final(self).reaction_params.raw_params.num_reactions == old(self).reaction_params.raw_params.num_reactions,
            final(self).lattices@[0].particle_names@ == old(self).lattices@[0].particle_names@.push(
                name,
            ),
            final(self).lattices@[0].lattice == old(self).lattices@[0].lattice,
            final(self).lattices@[0].occupancy == old(self).lattices@[0].occupancy,
            final(self).lattices@[0].reservoir == old(self).lattices@[0].reservoir,
            forall|v: int, s: int|
                0 <= v < old(self).lattices@[0].n_voxels() && 0 <= s < old(self).width()
                    ==> #[trigger] final(self).lattices@[0].conc_at(v, s) == old(self).lattices@[0].conc_at(v, s),
            forall|v: int|
                0 <= v < old(self).lattices@[0].n_voxels() ==> #[trigger] final(self).lattices@[0].conc_at(v, old(self).width()) == 0,
            total_species(
                final(self).lattices@[0].concentrations@,
                final(self).width(),
                final(self).lattices@[0].n_voxels(),
                old(self).width(),
            ) == 0,
    {
        let particle = self.lattices[0].particle_names.len() as u32;
        let w = self.lattices[0].particle_names.len();
        let l0 = &mut self.lattices[0];
        l0.add_species(name);
        if logging {
            let ghost mid_species = self.lattices@[0];
            let l0b = &mut self.lattices[0];
            l0b.logging_particles.push(particle);
            proof {
                let lnew = self.lattices@[0];
                assert forall|v: int| 0 <= v < lnew.n_voxels() implies #[trigger] lnew.voxel_wf(
                    v,
                ) by {
                    assert(mid_species.voxel_wf(v));
                    assert(lnew.token_row(v) == mid_species.token_row(v));
                    assert forall|s: int| 0 <= s < lnew.width() implies #[trigger] lnew.conc_at(
                        v,
                        s,
                    ) == mid_species.conc_at(v, s) by {}
                }
                assert(lnew.wf());
                assert forall|v: int, s: int|
                    0 <= v < lnew.n_voxels() && 0 <= s < lnew.width() implies #[trigger] lnew.conc_at(
                    v,
                    s,
                ) == mid_species.conc_at(v, s) by {}
            }
        }
        self.diffusion_matrix.add_species(w);
        let ghost mid = *self;
        proof {
            assert forall|t: int| 0 <= t < mid.stoichiometry_matrix@.len() implies (
            #[trigger] mid.stoichiometry_matrix@[t]@.len()) == w as int by {
                assert(old(self).stoichiometry_matrix@[t]@.len() == old(self).width());
            }
        }
        let n_rows = self.stoichiometry_matrix.len();
        let mut j: usize = 0;
        while j < n_rows
            invariant
                j <= n_rows,
                n_rows == self.stoichiometry_matrix@.len(),
                self.lattices == mid.lattices,
                self.regions == mid.regions,
                self.diffusion_matrix == mid.diffusion_matrix,
                self.reaction_params == mid.reaction_params,
                self.reaction_rates == mid.reaction_rates,
                self.reactions_idx == mid.reactions_idx,
                self.lattice_params == mid.lattice_params,
                self.stats == mid.stats,
                forall|t: int|
                    0 <= t < j ==> (#[trigger] self.stoichiometry_matrix@[t]@.len()) == w + 1,
                forall|t: int|
                    j <= t < n_rows ==> (#[trigger] self.stoichiometry_matrix@[t]@.len()) == w
                        as int,
            decreases n_rows - j,
        {
            let row = &mut self.stoichiometry_matrix[j];
            row.push(0);
            j = j + 1;
        }
        proof {
            assert(w as int == old(self).width());
            assert((w as int) < 0x0010_0000);
            assert(self.reaction_params.raw_params.num_species as int + 1 == w as int);
        }
        self.reaction_params.raw_params.num_species = self.reaction_params.raw_params.num_species
            + 1;
        proof {
            let l = self.lattices@[0];
            let nv = l.n_voxels();
            assert(nv * (w as int + 1) <= l.concentrations@.len());
            assert forall|v: int| 0 <= v < nv implies #[trigger] l.concentrations@[v * (w as int
                + 1) + (w as int)] == 0i32 by {
                assert(l.conc_at(v, w as int) == 0);
            }
            lemma_total_species_zero_column(
                l.concentrations@,
                w as int + 1,
                nv,
                w as int,
            );
        }
        particle
    }

    /// Seed `count` particles of a fresh species named `name` at uniformly
    /// drawn voxels of the region `to_region` (or mark reservoir voxels
    /// when `is_reservoir`).  On success the species' total population is
    /// exactly `count`.
    pub fn add_particle_count(
        &mut self,
        name: String,
        to_region: &String,
        count: u32,
        logging: bool,
        is_reservoir: bool,
    ) -> (r: Result<(), SimError>)
        requires
            old(self).wf(),
            old(self).width() < 0x0010_0000,
            old(self).lattices@[0].n_voxels() * (old(self).width() + 1) < 0x8000_0000,
            old(self).regions.index_buffer is Some,
        ensures
            final(self).wf(),
            final(self).regions.regions == old(self).regions.regions,
            final(self).regions.types == old(self).regions.types,
            final(self).regions.volumes == old(self).regions.volumes,
            final(self).lattice_params == old(self).lattice_params,
            match r {
                Err(e) => {
                    &&& (e == SimError::UnknownRegion || e == SimError::RegionSaturated)
                    &&& (e == SimError::UnknownRegion <==> (forall|i: int|
                        0 <= i < old(self).regions.types@.len() ==> (
                        #[trigger] old(self).regions.types@[i].spec_name()) != Some(to_region@)))
                    &&& (e == SimError::RegionSaturated ==> count > 0)
                },
                Ok(()) => {
                    &&& final(self).width() == old(self).width() + 1
                    &&& final(self).lattices@[0].particle_names@ == old(self).lattices@[0].particle_names@.push(name)
                    &&& (!is_reservoir ==> total_species(
                        final(self).lattices@[0].concentrations@,
                        final(self).width(),
                        final(self).lattices@[0].n_voxels(),
                        old(self).width(),
                    ) == count)
                    &&& (is_reservoir ==> crate::regions::count_label(
                        final(self).lattices@[0].reservoir@,
                        old(self).width() as u32,
                    ) == count)
                    &&& exists|ri: int|
                        {
                            &&& 0 <= ri < old(self).regions.types@.len()
                            &&& (#[trigger] old(self).regions.types@[ri].spec_name()) == Some(
                                to_region@,
                            )
                            &&& (!is_reservoir ==> forall|u: int|
                                0 <= u < old(self).lattices@[0].n_voxels() && (
                                #[trigger] old(self).regions.regions@[u]) != ri as u32 ==> final(self).lattices@[0].occ(u) == old(self).lattices@[0].occ(u) && final(self).lattices@[0].conc_at(u, old(self).width()) == 0)
                            &&& (is_reservoir ==> forall|u: int|
                                0 <= u < old(self).lattices@[0].n_voxels() && (
                                #[trigger] old(self).regions.regions@[u]) != ri as u32 ==> final(self).lattices@[0].reservoir@[u] == old(self).lattices@[0].reservoir@[u])
                        }
                },
            },
    {
        let region_idx = match self.find_region_index(to_region) {
            Some(i) => i,
            None => {
                return Err(SimError::UnknownRegion);
            },
        };
        let empty = {
            let buckets = match &self.regions.index_buffer {
                Some(ib) => ib,
                None => {
                    proof {
                        assert(false);
                    }
                    return Err(SimError::UnknownRegion);
                },
            };
            buckets[region_idx].len() == 0
        };
        if empty && count > 0 {
            return Err(SimError::RegionSaturated);
        }
        let particle = self.register_species(name, logging);
        if count == 0 {
            proof {
                let l = self.lattices@[0];
                crate::regions::lemma_count_label_bounds(l.reservoir@, particle);
                if is_reservoir {
                    assert forall|i: int| 0 <= i < l.reservoir@.len() implies (
                    #[trigger] l.reservoir@[i]) != particle by {
                        assert(old(self).lattices@[0].voxel_wf(i));
                        assert(l.reservoir@[i] == old(self).lattices@[0].reservoir@[i]);
                    }
                    crate::regions::lemma_count_label_absent(l.reservoir@, particle);
                }
            }
            return Ok(());
        }
        let ghost pre_seed = self.lattices@[0];
        let ghost bucket_g = self.regions.index_buffer->Some_0@[region_idx as int];
        let result = {
            let buckets = match &self.regions.index_buffer {
                Some(ib) => ib,
                None => {
                    proof {
                        assert(false);
                    }
                    return Err(SimError::UnknownRegion);
                },
            };
            let bucket = &buckets[region_idx];
            proof {
                assert forall|n: int| 0 <= n < bucket@.len() implies (#[trigger] bucket@[n] as int)
                    < pre_seed.n_voxels() by {}
                assert forall|v: int| 0 <= v < pre_seed.n_voxels() implies (
                #[trigger] pre_seed.reservoir@[v]) != particle by {
                    assert(old(self).lattices@[0].voxel_wf(v));
                    assert(pre_seed.reservoir@[v] == old(self).lattices@[0].reservoir@[v]);
                }
            }
            let l0 = &mut self.lattices[0];
            l0.init_random_particles_region(particle, count, bucket, is_reservoir)
        };
        proof {
            if result is Ok {
                let ri = region_idx as int;
                let lold = old(self).lattices@[0];
                let lnew = self.lattices@[0];
                assert forall|u: int|
                    0 <= u < lold.n_voxels() && (#[trigger] old(self).regions.regions@[u]) != ri
                        as u32 implies (forall|n: int|
                    0 <= n < bucket_g@.len() ==> (#[trigger] bucket_g@[n] as int) != u) by {
                    assert forall|n: int| 0 <= n < bucket_g@.len() implies (#[trigger] bucket_g@[n]
                        as int) != u by {
                        assert(old(self).regions.regions@[bucket_g@[n] as int] == ri as u32);
                    }
                }
                if !is_reservoir {
                    assert forall|u: int|
                        0 <= u < lold.n_voxels() && (#[trigger] old(self).regions.regions@[u]) != ri
                            as u32 implies lnew.occ(u) == lold.occ(u) && lnew.conc_at(
                        u,
                        old(self).width(),
                    ) == 0 by {
                        assert(lnew.occ(u) == pre_seed.occ(u));
                        assert(lnew.conc_at(u, particle as int) == pre_seed.conc_at(
                            u,
                            particle as int,
                        ));
                        assert(pre_seed.occ(u) == lold.occ(u));
                        assert(pre_seed.conc_at(u, particle as int) == 0);
                    }
                } else {
                    assert forall|u: int|
                        0 <= u < lold.n_voxels() && (#[trigger] old(self).regions.regions@[u]) != ri
                            as u32 implies lnew.reservoir@[u] == lold.reservoir@[u] by {
                        assert(lnew.reservoir@[u] == pre_seed.reservoir@[u]);
                        assert(pre_seed.reservoir@[u] == lold.reservoir@[u]);
                    }
                }
            }
        }
        match result {
            Ok(()) => Ok(()),
            Err(e) => Err(SimError::RegionSaturated),
        }
    }

    /// Seed a fresh species by concentration: the count is the fixed-point
    /// concentration times the region's volume, rounded down.
    pub fn add_particle_concentration(
        &mut self,
        name: String,
        to_region: &String,
        concentration: i64,
        logging: bool,
        is_reservoir: bool,
    ) -> (r: Result<(), SimError>)
        requires
            old(self).wf(),
            old(self).width() < 0x0010_0000,
            old(self).lattices@[0].n_voxels() * (old(self).width() + 1) < 0x8000_0000,
            old(self).regions.index_buffer is Some,
            0 <= concentration <= 8 * FIXED_ONE,
        ensures
            final(self).wf(),
            final(self).lattice_params == old(self).lattice_params,
            final(self).regions.regions == old(self).regions.regions,
            final(self).regions.types == old(self).regions.types,
            final(self).regions.volumes == old(self).regions.volumes,
            r is Err ==> (r == Err::<(), SimError>(SimError::UnknownRegion) || r == Err::<
                (),
                SimError,
            >(SimError::RegionSaturated)),
            r == Err::<(), SimError>(SimError::UnknownRegion) <==> !region_declared(
                old(self).regions,
                to_region@,
            ),
            r is Ok ==> {
                &&& final(self).width() == old(self).width() + 1
                &&& final(self).lattices@[0].particle_names@ == old(self).lattices@[0].particle_names@.push(name)
                &&& (!is_reservoir ==> exists|ri: int|
                    {
                        &&& 0 <= ri < old(self).regions.types@.len()
                        &&& (#[trigger] old(self).regions.types@[ri].spec_name()) == Some(
                            to_region@,
                        )
                        &&& total_species(
                            final(self).lattices@[0].concentrations@,
                            final(self).width(),
                            final(self).lattices@[0].n_voxels(),
                            old(self).width(),
                        ) == (concentration * old(self).regions.volumes@[ri]) as int / (
                        FIXED_ONE as int)
                    })
            },
    {
        let region_idx = match self.find_region_index(to_region) {
            Some(i) => i,
            None => {
                return Err(SimError::UnknownRegion);
            },
        };
        let volume = self.regions.volumes[region_idx];
        proof {
            crate::regions::lemma_count_label_bounds(self.regions.regions@, region_idx as u32);
            assert(volume as int <= 0x1000_0000);
            crate::geometry::lemma_mul_bound(
                concentration as int,
                volume as int,
                8 * FIXED_ONE as int,
                0x1000_0000,
            );
            assert(concentration as int * volume as int <= (8 * FIXED_ONE as int) * (volume
                as int) && 0 <= concentration as int * volume as int) by (nonlinear_arith)
                requires
                    0 <= concentration <= 8 * FIXED_ONE,
                    0 <= volume,
            ;
            vstd::arithmetic::div_mod::lemma_div_is_ordered(
                concentration as int * volume as int,
                (8 * FIXED_ONE as int) * (volume as int),
                FIXED_ONE as int,
            );
            assert((8 * FIXED_ONE as int) * (volume as int) == (FIXED_ONE as int) * (8 * volume
                as int)) by (nonlinear_arith);
            vstd::arithmetic::div_mod::lemma_div_multiples_vanish(
                8 * volume as int,
                FIXED_ONE as int,
            );
            vstd::arithmetic::div_mod::lemma_div_pos_is_pos(
                concentration as int * volume as int,
                FIXED_ONE as int,
            );
        }
        let count64 = floor_div(concentration * (volume as i64), FIXED_ONE);
        let count = count64 as u32;
        let r = self.add_particle_count(name, to_region, count, logging, is_reservoir);
        proof {
            if r is Ok && !is_reservoir {
                let ri = region_idx as int;
                assert(0 <= ri < old(self).regions.types@.len() && old(self).regions.types@[ri].spec_name() == Some(to_region@) && total_species(
                    self.lattices@[0].concentrations@,
                    self.width(),
                    self.lattices@[0].n_voxels(),
                    old(self).width(),
                ) == (concentration * old(self).regions.volumes@[ri]) as int / (FIXED_ONE as int));
            }
        }
        r
    }

    /// Place exactly one particle of a fresh species in every voxel of the
    /// region; refuses with `SiteFull`, before declaring the species, if
    /// any voxel of the region has no free slot.
    pub fn fill_region(&mut self, name: String, to_region: &String, logging: bool) -> (r: Result<
        (),
        SimError,
    >)
        requires
            old(self).wf(),
            old(self).width() < 0x0010_0000,
            old(self).lattices@[0].n_voxels() * (old(self).width() + 1) < 0x8000_0000,
            old(self).regions.index_buffer is Some,
        ensures
            final(self).wf(),
            final(self).lattice_params == old(self).lattice_params,
            final(self).regions == old(self).regions,
            r == Err::<(), SimError>(SimError::UnknownRegion) <==> !region_declared(
                old(self).regions,
                to_region@,
            ),
            r == Err::<(), SimError>(SimError::SiteFull) <==> exists|ri: int|
                {
                    &&& 0 <= ri < old(self).regions.types@.len()
                    &&& (#[trigger] old(self).regions.types@[ri].spec_name()) == Some(to_region@)
                    &&& (forall|j: int|
                        0 <= j < ri ==> (#[trigger] old(self).regions.types@[j].spec_name())
                            != Some(to_region@))
                    &&& (exists|u: int|
                        0 <= u < old(self).lattices@[0].n_voxels() && (
                        #[trigger] old(self).regions.regions@[u]) == ri as u32 && old(self).lattices@[0].occ(u) >= crate::SITE_CAPACITY)
                },
            r is Err ==> (r == Err::<(), SimError>(SimError::UnknownRegion) || r == Err::<
                (),
                SimError,
            >(SimError::SiteFull)) && *final(self) == *old(self),
            r is Ok ==> {
                &&& final(self).width() == old(self).width() + 1
                &&& final(self).lattices@[0].particle_names@ == old(self).lattices@[0].particle_names@.push(name)
                &&& exists|ri: int|
                    {
                        &&& 0 <= ri < old(self).regions.types@.len()
                        &&& (#[trigger] old(self).regions.types@[ri].spec_name()) == Some(
                            to_region@,
                        )
                        &&& (forall|u: int|
                            0 <= u < old(self).lattices@[0].n_voxels() && (
                            #[trigger] old(self).regions.regions@[u]) == ri as u32 ==> final(self).lattices@[0].conc_at(u, old(self).width()) == 1 && final(self).lattices@[0].occ(u) == old(self).lattices@[0].occ(u) + 1)
                        &&& (forall|u: int|
                            0 <= u < old(self).lattices@[0].n_voxels() && (
                            #[trigger] old(self).regions.regions@[u]) != ri as u32 ==> final(self).lattices@[0].conc_at(u, old(self).width()) == 0 && final(self).lattices@[0].occ(u) == old(self).lattices@[0].occ(u))
                        &&& total_species(
                            final(self).lattices@[0].concentrations@,
                            final(self).width(),
                            final(self).lattices@[0].n_voxels(),
                            old(self).width(),
                        ) == old(self).regions.volumes@[ri]
                    }
            },
    {
        let region_idx = match self.find_region_index(to_region) {
            Some(i) => i,
            None => {
                return Err(SimError::UnknownRegion);
            },
        };
        let full_found = {
            let buckets = match &self.regions.index_buffer {
                Some(ib) => ib,
                None => {
                    proof {
                        assert(false);
                    }
                    return Err(SimError::UnknownRegion);
                },
            };
            let bucket = &buckets[region_idx];
            let mut found = false;
            let mut m: usize = 0;
            let len = bucket.len();
            while m < len
                invariant
                    m <= len,
                    len == bucket@.len(),
                    self.wf(),
                    forall|t: int|
                        0 <= t < bucket@.len() ==> (#[trigger] bucket@[t] as int)
                            < self.lattices@[0].n_voxels(),
                    found == exists|t: int|
                        0 <= t < m && self.lattices@[0].occ(#[trigger] bucket@[t] as int)
                            >= crate::SITE_CAPACITY,
                decreases len - m,
            {
                let v = bucket[m] as usize;
                let l0 = &self.lattices[0];
                if l0.occupancy[v] >= crate::SITE_CAPACITY {
                    found = true;
                }
                m = m + 1;
            }
            found
        };
        proof {
            let ib = self.regions.index_buffer->Some_0;
            let ri = region_idx as int;
            let l = self.lattices@[0];
            if full_found {
                let t = choose|t: int|
                    0 <= t < ib@[ri]@.len() && l.occ(#[trigger] ib@[ri]@[t] as int)
                        >= crate::SITE_CAPACITY;
                assert(self.regions.regions@[ib@[ri]@[t] as int] == ri as u32);
                assert(exists|u: int|
                    0 <= u < l.n_voxels() && (#[trigger] self.regions.regions@[u]) == ri as u32
                        && l.occ(u) >= crate::SITE_CAPACITY);
            } else {
                assert forall|u: int|
                    0 <= u < l.n_voxels() && (#[trigger] self.regions.regions@[u]) == ri
                        as u32 implies l.occ(u) < crate::SITE_CAPACITY by {
                    assert(ib@[ri]@.contains(u as u32));
                    let n = choose|n: int| 0 <= n < ib@[ri]@.len() && ib@[ri]@[n] == u as u32;
                    assert(!(l.occ(ib@[ri]@[n] as int) >= crate::SITE_CAPACITY));
                }
            }
        }
        if full_found {
            return Err(SimError::SiteFull);
        }
        let particle = self.register_species(name, logging);
        let ghost pre_seed = self.lattices@[0];
        {
            let buckets = match &self.regions.index_buffer {
                Some(ib) => ib,
                None => {
                    proof {
                        assert(false);
                    }
                    return Err(SimError::UnknownRegion);
                },
            };
            let bucket = &buckets[region_idx];
            proof {
                assert forall|v: int| 0 <= v < pre_seed.n_voxels() implies (
                #[trigger] pre_seed.reservoir@[v]) != particle by {
                    assert(old(self).lattices@[0].voxel_wf(v));
                    assert(pre_seed.reservoir@[v] == old(self).lattices@[0].reservoir@[v]);
                }
                assert forall|t: int| 0 <= t < bucket@.len() implies pre_seed.occ(
                    #[trigger] bucket@[t] as int,
                ) < crate::SITE_CAPACITY by {}
            }
            let l0 = &mut self.lattices[0];
            l0.fill_region_particles(particle, bucket);
        }
        proof {
            let ib = old(self).regions.index_buffer->Some_0;
            let ri = region_idx as int;
            let lold = old(self).lattices@[0];
            let lnew = self.lattices@[0];
            assert forall|u: int|
                0 <= u < lold.n_voxels() && (#[trigger] old(self).regions.regions@[u]) == ri
                    as u32 implies lnew.conc_at(u, old(self).width()) == 1 && lnew.occ(u)
                == lold.occ(u) + 1 by {
                assert(ib@[ri]@.contains(u as u32));
                let n = choose|n: int| 0 <= n < ib@[ri]@.len() && ib@[ri]@[n] == u as u32;
                assert(lnew.conc_at(ib@[ri]@[n] as int, particle as int) == pre_seed.conc_at(
                    ib@[ri]@[n] as int,
                    particle as int,
                ) + 1);
                assert(pre_seed.conc_at(u, particle as int) == 0);
                assert(lnew.occ(ib@[ri]@[n] as int) == pre_seed.occ(ib@[ri]@[n] as int) + 1);
                assert(pre_seed.occ(u) == lold.occ(u));
            }
            assert forall|u: int|
                0 <= u < lold.n_voxels() && (#[trigger] old(self).regions.regions@[u]) != ri
                    as u32 implies lnew.conc_at(u, old(self).width()) == 0 && lnew.occ(u)
                == lold.occ(u) by {
                assert forall|n: int| 0 <= n < ib@[ri]@.len() implies (#[trigger] ib@[ri]@[n]
                    as int) != u by {
                    assert(old(self).regions.regions@[ib@[ri]@[n] as int] == ri as u32);
                }
                assert(lnew.conc_at(u, particle as int) == pre_seed.conc_at(u, particle as int));
                assert(pre_seed.conc_at(u, particle as int) == 0);
                assert(lnew.occ(u) == pre_seed.occ(u));
                assert(pre_seed.occ(u) == lold.occ(u));
            }
            assert(ib@[ri]@.len() as int == crate::regions::count_label(
                old(self).regions.regions@,
                ri as u32,
            ));
            assert(old(self).regions.volumes@[ri] as int == crate::regions::count_label(
                old(self).regions.regions@,
                ri as u32,
            ));
        }
        Ok(())
    }
}

/// Some region answers to the name.
pub open spec fn region_declared(m: Regions, name: Seq<char>) -> bool {
    exists|i: int| 0 <= i < m.types@.len() && (#[trigger] m.types@[i].spec_name()) == Some(name)
}

/// Some species (other than the void sentinel) carries the name.
pub open spec fn species_declared(l: crate::lattice::Lattice, name: Seq<char>) -> bool {
    exists|i: int| 1 <= i < l.particle_names@.len() && (#[trigger] l.particle_names@[i]@) == name
}

impl Simulation {
    /// Set the intra-region diffusion rate of every species in a region.
    pub fn set_diffusion_rate(&mut self, region: &String, rate_bits: u32) -> (r: Result<
        (),
        SimError,
    >)
        requires
            old(self).wf(),
        ensures
            final(self).wf(),
            final(self).lattices == old(self).lattices,
            final(self).regions == old(self).regions,
            final(self).lattice_params == old(self).lattice_params,
            final(self).reaction_params == old(self).reaction_params,
            final(self).stoichiometry_matrix == old(self).stoichiometry_matrix,
            r is Err <==> (r == Err::<(), SimError>(SimError::UnknownRegion) && !region_declared(
                old(self).regions,
                region@,
            )),
            r is Err ==> final(self).diffusion_matrix == old(self).diffusion_matrix,
            r is Ok ==> exists|ri: int|
                {
                    &&& 0 <= ri < old(self).regions.types@.len()
                    &&& (#[trigger] old(self).regions.types@[ri].spec_name()) == Some(region@)
                    &&& (forall|s: int|
                        0 <= s < old(self).width() ==> #[trigger] final(self).diffusion_matrix.at(
                            ri,
                            ri,
                            s,
                        ) == rate_bits)
                    &&& (forall|a: int, b: int, s: int|
                        0 <= a < old(self).regions.types@.len() && 0 <= b < old(self).regions.types@.len() && 0 <= s < old(self).width() && !(a == ri && b
                            == ri) ==> #[trigger] final(self).diffusion_matrix.at(a, b, s) == old(self).diffusion_matrix.at(a, b, s))
                },
    {
        let region_idx = match self.find_region_index(region) {
            Some(i) => i,
            None => {
                return Err(SimError::UnknownRegion);
            },
        };
        let w = self.lattices[0].particle_names.len();
        let ghost mid = *self;
        let mut s: usize = 0;
        while s < w
            invariant
                s <= w,
                w as int == mid.width(),
                mid.wf(),
                (region_idx as int) < mid.regions.types@.len(),
                self.lattices == mid.lattices,
                self.regions == mid.regions,
                self.stoichiometry_matrix == mid.stoichiometry_matrix,
                self.reaction_params == mid.reaction_params,
                self.reaction_rates == mid.reaction_rates,
                self.reactions_idx == mid.reactions_idx,
                self.lattice_params == mid.lattice_params,
                self.stats == mid.stats,
                self.diffusion_matrix.wf(mid.regions.types@.len() as int, w as int),
                self.diffusion_matrix.rates@.len() == mid.diffusion_matrix.rates@.len(),
                self.diffusion_matrix.rates@[0]@[0]@.len() == w as int,
                forall|t: int|
                    0 <= t < s ==> #[trigger] self.diffusion_matrix.at(
                        region_idx as int,
                        region_idx as int,
                        t,
                    ) == rate_bits,
                forall|a: int, b: int, s2: int|
                    0 <= a < mid.regions.types@.len() && 0 <= b < mid.regions.types@.len() && 0
                        <= s2 < w && !(a == region_idx && b == region_idx)
                        ==> #[trigger] self.diffusion_matrix.at(a, b, s2)
                        == mid.diffusion_matrix.at(a, b, s2),
            decreases w - s,
        {
            self.diffusion_matrix.set_rate(region_idx, region_idx, s, rate_bits);
            s = s + 1;
        }
        Ok(())
    }

    /// Set the intra-region diffusion rate of one species in one region;
    /// every other tensor entry keeps its value.
    pub fn set_diffusion_rate_particle(
        &mut self,
        particle: &String,
        region: &String,
        rate_bits: u32,
    ) -> (r: Result<(), SimError>)
        requires
            old(self).wf(),
        ensures
            final(self).wf(),
            final(self).lattices == old(self).lattices,
            final(self).regions == old(self).regions,
            final(self).lattice_params == old(self).lattice_params,
            final(self).reaction_params == old(self).reaction_params,
            final(self).stoichiometry_matrix == old(self).stoichiometry_matrix,
            r == Err::<(), SimError>(SimError::UnknownRegion) <==> !region_declared(
                old(self).regions,
                region@,
            ),
            r == Err::<(), SimError>(SimError::UnknownSpecies) <==> (region_declared(
                old(self).regions,
                region@,
            ) && !species_declared(old(self).lattices@[0], particle@)),
            r is Err ==> final(self).diffusion_matrix == old(self).diffusion_matrix,
            r is Ok ==> exists|ri: int, pi: int|
                {
                    &&& 0 <= ri < old(self).regions.types@.len()
                    &&& (#[trigger] old(self).regions.types@[ri].spec_name()) == Some(region@)
                    &&& 1 <= pi < old(self).width()
                    &&& (#[trigger] old(self).lattices@[0].particle_names@[pi]@) == particle@
                    &&& final(self).diffusion_matrix.at(ri, ri, pi) == rate_bits
                    &&& (forall|a: int, b: int, s: int|
                        0 <= a < old(self).regions.types@.len() && 0 <= b < old(self).regions.types@.len() && 0 <= s < old(self).width() && !(a == ri && b
                            == ri && s == pi) ==> #[trigger] final(self).diffusion_matrix.at(
                            a,
                            b,
                            s,
                        ) == old(self).diffusion_matrix.at(a, b, s))
                },
    {
        let region_idx = match self.find_region_index(region) {
            Some(i) => i,
            None => {
                return Err(SimError::UnknownRegion);
            },
        };
        let particle_idx = match self.lattices[0].find_particle(particle) {
            Some(i) => i,
            None => {
                return Err(SimError::UnknownSpecies);
            },
        };
        self.diffusion_matrix.set_rate(region_idx, region_idx, particle_idx, rate_bits);
        Ok(())
    }

    /// Set the transition rate of every species from one region into
    /// another; entries of other region pairs keep their values.
    pub fn set_transition_rate(
        &mut self,
        from_region: &String,
        to_region: &String,
        rate_bits: u32,
    ) -> (r: Result<(), SimError>)
        requires
            old(self).wf(),
        ensures
            final(self).wf(),
            final(self).lattices == old(self).lattices,
            final(self).regions == old(self).regions,
            final(self).lattice_params == old(self).lattice_params,
            final(self).reaction_params == old(self).reaction_params,
            final(self).stoichiometry_matrix == old(self).stoichiometry_matrix,
            r is Err <==> (r == Err::<(), SimError>(SimError::UnknownRegion) && (!region_declared(
                old(self).regions,
                from_region@,
            ) || !region_declared(old(self).regions, to_region@))),
            r is Err ==> final(self).diffusion_matrix == old(self).diffusion_matrix,
            r is Ok ==> exists|fi: int, ti: int|
                {
                    &&& 0 <= fi < old(self).regions.types@.len()
                    &&& (#[trigger] old(self).regions.types@[fi].spec_name()) == Some(from_region@)
                    &&& 0 <= ti < old(self).regions.types@.len()
                    &&& (#[trigger] old(self).regions.types@[ti].spec_name()) == Some(to_region@)
                    &&& (forall|s: int|
                        0 <= s < old(self).width() ==> #[trigger] final(self).diffusion_matrix.at(
                            fi,
                            ti,
                            s,
                        ) == rate_bits)
                    &&& (forall|a: int, b: int, s: int|
                        0 <= a < old(self).regions.types@.len() && 0 <= b < old(self).regions.types@.len() && 0 <= s < old(self).width() && !(a == fi && b
                            == ti) ==> #[trigger] final(self).diffusion_matrix.at(a, b, s) == old(self).diffusion_matrix.at(a, b, s))
                },
    {
        let from_idx = match self.find_region_index(from_region) {
            Some(i) => i,
            None => {
                return Err(SimError::UnknownRegion);
            },
        };
        let to_idx = match self.find_region_index(to_region) {
            Some(i) => i,
            None => {
                return Err(SimError::UnknownRegion);
            },
        };
        let w = self.lattices[0].particle_names.len();
        let ghost mid = *self;
        let mut s: usize = 0;
        while s < w
            invariant
                s <= w,
                w as int == mid.width(),
                mid.wf(),
                (from_idx as int) < mid.regions.types@.len(),
                (to_idx as int) < mid.regions.types@.len(),
                self.lattices == mid.lattices,
                self.regions == mid.regions,
                self.stoichiometry_matrix == mid.stoichiometry_matrix,
                self.reaction_params == mid.reaction_params,
                self.reaction_rates == mid.reaction_rates,
                self.reactions_idx == mid.reactions_idx,
                self.lattice_params == mid.lattice_params,
                self.stats == mid.stats,
                self.diffusion_matrix.wf(mid.regions.types@.len() as int, w as int),
                self.diffusion_matrix.rates@.len() == mid.diffusion_matrix.rates@.len(),
                self.diffusion_matrix.rates@[0]@[0]@.len() == w as int,
                forall|t: int|
                    0 <= t < s ==> #[trigger] self.diffusion_matrix.at(
                        from_idx as int,
                        to_idx as int,
                        t,
                    ) == rate_bits,
                forall|a: int, b: int, s2: int|
                    0 <= a < mid.regions.types@.len() && 0 <= b < mid.regions.types@.len() && 0
                        <= s2 < w && !(a == from_idx && b == to_idx)
                        ==> #[trigger] self.diffusion_matrix.at(a, b, s2)
                        == mid.diffusion_matrix.at(a, b, s2),
            decreases w - s,
        {
            self.diffusion_matrix.set_rate(from_idx, to_idx, s, rate_bits);
            s = s + 1;
        }
        Ok(())
    }

    /// Set the transition rate of one species from one region into
    /// another; every other tensor entry keeps its value.
    pub fn set_transition_rate_particle(
        &mut self,
        particle: &String,
        from_region: &String,
        to_region: &String,
        rate_bits: u32,
    ) -> (r: Result<(), SimError>)
        requires
            old(self).wf(),
        ensures
            final(self).wf(),
            final(self).lattices == old(self).lattices,
            final(self).regions == old(self).regions,
            final(self).lattice_params == old(self).lattice_params,
            final(self).reaction_params == old(self).reaction_params,
            final(self).stoichiometry_matrix == old(self).stoichiometry_matrix,
            r == Err::<(), SimError>(SimError::UnknownRegion) <==> (!region_declared(
                old(self).regions,
                from_region@,
            ) || !region_declared(old(self).regions, to_region@)),
            r == Err::<(), SimError>(SimError::UnknownSpecies) <==> (region_declared(
                old(self).regions,
                from_region@,
            ) && region_declared(old(self).regions, to_region@) && !species_declared(
                old(self).lattices@[0],
                particle@,
            )),
            r is Err ==> final(self).diffusion_matrix == old(self).diffusion_matrix,
            r is Ok ==> exists|fi: int, ti: int, pi: int|
                {
                    &&& 0 <= fi < old(self).regions.types@.len()
                    &&& (#[trigger] old(self).regions.types@[fi].spec_name()) == Some(from_region@)
                    &&& 0 <= ti < old(self).regions.types@.len()
                    &&& (#[trigger] old(self).regions.types@[ti].spec_name()) == Some(to_region@)
                    &&& 1 <= pi < old(self).width()
                    &&& (#[trigger] old(self).lattices@[0].particle_names@[pi]@) == particle@
                    &&& final(self).diffusion_matrix.at(fi, ti, pi) == rate_bits
                    &&& (forall|a: int, b: int, s: int|
                        0 <= a < old(self).regions.types@.len() && 0 <= b < old(self).regions.types@.len() && 0 <= s < old(self).width() && !(a == fi && b
                            == ti && s == pi) ==> #[trigger] final(self).diffusion_matrix.at(
                            a,
                            b,
                            s,
                        ) == old(self).diffusion_matrix.at(a, b, s))
                },
    {
        let from_idx = match self.find_region_index(from_region) {
            Some(i) => i,
            None => {
                return Err(SimError::UnknownRegion);
            },
        };
        let to_idx = match self.find_region_index(to_region) {
            Some(i) => i,
            None => {
                return Err(SimError::UnknownRegion);
            },
        };
        let particle_idx = match self.lattices[0].find_particle(particle) {
            Some(i) => i,
            None => {
                return Err(SimError::UnknownSpecies);
            },
        };
        self.diffusion_matrix.set_rate(from_idx, to_idx, particle_idx, rate_bits);
        Ok(())
    }

    /// Add one reaction: the named reactants and products are resolved to
    /// species IDs, a stoichiometry row of per-species net changes and a
    /// packed reactant-index row are appended, and the rate is recorded.
    /// More than three reactants refuse with `Arity`.
    pub fn add_reaction(
        &mut self,
        reactants: &Vec<String>,
        products: &Vec<String>,
        rate_bits: u32,
    ) -> (r: Result<(), SimError>)
        requires
            old(self).wf(),
            old(self).reaction_params.raw_params.num_reactions < MAX_REACTIONS,
            products@.len() < 0x1000,
        ensures
            final(self).wf(),
            final(self).lattices == old(self).lattices,
            final(self).regions == old(self).regions,
            final(self).lattice_params == old(self).lattice_params,
            final(self).diffusion_matrix == old(self).diffusion_matrix,
            r is Ok <==> (reactants@.len() <= 3 && (forall|j: int|
                0 <= j < reactants@.len() ==> species_declared(
                    old(self).lattices@[0],
                    (#[trigger] reactants@[j])@,
                )) && (forall|j: int|
                0 <= j < products@.len() ==> species_declared(
                    old(self).lattices@[0],
                    (#[trigger] products@[j])@,
                ))),
            match r {
                Err(e) => {
                    &&& *final(self) == *old(self)
                    &&& (e == SimError::Arity || e == SimError::UnknownSpecies)
                    &&& (e == SimError::Arity <==> reactants@.len() > 3)
                },
                Ok(()) => {
                    &&& reactants@.len() <= 3
                    &&& final(self).reaction_params.raw_params.num_reactions == old(self).reaction_params.raw_params.num_reactions + 1
                    &&& exists|rid: Seq<u32>, pid: Seq<u32>|
                        #![trigger rid.len(), pid.len()]
                        {
                            &&& rid.len() == reactants@.len()
                            &&& pid.len() == products@.len()
                            &&& (forall|i: int|
                                0 <= i < rid.len() ==> 1 <= (#[trigger] rid[i] as int) < old(self).width() && old(self).lattices@[0].particle_names@[rid[i] as int]@
                                    == reactants@[i]@)
                            &&& (forall|i: int|
                                0 <= i < pid.len() ==> 1 <= (#[trigger] pid[i] as int) < old(self).width() && old(self).lattices@[0].particle_names@[pid[i] as int]@
                                    == products@[i]@)
                            &&& (forall|s: int|
                                0 <= s < old(self).width() ==> (
                                #[trigger] final(self).stoichiometry_matrix@.last()@[s]) as int
                                    == stoich_delta(rid, pid, s))
                            &&& (forall|i: int|
                                0 <= i < 3 ==> (#[trigger] final(self).reactions_idx@.last()[i])
                                    == (if i < 3 - rid.len() {
                                    0u32
                                } else {
                                    rid[i - (3 - rid.len())]
                                }))
                        }
                    &&& final(self).reaction_rates@ == old(self).reaction_rates@.push(rate_bits)
                },
            },
    {
        if reactants.len() > 3 {
            return Err(SimError::Arity);
        }
        let mut reactants_idx: Vec<u32> = Vec::new();
        let mut m: usize = 0;
        let rn = reactants.len();
        while m < rn
            invariant
                m <= rn,
                rn == reactants@.len(),
                rn <= 3,
                self == old(self),
                old(self).wf(),
                reactants_idx@.len() == m,
                forall|i: int|
                    0 <= i < m ==> 1 <= (#[trigger] reactants_idx@[i] as int) < old(self).width()
                        && old(self).lattices@[0].particle_names@[reactants_idx@[i] as int]@
                        == reactants@[i]@,
            decreases rn - m,
        {
            let l0 = &self.lattices[0];
            match l0.find_particle(&reactants[m]) {
                Some(idx) => {
                    reactants_idx.push(idx as u32);
                },
                None => {
                    proof {
                        assert(!species_declared(old(self).lattices@[0], reactants@[m as int]@));
                    }
                    return Err(SimError::UnknownSpecies);
                },
            }
            m = m + 1;
        }
        let mut products_idx: Vec<u32> = Vec::new();
        let mut k: usize = 0;
        let pn = products.len();
        while k < pn
            invariant
                k <= pn,
                pn == products@.len(),
                self == old(self),
                old(self).wf(),
                rn == reactants@.len(),
                rn <= 3,
                reactants_idx@.len() == rn,
                forall|i: int|
                    0 <= i < rn ==> 1 <= (#[trigger] reactants_idx@[i] as int) < old(self).width()
                        && old(self).lattices@[0].particle_names@[reactants_idx@[i] as int]@
                        == reactants@[i]@,
                products_idx@.len() == k,
                forall|i: int|
                    0 <= i < k ==> 1 <= (#[trigger] products_idx@[i] as int) < old(self).width()
                        && old(self).lattices@[0].particle_names@[products_idx@[i] as int]@
                        == products@[i]@,
            decreases pn - k,
        {
            let l0 = &self.lattices[0];
            match l0.find_particle(&products[k]) {
                Some(idx) => {
                    products_idx.push(idx as u32);
                },
                None => {
                    proof {
                        assert(!species_declared(old(self).lattices@[0], products@[k as int]@));
                    }
                    return Err(SimError::UnknownSpecies);
                },
            }
            k = k + 1;
        }
        let w = self.lattices[0].particle_names.len();
        let row = stoichiometry_row(w, &reactants_idx, &products_idx);
        self.stoichiometry_matrix.push(row);
        self.reactions_idx.push(reactant_index_row(&reactants_idx));
        self.reaction_rates.push(rate_bits);
        self.reaction_params.raw_params.num_reactions = self.reaction_params.raw_params.num_reactions
            + 1;
        proof {
            assert(self.stoichiometry_matrix@.last()@.len() == old(self).width());
            assert(forall|s: int|
                0 <= s < old(self).width() ==> (#[trigger] self.stoichiometry_matrix@.last()@[s])
                    as int == stoich_delta(reactants_idx@, products_idx@, s));
            assert forall|j: int| 0 <= j < reactants@.len() implies species_declared(
                old(self).lattices@[0],
                (#[trigger] reactants@[j])@,
            ) by {
                assert(old(self).lattices@[0].particle_names@[reactants_idx@[j] as int]@
                    == reactants@[j]@);
            }
            assert forall|j: int| 0 <= j < products@.len() implies species_declared(
                old(self).lattices@[0],
                (#[trigger] products@[j])@,
            ) by {
                assert(old(self).lattices@[0].particle_names@[products_idx@[j] as int]@
                    == products@[j]@);
            }
        }
        Ok(())
    }

    /// Copy the seeded buffer's token slots and occupancy into the second
    /// buffer, restoring the step-boundary invariant that both buffers
    /// hold identical state.
    pub fn sync_buffers(&mut self)
        requires
            old(self).wf(),
        ensures
            final(self).wf(),
            final(self).lattices@[0] == old(self).lattices@[0],
            final(self).lattices@[1].lattice@ == old(self).lattices@[0].lattice@,
            final(self).lattices@[1].occupancy@ == old(self).lattices@[0].occupancy@,
            final(self).regions == old(self).regions,
            final(self).lattice_params == old(self).lattice_params,
            final(self).diffusion_matrix == old(self).diffusion_matrix,
            final(self).stoichiometry_matrix == old(self).stoichiometry_matrix,
            final(self).reaction_params == old(self).reaction_params,
    {
        let lattice_copy = self.lattices[0].lattice.clone();
        let occupancy_copy = self.lattices[0].occupancy.clone();
        let l1 = &mut self.lattices[1];
        l1.lattice = lattice_copy;
        l1.occupancy = occupancy_copy;
    }

    /// The device actions of one step, in submission order: hopping, then
    /// reactions, then the texture payload, then the copies that
    /// re-equalise the buffers, then — on cadence — the read-back.
    pub fn step(&self, frame_num: u32, write_freq: u32) -> (plan: Vec<StepAction>)
        requires
            write_freq > 0,
        ensures
            plan@.len() == (if crate::scheduler::spec_should_read_back(frame_num, write_freq) {
                6int
            } else {
                5int
            }),
            plan@[0] == (StepAction::DispatchRdme {
                input: crate::scheduler::spec_input_buffer(frame_num) as usize,
                output: crate::scheduler::spec_output_buffer(frame_num) as usize,
            }),
            plan@[1] == (StepAction::DispatchCme {
                input: crate::scheduler::spec_input_buffer(frame_num) as usize,
                output: crate::scheduler::spec_output_buffer(frame_num) as usize,
            }),
            plan@[2] == (StepAction::TexturePass {
                output: crate::scheduler::spec_output_buffer(frame_num) as usize,
            }),
            plan@[3] == (StepAction::CopyLattice {
                from: crate::scheduler::spec_output_buffer(frame_num) as usize,
                to: crate::scheduler::spec_input_buffer(frame_num) as usize,
            }),
            plan@[4] == (StepAction::CopyOccupancy {
                from: crate::scheduler::spec_output_buffer(frame_num) as usize,
                to: crate::scheduler::spec_input_buffer(frame_num) as usize,
            }),
            crate::scheduler::spec_should_read_back(frame_num, write_freq) ==> plan@[5]
                == StepAction::ReadStatistics,
    {
        step_plan(frame_num, write_freq)
    }

    /// Total population of each species over the whole volume, as sampled
    /// into the statistics buffer.
    pub fn concentration_totals(&self) -> (totals: Vec<i32>)
        requires
            self.wf(),
        ensures
            totals@.len() == self.width(),
            forall|s: int|
                0 <= s < self.width() ==> (#[trigger] totals@[s]) as int == total_species(
                    self.lattices@[0].concentrations@,
                    self.width(),
                    self.lattices@[0].n_voxels(),
                    s,
                ),
    {
        let l0 = &self.lattices[0];
        let w = l0.particle_names.len();
        let nv = l0.occupancy.len();
        let mut totals: Vec<i32> = Vec::new();
        let mut s: usize = 0;
        while s < w
            invariant
                s <= w,
                w as int == l0.width(),
                nv as int == l0.n_voxels(),
                l0.wf(),
                l0 == self.lattices@[0],
                totals@.len() == s,
                forall|t: int|
                    0 <= t < s ==> (#[trigger] totals@[t]) as int == total_species(
                        l0.concentrations@,
                        w as int,
                        nv as int,
                        t,
                    ),
            decreases w - s,
        {
            let mut sum: i32 = 0;
            let mut v: usize = 0;
            while v < nv
                invariant
                    v <= nv,
                    s < w,
                    w as int == l0.width(),
                    nv as int == l0.n_voxels(),
                    l0.wf(),
                    sum as int == total_species(l0.concentrations@, w as int, v as int, s as int),
                    0 <= sum <= 8 * v,
                decreases nv - v,
            {
                proof {
                    assert(0 <= v * w + s < nv * w && v * w + w <= nv * w) by (nonlinear_arith)
                        requires
                            0 <= v < nv,
                            0 <= s < w,
                    ;
                    assert(l0.voxel_wf(v as int));
                    assert(0 <= l0.conc_at(v as int, s as int) <= 8) by {
                        if s > 0 {
                            if l0.reservoir@[v as int] == s {
                            } else {
                                crate::regions::lemma_count_label_bounds(
                                    l0.token_row(v as int),
                                    s as u32,
                                );
                            }
                        }
                    }
                }
                let c = l0.concentrations[v * w + s];
                sum = sum + c;
                v = v + 1;
            }
            totals.push(sum);
            s = s + 1;
        }
        totals
    }
}


impl Simulation {
    /// Scatter basis spheres of the given descriptor inside `to_region`
    /// until at least `max_volume` voxels carry the new label; every
    /// sphere centre is drawn boundary-aware so the whole ball fits inside
    /// the parent region.
    pub fn add_sparse_region(
        &mut self,
        name: String,
        base_region: RegionType,
        to_region: &String,
        max_volume: u32,
        diffusion_rate_bits: u32,
    ) -> (r: Result<(), SimError>)
        requires
            old(self).wf(),
            old(self).regions.types@.len() < 0x0400_0000,
            base_region matches RegionType::Sphere { radius, .. } && 0 <= radius <= COORD_BOUND,
        ensures
            final(self).wf(),
            final(self).lattices == old(self).lattices,
            final(self).stoichiometry_matrix == old(self).stoichiometry_matrix,
            final(self).reaction_params == old(self).reaction_params,
            r is Err ==> (r == Err::<(), SimError>(SimError::UnknownRegion) || r == Err::<
                (),
                SimError,
            >(SimError::RegionSaturated) || r == Err::<(), SimError>(SimError::CannotFit)),
            r == Err::<(), SimError>(SimError::UnknownRegion) <==> !region_declared(
                old(self).regions,
                to_region@,
            ),
            r == Err::<(), SimError>(SimError::RegionSaturated) <==> exists|ri: int|
                {
                    &&& 0 <= ri < old(self).regions.types@.len()
                    &&& (#[trigger] old(self).regions.types@[ri].spec_name()) == Some(to_region@)
                    &&& (forall|j: int|
                        0 <= j < ri ==> (#[trigger] old(self).regions.types@[j].spec_name())
                            != Some(to_region@))
                    &&& old(self).regions.volumes@[ri] <= max_volume
                },
            (r == Err::<(), SimError>(SimError::UnknownRegion) || r == Err::<(), SimError>(
                SimError::RegionSaturated,
            )) ==> *final(self) == *old(self),
            r is Ok ==> {
                &&& final(self).regions.types@.len() == old(self).regions.types@.len() + 1
                &&& final(self).regions.types@.last() matches RegionType::Sparse { .. }
                &&& final(self).regions.volumes@.last() >= max_volume
                &&& exists|ri: int|
                    {
                        &&& 0 <= ri < old(self).regions.types@.len()
                        &&& (#[trigger] old(self).regions.types@[ri].spec_name()) == Some(
                            to_region@,
                        )
                        &&& (forall|u: int|
                            0 <= u < old(self).regions.regions@.len() && (
                            #[trigger] final(self).regions.regions@[u]) != old(self).regions.regions@[u] ==> final(self).regions.regions@[u] == old(self).regions.types@.len() as u32 && old(self).regions.regions@[u] == ri
                                as u32)
                    }
            },
    {
        let to_region_idx = match self.find_region_index(to_region) {
            Some(i) => i,
            None => {
                return Err(SimError::UnknownRegion);
            },
        };
        if self.regions.volumes[to_region_idx] <= max_volume {
            return Err(SimError::RegionSaturated);
        }
        let radius = match &base_region {
            RegionType::Sphere { radius, .. } => *radius,
            _ => {
                proof {
                    assert(false);
                }
                return Err(SimError::UnknownRegion);
            },
        };
        let vs = self.lattice_params.voxel_size;
        let mut radius_voxels: Vec<usize> = Vec::new();
        proof {
            let a = self.lattice_params.res[0] as int;
            let b = self.lattice_params.res[1] as int;
            let c = self.lattice_params.res[2] as int;
            assert(vs[0] <= a * vs[0] && vs[1] <= b * vs[1] && vs[2] <= c * vs[2])
                by (nonlinear_arith)
                requires
                    1 <= a && 1 <= b && 1 <= c,
                    0 < vs[0] && 0 < vs[1] && 0 < vs[2],
            ;
            lemma_div_shrink(radius as int, vs[0] as int, 0x2000_0000);
            lemma_div_shrink(radius as int, vs[1] as int, 0x2000_0000);
            lemma_div_shrink(radius as int, vs[2] as int, 0x2000_0000);
            vstd::arithmetic::div_mod::lemma_div_pos_is_pos(radius as int, vs[0] as int);
            vstd::arithmetic::div_mod::lemma_div_pos_is_pos(radius as int, vs[1] as int);
            vstd::arithmetic::div_mod::lemma_div_pos_is_pos(radius as int, vs[2] as int);
        }
        radius_voxels.push(floor_div(radius, vs[0]) as usize);
        radius_voxels.push(floor_div(radius, vs[1]) as usize);
        radius_voxels.push(floor_div(radius, vs[2]) as usize);
        let sphere_record = Sphere { name: clone_string(&name), center: [0, 0, 0], radius };
        let descriptor = RegionType::Sparse { name, base_region: sphere_record };
        let new_label = self.regions.types.len() as u32;
        self.regions.begin_region(descriptor);
        proof {
            assert forall|u: int| 0 <= u < self.regions.regions@.len() implies (
            #[trigger] self.regions.regions@[u]) != new_label by {
                assert((old(self).regions.regions@[u] as int) < old(self).regions.types@.len());
            }
            crate::regions::lemma_count_label_absent(self.regions.regions@, new_label);
        }
        let params = self.lattice_params;
        let mut curr_volume: u32 = 0;
        let mut passes: u32 = 0;
        let budget = max_volume;
        let mut outcome: Result<(), SimError> = Ok(());
        let mut done = false;
        while !done
            invariant
                self.lattice_params.wf(),
                self.lattices@.len() == 2,
                self.lattices@[0].wf(),
                self.lattices@[0].res == self.lattice_params.res,
                self.lattices@[1].res == self.lattice_params.res,
                self.regions.wf(),
                self.regions.res == self.lattice_params.res,
                self.regions.types@.len() < 0x0800_0000,
                self.diffusion_matrix.wf(
                    old(self).regions.types@.len() as int,
                    self.width(),
                ),
                self.reaction_params.raw_params.num_species as int + 1 == self.width(),
                self.stoichiometry_matrix@.len() == self.reaction_params.raw_params.num_reactions,
                forall|j2: int|
                    0 <= j2 < self.stoichiometry_matrix@.len() ==> (
                    #[trigger] self.stoichiometry_matrix@[j2]@.len()) == self.width(),
                self.reactions_idx@.len() == self.reaction_params.raw_params.num_reactions,
                self.reaction_rates@.len() == self.reaction_params.raw_params.num_reactions,
                self.reaction_params.raw_params.num_reactions <= MAX_REACTIONS,
                vs == params.voxel_size,
                outcome == Ok::<(), SimError>(()) || outcome == Err::<(), SimError>(
                    SimError::CannotFit,
                ),
                outcome == Ok::<(), SimError>(()) && done ==> curr_volume >= max_volume,
                params == self.lattice_params,
                params.wf(),
                self.regions.res == params.res,
                (to_region_idx as int) < self.regions.types@.len(),
                (new_label as int) < self.regions.types@.len(),
                self.regions.types@.len() == old(self).regions.types@.len() + 1,
                self.regions.types@.last() matches RegionType::Sparse { .. },
                self.lattices == old(self).lattices,
                self.stoichiometry_matrix == old(self).stoichiometry_matrix,
                self.reaction_params == old(self).reaction_params,
                self.reactions_idx == old(self).reactions_idx,
                self.reaction_rates == old(self).reaction_rates,
                self.stats == old(self).stats,
                self.diffusion_matrix == old(self).diffusion_matrix,
                radius_voxels@.len() == 3,
                forall|d: int| 0 <= d < 3 ==> (#[trigger] radius_voxels@[d]) <= 0x2000_0000,
                0 <= radius <= COORD_BOUND,
                passes <= budget,
                self.regions.index_buffer is None,
                curr_volume as int == crate::regions::count_label(
                    self.regions.regions@,
                    new_label,
                ),
                new_label as int == old(self).regions.types@.len(),
                (to_region_idx as int) < old(self).regions.types@.len(),
                old(self).regions.types@[to_region_idx as int].spec_name() == Some(to_region@),
                self.regions.regions@.len() == old(self).regions.regions@.len(),
                forall|u: int|
                    0 <= u < old(self).regions.regions@.len() && (
                    #[trigger] self.regions.regions@[u]) != old(self).regions.regions@[u]
                        ==> self.regions.regions@[u] == new_label && old(self).regions.regions@[u]
                        == to_region_idx as u32,
                self.lattice_params.n_regions == old(self).lattice_params.n_regions,
                self.lattice_params.res == old(self).lattice_params.res,
                self.lattice_params.voxel_size == old(self).lattice_params.voxel_size,
                self.lattice_params.tau_bits == old(self).lattice_params.tau_bits,
                self.lattice_params.lambda_bits == old(self).lattice_params.lambda_bits,
            decreases budget - passes + (if done { 0int } else { 1int }),
        {
            if curr_volume >= max_volume {
                outcome = Ok(());
                done = true;
                continue;
            }
            if passes >= budget {
                outcome = Err(SimError::CannotFit);
                done = true;
                continue;
            }
            passes = passes + 1;
            let sampled = self.regions.generate_boundary_aware(to_region_idx, &radius_voxels);
            let point = match sampled {
                Ok(p) => p,
                Err(_) => {
                    outcome = Err(SimError::CannotFit);
                    done = true;
                    continue;
                },
            };
            let r0 = radius_voxels[0];
            let r1 = radius_voxels[1];
            let r2 = radius_voxels[2];
            proof {
                let a = params.res[0] as int;
                let b = params.res[1] as int;
                let c = params.res[2] as int;
                assert(0 <= point[0] * vs[0] <= a * vs[0] && 0 <= point[1] * vs[1] <= b * vs[1]
                    && 0 <= point[2] * vs[2] <= c * vs[2]) by (nonlinear_arith)
                    requires
                        0 <= point[0] < a,
                        0 <= point[1] < b,
                        0 <= point[2] < c,
                        0 < vs[0] && 0 < vs[1] && 0 < vs[2],
                ;
            }
            let center_fp: [i64; 3] = [
                (point[0] as i64) * vs[0],
                (point[1] as i64) * vs[1],
                (point[2] as i64) * vs[2],
            ];
            let mut x = point[0] - r0;
            while x < point[0] + r0
                invariant
                    self.lattice_params.wf(),
                    self.lattices@.len() == 2,
                    self.lattices@[0].wf(),
                    self.lattices@[0].res == self.lattice_params.res,
                    self.lattices@[1].res == self.lattice_params.res,
                    self.regions.wf(),
                    self.regions.res == self.lattice_params.res,
                    self.regions.types@.len() < 0x0800_0000,
                    self.diffusion_matrix.wf(
                        old(self).regions.types@.len() as int,
                        self.width(),
                    ),
                    self.reaction_params.raw_params.num_species as int + 1 == self.width(),
                    self.stoichiometry_matrix@.len() == self.reaction_params.raw_params.num_reactions,
                    forall|j2: int|
                        0 <= j2 < self.stoichiometry_matrix@.len() ==> (
                        #[trigger] self.stoichiometry_matrix@[j2]@.len()) == self.width(),
                    self.reactions_idx@.len() == self.reaction_params.raw_params.num_reactions,
                    self.reaction_rates@.len() == self.reaction_params.raw_params.num_reactions,
                    self.reaction_params.raw_params.num_reactions <= MAX_REACTIONS,
                    vs == params.voxel_size,
                    params == self.lattice_params,
                    params.wf(),
                    self.regions.res == params.res,
                    (new_label as int) < self.regions.types@.len(),
                    self.regions.types@.len() == old(self).regions.types@.len() + 1,
                    self.regions.types@.last() matches RegionType::Sparse { .. },
                    self.lattices == old(self).lattices,
                    self.stoichiometry_matrix == old(self).stoichiometry_matrix,
                    self.reaction_params == old(self).reaction_params,
                    self.reactions_idx == old(self).reactions_idx,
                    self.reaction_rates == old(self).reaction_rates,
                    self.stats == old(self).stats,
                    self.diffusion_matrix == old(self).diffusion_matrix,
                    self.regions.index_buffer is None,
                    curr_volume as int == crate::regions::count_label(
                        self.regions.regions@,
                        new_label,
                    ),
                    new_label as int == old(self).regions.types@.len(),
                    (to_region_idx as int) < old(self).regions.types@.len(),
                    self.regions.regions@.len() == old(self).regions.regions@.len(),
                    forall|u: int|
                        0 <= u < old(self).regions.regions@.len() && (
                        #[trigger] self.regions.regions@[u]) != old(self).regions.regions@[u]
                            ==> self.regions.regions@[u] == new_label && old(self).regions.regions@[u] == to_region_idx as u32,
                    self.lattice_params.n_regions == old(self).lattice_params.n_regions,
                    radius_voxels@.len() == 3,
                    forall|d: int| 0 <= d < 3 ==> (#[trigger] radius_voxels@[d]) <= 0x2000_0000,
                    0 <= radius <= COORD_BOUND,
                    r0 == radius_voxels@[0] && r1 == radius_voxels@[1] && r2 == radius_voxels@[2],
                    r0 <= point[0] && point[0] + r0 < params.res[0],
                    r1 <= point[1] && point[1] + r1 < params.res[1],
                    r2 <= point[2] && point[2] + r2 < params.res[2],
                    point[0] - r0 <= x <= point[0] + r0,
                    center_fp[0] == point[0] * vs[0] && center_fp[1] == point[1] * vs[1]
                        && center_fp[2] == point[2] * vs[2],
                    vs == params.voxel_size,
                    -COORD_BOUND <= center_fp[0] <= COORD_BOUND,
                    -COORD_BOUND <= center_fp[1] <= COORD_BOUND,
                    -COORD_BOUND <= center_fp[2] <= COORD_BOUND,
                decreases point[0] + r0 - x,
            {
                let mut y = point[1] - r1;
                while y < point[1] + r1
                    invariant
                        self.lattice_params.wf(),
                        self.lattices@.len() == 2,
                        self.lattices@[0].wf(),
                        self.lattices@[0].res == self.lattice_params.res,
                        self.lattices@[1].res == self.lattice_params.res,
                        self.regions.wf(),
                        self.regions.res == self.lattice_params.res,
                        self.regions.types@.len() < 0x0800_0000,
                        self.diffusion_matrix.wf(
                            old(self).regions.types@.len() as int,
                            self.width(),
                        ),
                        self.reaction_params.raw_params.num_species as int + 1 == self.width(),
                        self.stoichiometry_matrix@.len() == self.reaction_params.raw_params.num_reactions,
                        forall|j2: int|
                            0 <= j2 < self.stoichiometry_matrix@.len() ==> (
                            #[trigger] self.stoichiometry_matrix@[j2]@.len()) == self.width(),
                        self.reactions_idx@.len() == self.reaction_params.raw_params.num_reactions,
                        self.reaction_rates@.len() == self.reaction_params.raw_params.num_reactions,
                        self.reaction_params.raw_params.num_reactions <= MAX_REACTIONS,
                        vs == params.voxel_size,
                        params == self.lattice_params,
                        params.wf(),
                        self.regions.res == params.res,
                        (new_label as int) < self.regions.types@.len(),
                        self.regions.types@.len() == old(self).regions.types@.len() + 1,
                        self.regions.types@.last() matches RegionType::Sparse { .. },
                        self.lattices == old(self).lattices,
                        self.stoichiometry_matrix == old(self).stoichiometry_matrix,
                        self.reaction_params == old(self).reaction_params,
                        self.reactions_idx == old(self).reactions_idx,
                        self.reaction_rates == old(self).reaction_rates,
                        self.stats == old(self).stats,
                        self.diffusion_matrix == old(self).diffusion_matrix,
                        self.regions.index_buffer is None,
                        curr_volume as int == crate::regions::count_label(
                            self.regions.regions@,
                            new_label,
                        ),
                        new_label as int == old(self).regions.types@.len(),
                        (to_region_idx as int) < old(self).regions.types@.len(),
                        self.regions.regions@.len() == old(self).regions.regions@.len(),
                        forall|u: int|
                            0 <= u < old(self).regions.regions@.len() && (
                            #[trigger] self.regions.regions@[u]) != old(self).regions.regions@[u]
                                ==> self.regions.regions@[u] == new_label && old(self).regions.regions@[u] == to_region_idx as u32,
                        self.lattice_params.n_regions == old(self).lattice_params.n_regions,
                        0 <= radius <= COORD_BOUND,
                        r0 <= point[0] && point[0] + r0 < params.res[0],
                        r1 <= point[1] && point[1] + r1 < params.res[1],
                        r2 <= point[2] && point[2] + r2 < params.res[2],
                        point[0] - r0 <= x < point[0] + r0,
                        point[1] - r1 <= y <= point[1] + r1,
                        center_fp[0] == point[0] * vs[0] && center_fp[1] == point[1] * vs[1]
                            && center_fp[2] == point[2] * vs[2],
                        vs == params.voxel_size,
                        -COORD_BOUND <= center_fp[0] <= COORD_BOUND,
                        -COORD_BOUND <= center_fp[1] <= COORD_BOUND,
                        -COORD_BOUND <= center_fp[2] <= COORD_BOUND,
                    decreases point[1] + r1 - y,
                {
                    let mut z = point[2] - r2;
                    while z < point[2] + r2
                        invariant
                            self.lattice_params.wf(),
                            self.lattices@.len() == 2,
                            self.lattices@[0].wf(),
                            self.lattices@[0].res == self.lattice_params.res,
                            self.lattices@[1].res == self.lattice_params.res,
                            self.regions.wf(),
                            self.regions.res == self.lattice_params.res,
                            self.regions.types@.len() < 0x0800_0000,
                            self.diffusion_matrix.wf(
                                old(self).regions.types@.len() as int,
                                self.width(),
                            ),
                            self.reaction_params.raw_params.num_species as int + 1 == self.width(),
                            self.stoichiometry_matrix@.len() == self.reaction_params.raw_params.num_reactions,
                            forall|j2: int|
                                0 <= j2 < self.stoichiometry_matrix@.len() ==> (
                                #[trigger] self.stoichiometry_matrix@[j2]@.len()) == self.width(),
                            self.reactions_idx@.len() == self.reaction_params.raw_params.num_reactions,
                            self.reaction_rates@.len() == self.reaction_params.raw_params.num_reactions,
                            self.reaction_params.raw_params.num_reactions <= MAX_REACTIONS,
                            vs == params.voxel_size,
                            params == self.lattice_params,
                            params.wf(),
                            self.regions.res == params.res,
                            (new_label as int) < self.regions.types@.len(),
                            self.regions.types@.len() == old(self).regions.types@.len() + 1,
                            self.regions.types@.last() matches RegionType::Sparse { .. },
                            self.lattices == old(self).lattices,
                            self.stoichiometry_matrix == old(self).stoichiometry_matrix,
                            self.reaction_params == old(self).reaction_params,
                            self.reactions_idx == old(self).reactions_idx,
                            self.reaction_rates == old(self).reaction_rates,
                            self.stats == old(self).stats,
                            self.diffusion_matrix == old(self).diffusion_matrix,
                            self.regions.index_buffer is None,
                            curr_volume as int == crate::regions::count_label(
                                self.regions.regions@,
                                new_label,
                            ),
                            new_label as int == old(self).regions.types@.len(),
                            (to_region_idx as int) < old(self).regions.types@.len(),
                            self.regions.regions@.len() == old(self).regions.regions@.len(),
                            forall|u: int|
                                0 <= u < old(self).regions.regions@.len() && (
                                #[trigger] self.regions.regions@[u]) != old(self).regions.regions@[u]
                                    ==> self.regions.regions@[u] == new_label && old(self).regions.regions@[u] == to_region_idx as u32,
                            self.lattice_params.n_regions == old(self).lattice_params.n_regions,
                            0 <= radius <= COORD_BOUND,
                            r0 <= point[0] && point[0] + r0 < params.res[0],
                            r1 <= point[1] && point[1] + r1 < params.res[1],
                            r2 <= point[2] && point[2] + r2 < params.res[2],
                            point[0] - r0 <= x < point[0] + r0,
                            point[1] - r1 <= y < point[1] + r1,
                            point[2] - r2 <= z <= point[2] + r2,
                            center_fp[0] == point[0] * vs[0] && center_fp[1] == point[1] * vs[1]
                                && center_fp[2] == point[2] * vs[2],
                            vs == params.voxel_size,
                            -COORD_BOUND <= center_fp[0] <= COORD_BOUND,
                            -COORD_BOUND <= center_fp[1] <= COORD_BOUND,
                            -COORD_BOUND <= center_fp[2] <= COORD_BOUND,
                        decreases point[2] + r2 - z,
                    {
                        proof {
                            let a = params.res[0] as int;
                            let b = params.res[1] as int;
                            let c = params.res[2] as int;
                            assert(0 <= x * vs[0] <= a * vs[0] && 0 <= y * vs[1] <= b * vs[1] && 0
                                <= z * vs[2] <= c * vs[2]) by (nonlinear_arith)
                                requires
                                    0 <= x < a,
                                    0 <= y < b,
                                    0 <= z < c,
                                    0 < vs[0] && 0 < vs[1] && 0 < vs[2],
                            ;
                        }
                        let pos: [i64; 3] = [
                            (x as i64) * vs[0],
                            (y as i64) * vs[1],
                            (z as i64) * vs[2],
                        ];
                        if crate::geometry::sphere_contains(&center_fp, radius, &pos) {
                            let cur = self.regions.get_value_position([x, y, z]);
                            if cur as usize == to_region_idx {
                                let ghost labels_before = self.regions.regions@;
                                proof {
                                    crate::regions::lemma_count_label_bounds(
                                        labels_before,
                                        new_label,
                                    );
                                    crate::regions::lemma_lin_index_bounds(
                                        params.res,
                                        x as int,
                                        y as int,
                                        z as int,
                                    );
                                }
                                self.regions.set_value_position(new_label, [x, y, z]);
                                proof {
                                    crate::regions::lemma_count_label_update(
                                        labels_before,
                                        crate::regions::lin_index(
                                            params.res,
                                            x as int,
                                            y as int,
                                            z as int,
                                        ),
                                        new_label,
                                        new_label,
                                    );
                                }
                                curr_volume = curr_volume + 1;
                            }
                        }
                        z = z + 1;
                    }
                    y = y + 1;
                }
                x = x + 1;
            }
        }
        proof {
            assert(self.regions.volumes@[new_label as int] as int == crate::regions::count_label(
                self.regions.regions@,
                new_label,
            ));
        }
        match outcome {
            Ok(()) => {
                self.update_matrices_region(diffusion_rate_bits, 0);
                proof {
                    let ri = to_region_idx as int;
                    assert(0 <= ri < old(self).regions.types@.len() && old(self).regions.types@[ri].spec_name() == Some(to_region@));
                }
                Ok(())
            },
            Err(e) => {
                self.update_matrices_region(diffusion_rate_bits, 0);
                Err(e)
            },
        }
    }
}

/// A copy of a name.
pub fn clone_string(s: &String) -> (r: String)
    ensures
        r@ == s@,
{
    s.clone()
}


impl Simulation {
    /// Seed a fresh species along a random-walk worm inside `to_region`.
    pub fn particle_random_walk(
        &mut self,
        name: String,
        to_region: &String,
        total_length: i64,
        block_length: i64,
        radius: i64,
        logging: bool,
    ) -> (r: Result<(), SimError>)
        requires
            old(self).wf(),
            old(self).width() < 0x0010_0000,
            old(self).lattices@[0].n_voxels() * (old(self).width() + 1) < 0x8000_0000,
            0 < block_length <= 0x0100_0000,
            0 <= total_length <= 0x1000_0000,
            0 <= radius <= COORD_BOUND,
        ensures
            final(self).wf(),
            final(self).lattice_params == old(self).lattice_params,
            final(self).regions.regions == old(self).regions.regions,
            r is Err ==> (r == Err::<(), SimError>(SimError::UnknownRegion) || r == Err::<
                (),
                SimError,
            >(SimError::CannotFit)),
            r == Err::<(), SimError>(SimError::UnknownRegion) <==> !region_declared(
                old(self).regions,
                to_region@,
            ),
            r == Err::<(), SimError>(SimError::UnknownRegion) ==> *final(self) == *old(self),
            r is Ok ==> final(self).width() == old(self).width() + 1,
            2 * crate::lattice::walk_safety_voxels(
                block_length,
                old(self).lattice_params.voxel_size[0],
            ) >= old(self).lattice_params.res[0] ==> r is Err,
    {
        let region_idx = match self.find_region_index(to_region) {
            Some(i) => i,
            None => {
                return Err(SimError::UnknownRegion);
            },
        };
        let particle = self.register_species(name, logging);
        let ghost pre_seed = self.lattices@[0];
        let result = {
            proof {
                assert forall|v: int| 0 <= v < pre_seed.n_voxels() implies (
                #[trigger] pre_seed.reservoir@[v]) != particle by {
                    assert(old(self).lattices@[0].voxel_wf(v));
                    assert(pre_seed.reservoir@[v] == old(self).lattices@[0].reservoir@[v]);
                }
            }
            let params = self.lattice_params;
            let regions_ref = &self.regions;
            let l0 = &mut self.lattices[0];
            l0.init_random_walk_particles(
                particle,
                total_length,
                block_length,
                radius,
                region_idx,
                regions_ref,
                &params,
            )
        };
        match result {
            Ok(()) => Ok(()),
            Err(_) => Err(SimError::CannotFit),
        }
    }
}


impl Simulation {
    /// Push one statistics sample per logged species, carrying the given
    /// per-species totals at the given frame.
    pub fn record_samples(&mut self, totals: &Vec<i32>, frame_num: u32)
        requires
            old(self).wf(),
            totals@.len() == old(self).width(),
        ensures
            final(self).wf(),
            final(self).lattices == old(self).lattices,
            final(self).regions == old(self).regions,
            final(self).lattice_params == old(self).lattice_params,
            final(self).diffusion_matrix == old(self).diffusion_matrix,
            final(self).stoichiometry_matrix == old(self).stoichiometry_matrix,
            final(self).reaction_params == old(self).reaction_params,
            final(self).stats.samples@.len() == old(self).stats.samples@.len() + old(self).lattices@[0].logging_particles@.len(),
            forall|i: int|
                0 <= i < old(self).stats.samples@.len() ==> #[trigger] final(self).stats.samples@[i]
                    == old(self).stats.samples@[i],
            forall|i: int|
                0 <= i < old(self).lattices@[0].logging_particles@.len() ==> {
                    let sample = #[trigger] final(self).stats.samples@[old(self).stats.samples@.len() + i];
                    let p = old(self).lattices@[0].logging_particles@[i] as int;
                    &&& sample.name@ == old(self).lattices@[0].particle_names@[p]@
                    &&& sample.value == totals@[p]
                    &&& sample.iteration_count == frame_num
                },
    {
        let n = self.lattices[0].logging_particles.len();
        let mut i: usize = 0;
        while i < n
            invariant
                i <= n,
                self.wf(),
                self.lattices == old(self).lattices,
                self.regions == old(self).regions,
                self.lattice_params == old(self).lattice_params,
                self.diffusion_matrix == old(self).diffusion_matrix,
                self.stoichiometry_matrix == old(self).stoichiometry_matrix,
                self.reaction_params == old(self).reaction_params,
                self.reaction_rates == old(self).reaction_rates,
                self.reactions_idx == old(self).reactions_idx,
                n == self.lattices@[0].logging_particles@.len(),
                totals@.len() == self.width(),
                self.stats.logging_stats == old(self).stats.logging_stats,
                self.stats.samples@.len() == old(self).stats.samples@.len() + i,
                forall|t: int|
                    0 <= t < old(self).stats.samples@.len() ==> #[trigger] self.stats.samples@[t]
                        == old(self).stats.samples@[t],
                forall|t: int|
                    0 <= t < i ==> {
                        let sample = #[trigger] self.stats.samples@[old(self).stats.samples@.len()
                            + t];
                        let p = self.lattices@[0].logging_particles@[t] as int;
                        &&& sample.name@ == self.lattices@[0].particle_names@[p]@
                        &&& sample.value == totals@[p]
                        &&& sample.iteration_count == frame_num
                    },
            decreases n - i,
        {
            let p = self.lattices[0].logging_particles[i] as usize;
            let name = clone_string(&self.lattices[0].particle_names[p]);
            let value = totals[p];
            self.stats.push_sample(name, value, frame_num);
            i = i + 1;
        }
    }
}

/// Exact test for the painter's coordinate bounds on a descriptor.
pub fn region_type_in_bounds(reg: &RegionType) -> (b: bool)
    ensures
        b == region_type_bounded(*reg),
{
    match reg {
        RegionType::Cube { p0, pf, .. } => in_coord_bounds(p0) && in_coord_bounds(pf),
        RegionType::Sphere { center, radius, .. } => in_coord_bounds(center) && 0 <= *radius
            && *radius <= COORD_BOUND,
        RegionType::SemiSphere { center, radius, direction, .. } => in_coord_bounds(center)
            && in_coord_bounds(direction) && 0 <= *radius && *radius <= COORD_BOUND,
        RegionType::Cylinder { p0, pf, radius, .. } => in_coord_bounds(p0) && in_coord_bounds(pf)
            && 0 <= *radius && *radius <= COORD_BOUND,
        RegionType::SphericalShell { center, internal_radius, external_radius, .. } => in_coord_bounds(
            center,
        ) && 0 <= *internal_radius && *internal_radius <= COORD_BOUND && 0 <= *external_radius
            && *external_radius <= COORD_BOUND,
        RegionType::CylindricalShell { p0, pf, internal_radius, external_radius, .. } => in_coord_bounds(
            p0,
        ) && in_coord_bounds(pf) && 0 <= *internal_radius && *internal_radius <= COORD_BOUND && 0
            <= *external_radius && *external_radius <= COORD_BOUND,
        RegionType::Capsid { center, dir, internal_radius, external_radius, total_length, .. } => {
            -0x0800_0000 <= center[0] && center[0] <= 0x0800_0000 && -0x0800_0000 <= center[1]
                && center[1] <= 0x0800_0000 && -0x0800_0000 <= center[2] && center[2]
                <= 0x0800_0000 && -FIXED_ONE <= dir[0] && dir[0] <= FIXED_ONE && -FIXED_ONE
                <= dir[1] && dir[1] <= FIXED_ONE && -FIXED_ONE <= dir[2] && dir[2] <= FIXED_ONE
                && 0 <= *internal_radius && *internal_radius <= 0x0400_0000 && 0
                <= *external_radius && *external_radius <= 0x0400_0000 && 0 <= *total_length
                && *total_length <= 0x0400_0000
        },
        RegionType::Sparse { .. } => false,
    }
}

/// All three components within the painter's coordinate bound.
fn in_coord_bounds(a: &[i64; 3]) -> (b: bool)
    ensures
        b == coords_bounded(*a),
{
    -COORD_BOUND <= a[0] && a[0] <= COORD_BOUND && -COORD_BOUND <= a[1] && a[1] <= COORD_BOUND
        && -COORD_BOUND <= a[2] && a[2] <= COORD_BOUND
}

} // verus!
