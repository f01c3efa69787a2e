//! Per-voxel region labels, region descriptors, volume accounting and the
//! per-region voxel-index lists.
//!
//! The well-formedness invariant ties every region's volume counter to the
//! number of voxels that carry its label, so the volumes always add up to
//! the voxel count of the whole grid.
use vstd::prelude::*;

use vstd::arithmetic::div_mod::{
    lemma_div_denominator,
    lemma_fundamental_div_mod,
    lemma_mod_division_less_than_divisor,
    lemma_multiply_divide_lt,
    lemma_div_pos_is_pos,
};

use crate::errors::SimError;
use crate::geometry::{shape_bounded, shape_covers, shape_contains, Shape};
use crate::params::LatticeParams;

verus! {

/// Axis-aligned box descriptor.
pub struct Cube {
    pub name: String,
    pub p0: [i64; 3],
    pub pf: [i64; 3],
}

/// Ball descriptor.
pub struct Sphere {
    pub name: String,
    pub center: [i64; 3],
    pub radius: i64,
}

/// Half-ball descriptor.
pub struct SemiSphere {
    pub name: String,
    pub center: [i64; 3],
    pub radius: i64,
    pub direction: [i64; 3],
}

/// Capped-axis cylinder descriptor.
pub struct Cylinder {
    pub name: String,
    pub p0: [i64; 3],
    pub pf: [i64; 3],
    pub radius: i64,
}

/// Annular ball: the interior label overwrites the inner part of the shell.
pub struct SphericalShell {
    pub shell_name: String,
    pub interior_name: String,
    pub center: [i64; 3],
    pub internal_radius: i64,
    pub external_radius: i64,
}

/// Annular cylinder.
pub struct CylindricalShell {
    pub shell_name: String,
    pub interior_name: String,
    pub p0: [i64; 3],
    pub pf: [i64; 3],
    pub internal_radius: i64,
    pub external_radius: i64,
}

/// Cylinder with rounded caps; the caps are joined into the shell label and
/// the inner half-balls into the interior label.
pub struct Capsid {
    pub shell_name: String,
    pub interior_name: String,
    pub center: [i64; 3],
    pub dir: [i64; 3],
    pub internal_radius: i64,
    pub external_radius: i64,
    pub total_length: i64,
}

/// Scatter of basis spheres inside a parent region.
pub struct Sparse {
    pub name: String,
    pub base_region: Sphere,
}

/// Tagged descriptor of one painted region, kept for name lookup and for
/// random-point generation.
pub enum RegionType {
    Cube { name: String, p0: [i64; 3], pf: [i64; 3] },
    Sphere { name: String, center: [i64; 3], radius: i64 },
    SemiSphere { name: String, center: [i64; 3], radius: i64, direction: [i64; 3] },
    Cylinder { name: String, p0: [i64; 3], pf: [i64; 3], radius: i64 },
    SphericalShell {
        shell_name: String,
        interior_name: String,
        center: [i64; 3],
        internal_radius: i64,
        external_radius: i64,
    },
    CylindricalShell {
        shell_name: String,
        interior_name: String,
        p0: [i64; 3],
        pf: [i64; 3],
        internal_radius: i64,
        external_radius: i64,
    },
    Capsid {
        shell_name: String,
        interior_name: String,
        center: [i64; 3],
        dir: [i64; 3],
        internal_radius: i64,
        external_radius: i64,
        total_length: i64,
    },
    Sparse { name: String, base_region: Sphere },
}

impl RegionType {
    /// The single name this descriptor answers to, if it has one: composite
    /// descriptors carry two names and are looked up through the regions
    /// they expand into.
    pub open spec fn spec_name(self) -> Option<Seq<char>> {
        match self {
            RegionType::Cube { name, .. } => Some(name@),
            RegionType::Sphere { name, .. } => Some(name@),
            RegionType::SemiSphere { name, .. } => Some(name@),
            RegionType::Cylinder { name, .. } => Some(name@),
            RegionType::Sparse { name, .. } => Some(name@),
            _ => None,
        }
    }

    /// Does this descriptor answer to `name`?
    pub fn matches_name(&self, name: &String) -> (b: bool)
        ensures
            b == (self.spec_name() == Some(name@)),
    {
        match self {
            RegionType::Cube { name: n, .. } => n.eq(name),
            RegionType::Sphere { name: n, .. } => n.eq(name),
            RegionType::SemiSphere { name: n, .. } => n.eq(name),
            RegionType::Cylinder { name: n, .. } => n.eq(name),
            RegionType::Sparse { name: n, .. } => n.eq(name),
            _ => false,
        }
    }
}

/// Number of entries of `s` equal to `r`.
pub open spec fn count_label(s: Seq<u32>, r: u32) -> int
    decreases s.len(),
{
    if s.len() == 0 {
        0
    } else {
        count_label(s.drop_last(), r) + if s.last() == r {
            1int
        } else {
            0int
        }
    }
}

pub proof fn lemma_count_label_bounds(s: Seq<u32>, r: u32)
    ensures
        0 <= count_label(s, r) <= s.len(),
    decreases s.len(),
{
    if s.len() > 0 {
        lemma_count_label_bounds(s.drop_last(), r);
    }
}

pub proof fn lemma_count_label_push(s: Seq<u32>, r: u32, x: u32)
    ensures
        count_label(s.push(x), r) == count_label(s, r) + if x == r {
            1int
        } else {
            0int
        },
{
    assert(s.push(x).drop_last() =~= s);
}

pub proof fn lemma_count_label_update(s: Seq<u32>, i: int, x: u32, r: u32)
    requires
        0 <= i < s.len(),
    ensures
        count_label(s.update(i, x), r) == count_label(s, r) - (if s[i] == r {
            1int
        } else {
            0int
        }) + (if x == r {
            1int
        } else {
            0int
        }),
    decreases s.len(),
{
    if i == s.len() - 1 {
        assert(s.update(i, x).drop_last() =~= s.drop_last());
    } else {
        assert(s.update(i, x).drop_last() =~= s.drop_last().update(i, x));
        lemma_count_label_update(s.drop_last(), i, x, r);
    }
}

/// An entry with label `r` makes the count positive.
pub proof fn lemma_count_label_member(s: Seq<u32>, i: int)
    requires
        0 <= i < s.len(),
    ensures
        count_label(s, s[i]) >= 1,
    decreases s.len(),
{
    lemma_count_label_bounds(s.drop_last(), s[i]);
    if i < s.len() - 1 {
        lemma_count_label_member(s.drop_last(), i);
    }
}

/// A label that occurs nowhere counts zero.
pub proof fn lemma_count_label_absent(s: Seq<u32>, r: u32)
    requires
        forall|i: int| 0 <= i < s.len() ==> s[i] != r,
    ensures
        count_label(s, r) == 0,
    decreases s.len(),
{
    if s.len() > 0 {
        lemma_count_label_absent(s.drop_last(), r);
    }
}

/// A sequence of one constant label counts its length for that label.
pub proof fn lemma_count_label_constant(s: Seq<u32>, c: u32)
    requires
        forall|i: int| 0 <= i < s.len() ==> s[i] == c,
    ensures
        count_label(s, c) == s.len(),
    decreases s.len(),
{
    if s.len() > 0 {
        lemma_count_label_constant(s.drop_last(), c);
    }
}

/// Sum of the per-label counts over labels `0 .. n`.
pub open spec fn sum_counts(s: Seq<u32>, n: int) -> int
    decreases n,
{
    if n <= 0 {
        0
    } else {
        sum_counts(s, n - 1) + count_label(s, (n - 1) as u32)
    }
}

proof fn lemma_sum_counts_empty(n: int)
    ensures
        sum_counts(Seq::<u32>::empty(), n) == 0,
    decreases n,
{
    if n > 0 {
        lemma_sum_counts_empty(n - 1);
    }
}

proof fn lemma_sum_counts_push(s: Seq<u32>, n: int, x: u32)
    requires
        0 <= n <= 0x1_0000_0000,
    ensures
        sum_counts(s.push(x), n) == sum_counts(s, n) + if (x as int) < n {
            1int
        } else {
            0int
        },
    decreases n,
{
    if n > 0 {
        lemma_sum_counts_push(s, n - 1, x);
        lemma_count_label_push(s, (n - 1) as u32, x);
    }
}

/// When every label lies below `n`, the per-label counts over `0 .. n` add
/// up to the length of the sequence.
pub proof fn lemma_sum_counts_total(s: Seq<u32>, n: int)
    requires
        0 <= n <= 0x1_0000_0000,
        forall|i: int| 0 <= i < s.len() ==> (#[trigger] s[i] as int) < n,
    ensures
        sum_counts(s, n) == s.len(),
    decreases s.len(),
{
    if s.len() == 0 {
        lemma_sum_counts_empty(n);
        assert(s =~= Seq::<u32>::empty());
    } else {
        lemma_sum_counts_total(s.drop_last(), n);
        lemma_sum_counts_push(s.drop_last(), n, s.last());
        assert(s.drop_last().push(s.last()) =~= s);
    }
}

/// Sum of the first `n` entries of a volume vector.
pub open spec fn sum_volumes(v: Seq<u32>, n: int) -> int
    decreases n,
{
    if n <= 0 {
        0
    } else {
        sum_volumes(v, n - 1) + v[n - 1]
    }
}

/// Normative linearisation of a voxel index.
pub open spec fn lin_index(res: [u32; 3], i: int, j: int, k: int) -> int {
    i * (res[1] * res[2]) + j * res[2] + k
}

/// First voxel coordinate of a linear index.
pub open spec fn site_i(res: [u32; 3], u: int) -> int {
    u / (res[1] * res[2]) as int
}

/// Second voxel coordinate of a linear index.
pub open spec fn site_j(res: [u32; 3], u: int) -> int {
    (u / res[2] as int) % res[1] as int
}

/// Third voxel coordinate of a linear index.
pub open spec fn site_k(res: [u32; 3], u: int) -> int {
    u % res[2] as int
}

/// The three voxel coordinates of a linear index are in range and
/// linearise back to it.
pub proof fn lemma_linear_site(res: [u32; 3], u: int)
    requires
        0 < res[0] && 0 < res[1] && 0 < res[2],
        0 <= u < res[0] * res[1] * res[2],
    ensures
        0 <= site_i(res, u) < res[0],
        0 <= site_j(res, u) < res[1],
        0 <= site_k(res, u) < res[2],
        lin_index(res, site_i(res, u), site_j(res, u), site_k(res, u)) == u,
{
    let r0 = res[0] as int;
    let r1 = res[1] as int;
    let r2 = res[2] as int;
    let k = u % r2;
    let q2 = u / r2;
    let j = q2 % r1;
    let q1 = q2 / r1;
    lemma_fundamental_div_mod(u, r2);
    lemma_mod_division_less_than_divisor(u, r2);
    lemma_div_pos_is_pos(u, r2);
    lemma_fundamental_div_mod(q2, r1);
    lemma_mod_division_less_than_divisor(q2, r1);
    lemma_div_pos_is_pos(q2, r1);
    lemma_div_denominator(u, r2, r1);
    assert(q2 / r1 == u / (r2 * r1));
    assert(r2 * r1 == r1 * r2) by (nonlinear_arith);
    assert(site_i(res, u) == q1);
    assert(u < r0 * (r1 * r2)) by (nonlinear_arith)
        requires
            u < r0 * r1 * r2,
    ;
    lemma_multiply_divide_lt(u, r1 * r2, r0);
    assert(q1 < r0);
    assert(u == r2 * q2 + k);
    assert(q2 == r1 * q1 + j);
    assert(r2 * (r1 * q1 + j) == q1 * (r1 * r2) + j * r2) by (nonlinear_arith);
    assert(lin_index(res, q1, j, k) == u);
}

/// A linearised in-range voxel index lies below the voxel count.
pub proof fn lemma_lin_index_bounds(res: [u32; 3], i: int, j: int, k: int)
    requires
        0 <= i < res[0],
        0 <= j < res[1],
        0 <= k < res[2],
    ensures
        0 <= lin_index(res, i, j, k) < res[0] * res[1] * res[2],
        site_i(res, lin_index(res, i, j, k)) == i,
        site_j(res, lin_index(res, i, j, k)) == j,
        site_k(res, lin_index(res, i, j, k)) == k,
{
    let r0 = res[0] as int;
    let r1 = res[1] as int;
    let r2 = res[2] as int;
    let u = lin_index(res, i, j, k);
    assert(0 <= u && u < r0 * r1 * r2 && u == (i * r1 + j) * r2 + k) by (nonlinear_arith)
        requires
            0 <= i < r0 && 0 <= j < r1 && 0 <= k < r2 && u == i * (r1 * r2) + j * r2 + k,
    ;
    lemma_fundamental_div_mod_converse_both(u, r2, i * r1 + j, k);
    assert(u / r2 == i * r1 + j && u % r2 == k);
    lemma_fundamental_div_mod_converse_both(i * r1 + j, r1, i, j);
    assert((u / r2) / r1 == i && (u / r2) % r1 == j);
    lemma_div_denominator(u, r2, r1);
    assert(r2 * r1 == r1 * r2) by (nonlinear_arith);
}

proof fn lemma_fundamental_div_mod_converse_both(u: int, d: int, q: int, r: int)
    requires
        0 < d,
        0 <= r < d,
        u == q * d + r,
    ensures
        u / d == q,
        u % d == r,
{
    vstd::arithmetic::div_mod::lemma_fundamental_div_mod_converse(u, d, q, r);
}

/// Per-voxel region labels with their descriptors, volumes, and the
/// optional per-region voxel-index lists.
pub struct Regions {
    /// Region label of each voxel, in linear-index order.
    pub regions: Vec<u32>,
    /// Grid resolution (matches the lattice parameters).
    pub res: [u32; 3],
    /// Descriptor of each painted region, in label order.
    pub types: Vec<RegionType>,
    /// Number of voxels carrying each label.
    pub volumes: Vec<u32>,
    /// For each label, the ordered list of linear voxel indices it owns;
    /// built by `prepare_regions` and dropped by any later painting.
    pub index_buffer: Option<Vec<Vec<u32>>>,
}

impl Regions {
    /// Total number of voxels.
    pub open spec fn n_voxels(self) -> int {
        self.res[0] * self.res[1] * self.res[2]
    }

    /// Labels cover the grid and name declared regions only.
    pub open spec fn labels_wf(self) -> bool {
        &&& self.regions@.len() == self.n_voxels()
        &&& forall|u: int|
            0 <= u < self.regions@.len() ==> (#[trigger] self.regions@[u] as int)
                < self.types@.len()
    }

    /// Each volume counter equals the number of voxels with that label.
    pub open spec fn volumes_wf(self) -> bool {
        &&& self.volumes@.len() == self.types@.len()
        &&& forall|r: int|
            0 <= r < self.volumes@.len() ==> (#[trigger] self.volumes@[r] as int) == count_label(
                self.regions@,
                r as u32,
            )
    }

    /// The index lists, when built, hold for each label exactly its voxels,
    /// in strictly increasing linear order.
    pub open spec fn index_wf(self) -> bool {
        match self.index_buffer {
            None => true,
            Some(ib) => {
                &&& ib@.len() == self.types@.len()
                &&& forall|r: int, n: int|
                    0 <= r < ib@.len() && 0 <= n < ib@[r]@.len() ==> (#[trigger] ib@[r]@[n] as int)
                        < self.n_voxels() && self.regions@[ib@[r]@[n] as int] == r as u32
                &&& forall|r: int, n: int, m: int|
                    0 <= r < ib@.len() && 0 <= n < m < ib@[r]@.len() ==> #[trigger] ib@[r]@[n]
                        < #[trigger] ib@[r]@[m]
                &&& forall|r: int|
                    0 <= r < ib@.len() ==> (#[trigger] ib@[r]@.len()) == count_label(
                        self.regions@,
                        r as u32,
                    )
                &&& forall|u: int|
                    0 <= u < self.regions@.len() ==> ib@[(#[trigger] self.regions@[u]) as int]@.contains(
                        u as u32,
                    )
            },
        }
    }

    pub open spec fn wf(self) -> bool {
        &&& 0 < self.res[0] && 0 < self.res[1] && 0 < self.res[2]
        &&& self.res[0] * self.res[1] * self.res[2] < 0x4000_0000
        &&& 0 < self.types@.len() < 0x8000_0000
        &&& self.labels_wf()
        &&& self.volumes_wf()
        &&& self.index_wf()
    }

    /// Label of one voxel.
    pub open spec fn spec_label(self, u: int) -> u32 {
        self.regions@[u]
    }

    /// A fresh map: one background region covering the whole grid.
    pub fn new(params: &LatticeParams, background: RegionType) -> (m: Regions)
        requires
            params.wf(),
        ensures
            m.wf(),
            m.res == params.res,
            m.types@.len() == 1,
            m.types@[0] == background,
            m.volumes@.len() == 1,
            m.volumes@[0] == m.n_voxels(),
            forall|u: int| 0 <= u < m.regions@.len() ==> m.regions@[u] == 0u32,
            m.index_buffer is None,
    {
        let nv = params.dimensions();
        let regions: Vec<u32> = vec![0u32; nv];
        let mut types: Vec<RegionType> = Vec::new();
        types.push(background);
        let mut volumes: Vec<u32> = Vec::new();
        proof {
            lemma_count_label_constant(regions@, 0u32);
            lemma_count_label_absent(regions@, 1u32);
        }
        volumes.push(nv as u32);
        let m = Regions { regions, res: params.res, types, volumes, index_buffer: None };
        proof {
            assert forall|r: int| 0 <= r < m.volumes@.len() implies (#[trigger] m.volumes@[r]
                as int) == count_label(m.regions@, r as u32) by {
                lemma_count_label_constant(m.regions@, 0u32);
            }
        }
        m
    }

    /// Linear index of a voxel coordinate, by the normative linearisation.
    fn linear_of_site(&self, position: [usize; 3]) -> (u: usize)
        requires
            self.wf(),
            position[0] < self.res[0],
            position[1] < self.res[1],
            position[2] < self.res[2],
        ensures
            u as int == lin_index(self.res, position[0] as int, position[1] as int, position[2] as int),
            (u as int) < self.n_voxels(),
    {
        proof {
            let r0 = self.res[0] as int;
            let r1 = self.res[1] as int;
            let r2 = self.res[2] as int;
            let p0 = position[0] as int;
            let p1 = position[1] as int;
            let p2 = position[2] as int;
            assert(0 <= r1 * r2 <= r0 * r1 * r2 && 0 <= p0 * (r1 * r2) && 0 <= p1 * r2 && p0 * (r1
                * r2) + p1 * r2 + p2 < r0 * r1 * r2) by (nonlinear_arith)
                requires
                    0 <= p0 < r0 && 0 <= p1 < r1 && 0 <= p2 < r2,
            ;
        }
        position[0] * ((self.res[1] as usize) * (self.res[2] as usize)) + position[1] * (self.res[2]
            as usize) + position[2]
    }

    /// Region label at a voxel coordinate.
    pub fn get_value_position(&self, position: [usize; 3]) -> (r: u32)
        requires
            self.wf(),
            position[0] < self.res[0],
            position[1] < self.res[1],
            position[2] < self.res[2],
        ensures
            r == self.spec_label(
                lin_index(self.res, position[0] as int, position[1] as int, position[2] as int),
            ),
    {
        let u = self.linear_of_site(position);
        self.regions[u]
    }

    /// Region label at a voxel coordinate.
    pub fn cell(&self, position: [usize; 3]) -> (r: u32)
        requires
            self.wf(),
            position[0] < self.res[0],
            position[1] < self.res[1],
            position[2] < self.res[2],
        ensures
            r == self.spec_label(
                lin_index(self.res, position[0] as int, position[1] as int, position[2] as int),
            ),
    {
        self.get_value_position(position)
    }

    /// Descriptor of one region.
    pub fn get_region(&self, idx: usize) -> (t: &RegionType)
        requires
            idx < self.types@.len(),
        ensures
            *t == self.types@[idx as int],
    {
        &self.types[idx]
    }

    /// Rewrite one voxel's label, keeping the volume counters in step.
    pub fn set_value_position(&mut self, value: u32, position: [usize; 3])
        requires
            old(self).wf(),
            position[0] < old(self).res[0],
            position[1] < old(self).res[1],
            position[2] < old(self).res[2],
            (value as int) < old(self).types@.len(),
            old(self).index_buffer is None,
        ensures
            final(self).wf(),
            final(self).res == old(self).res,
            final(self).types == old(self).types,
            final(self).index_buffer is None,
            final(self).regions@ == old(self).regions@.update(
                lin_index(
                    old(self).res,
                    position[0] as int,
                    position[1] as int,
                    position[2] as int,
                ),
                value,
            ),
    {
        let u = self.linear_of_site(position);
        self.set_label_linear(u, value);
    }

    /// Rewrite the label of the voxel with linear index `u`, keeping the
    /// volume counters in step.
    pub fn set_label_linear(&mut self, u: usize, value: u32)
        requires
            old(self).wf(),
            (u as int) < old(self).regions@.len(),
            (value as int) < old(self).types@.len(),
            old(self).index_buffer is None,
        ensures
            final(self).wf(),
            final(self).res == old(self).res,
            final(self).types == old(self).types,
            final(self).index_buffer is None,
            final(self).regions@ == old(self).regions@.update(u as int, value),
    {
        let old_label = self.regions[u];
        proof {
            lemma_count_label_member(self.regions@, u as int);
            lemma_count_label_bounds(self.regions@, value);
        }
        self.regions[u] = value;
        if old_label != value {
            let ghost mid = self.regions@;
            let ov = self.volumes[old_label as usize];
            self.volumes[old_label as usize] = ov - 1;
            let nv = self.volumes[value as usize];
            self.volumes[value as usize] = nv + 1;
            proof {
                assert forall|r: int| 0 <= r < self.volumes@.len() implies (
                #[trigger] self.volumes@[r] as int) == count_label(self.regions@, r as u32) by {
                    lemma_count_label_update(old(self).regions@, u as int, value, r as u32);
                }
            }
        } else {
            proof {
                assert(self.regions@ =~= old(self).regions@);
            }
        }
    }

    /// Paint a primitive: every covered voxel takes the next free label;
    /// everything else keeps its label, and the volume counters follow.
    pub fn paint(&mut self, params: &LatticeParams, shape: &Shape, descriptor: RegionType)
        requires
            old(self).wf(),
            params.wf(),
            old(self).res == params.res,
            shape_bounded(*shape),
            old(self).types@.len() < 0x8000_0000 - 1,
        ensures
            final(self).wf(),
            final(self).res == old(self).res,
            final(self).types@ == old(self).types@.push(descriptor),
            final(self).volumes@.len() == old(self).volumes@.len() + 1,
            final(self).index_buffer is None,
            forall|u: int|
                0 <= u < old(self).regions@.len() ==> final(self).regions@[u] == (if covers_lin(
                    *shape,
                    *params,
                    u,
                ) {
                    old(self).types@.len() as u32
                } else {
                    old(self).regions@[u]
                }),
    {
        let new_label = self.types.len() as u32;
        self.types.push(descriptor);
        self.index_buffer = None;
        proof {
            lemma_count_label_absent(self.regions@, new_label);
        }
        self.volumes.push(0);
        let nv = self.regions.len();
        let r1 = self.res[1] as usize;
        let r2 = self.res[2] as usize;
        proof {
            let a = self.res[0] as int;
            let b = self.res[1] as int;
            let c = self.res[2] as int;
            assert(0 < b * c <= a * b * c) by (nonlinear_arith)
                requires
                    0 < a && 0 < b && 0 < c,
            ;
        }
        let r12 = r1 * r2;
        let mut u: usize = 0;
        while u < nv
            invariant
                self.wf(),
                self.res == old(self).res,
                self.res == params.res,
                params.wf(),
                shape_bounded(*shape),
                self.index_buffer is None,
                self.types@ == old(self).types@.push(descriptor),
                self.volumes@.len() == old(self).volumes@.len() + 1,
                new_label as int == old(self).types@.len(),
                nv == self.regions@.len(),
                nv == old(self).regions@.len(),
                r1 == self.res[1] && r2 == self.res[2] && r12 == r1 * r2,
                0 < r1 && 0 < r2 && 0 < r12,
                u <= nv,
                forall|t: int|
                    0 <= t < u ==> self.regions@[t] == (if covers_lin(*shape, *params, t) {
                        new_label
                    } else {
                        old(self).regions@[t]
                    }),
                forall|t: int| u <= t < nv ==> self.regions@[t] == old(self).regions@[t],
            decreases nv - u,
        {
            proof {
                lemma_linear_site(self.res, u as int);
            }
            let i = u / r12;
            let j = (u / r2) % r1;
            let k = u % r2;
            proof {
                assert(i as int == site_i(self.res, u as int));
                assert(j as int == site_j(self.res, u as int));
                assert(k as int == site_k(self.res, u as int));
                let vs = params.voxel_size;
                assert(0 <= i * vs[0] <= vs[0] * self.res[0] && 0 <= j * vs[1] <= vs[1]
                    * self.res[1] && 0 <= k * vs[2] <= vs[2] * self.res[2]) by (nonlinear_arith)
                    requires
                        0 <= i < self.res[0],
                        0 <= j < self.res[1],
                        0 <= k < self.res[2],
                        0 < vs[0] && 0 < vs[1] && 0 < vs[2],
                ;
            }
            let pos: [i64; 3] = [
                (i as i64) * params.voxel_size[0],
                (j as i64) * params.voxel_size[1],
                (k as i64) * params.voxel_size[2],
            ];
            if shape_contains(shape, &pos) {
                self.set_label_linear(u, new_label);
            }
            u = u + 1;
        }
    }
}

/// Label rewrite performed by a region join: `delete` becomes `keep`, and
/// every label above `delete` shifts down by one.
pub open spec fn relabel(l: u32, delete: u32, keep: u32) -> u32 {
    let m = if l == delete {
        keep
    } else {
        l
    };
    if m > delete {
        (m - 1) as u32
    } else {
        m
    }
}

/// Two distinct labels never count more than the length together.
proof fn lemma_count_label_two(s: Seq<u32>, a: u32, b: u32)
    requires
        a != b,
    ensures
        count_label(s, a) + count_label(s, b) <= s.len(),
    decreases s.len(),
{
    if s.len() > 0 {
        lemma_count_label_two(s.drop_last(), a, b);
    }
}

/// How a join rewrites the per-label counts: label `m` of the new map
/// collects the old label `m` (or `m + 1` above the deleted slot), plus the
/// deleted label's voxels when that old label is `keep`.
proof fn lemma_count_relabel(s: Seq<u32>, delete: u32, keep: u32, m: u32)
    requires
        keep != delete,
        m < 0xFFFF_FFFFu32,
    ensures
        count_label(s.map_values(|l: u32| relabel(l, delete, keep)), m) == {
            let pre = if (m as int) < (delete as int) {
                m as int
            } else {
                m as int + 1
            };
            count_label(s, pre as u32) + if pre == keep as int {
                count_label(s, delete)
            } else {
                0int
            }
        },
    decreases s.len(),
{
    let mapped = s.map_values(|l: u32| relabel(l, delete, keep));
    if s.len() == 0 {
        assert(mapped =~= Seq::<u32>::empty());
    } else {
        lemma_count_relabel(s.drop_last(), delete, keep, m);
        assert(mapped.drop_last() =~= s.drop_last().map_values(
            |l: u32| relabel(l, delete, keep),
        ));
        assert(mapped.last() == relabel(s.last(), delete, keep));
    }
}

impl Regions {
    /// Join region `delete` into region `keep`: every voxel labelled
    /// `delete` takes the label `keep`, labels above `delete` shift down by
    /// one, the deleted descriptor and volume slot disappear, and the
    /// deleted region's volume is added to `keep`'s.
    pub fn join(&mut self, delete: u32, keep: u32)
        requires
            old(self).wf(),
            (delete as int) < old(self).types@.len(),
            (keep as int) < old(self).types@.len(),
            keep != delete,
            old(self).types@.len() > 1,
        ensures
            final(self).wf(),
            final(self).res == old(self).res,
            final(self).index_buffer is None,
            final(self).types@ == old(self).types@.remove(delete as int),
            final(self).regions@.len() == old(self).regions@.len(),
            forall|u: int|
                0 <= u < old(self).regions@.len() ==> final(self).regions@[u] == relabel(
                    old(self).regions@[u],
                    delete,
                    keep,
                ),
    {
        self.index_buffer = None;
        let nv = self.regions.len();
        let mut u: usize = 0;
        while u < nv
            invariant
                nv == self.regions@.len(),
                nv == old(self).regions@.len(),
                u <= nv,
                self.res == old(self).res,
                self.types == old(self).types,
                self.volumes == old(self).volumes,
                self.index_buffer is None,
                forall|t: int|
                    0 <= t < u ==> self.regions@[t] == relabel(old(self).regions@[t], delete, keep),
                forall|t: int| u <= t < nv ==> self.regions@[t] == old(self).regions@[t],
            decreases nv - u,
        {
            let l = self.regions[u];
            let m = if l == delete {
                keep
            } else {
                l
            };
            let m2 = if m > delete {
                m - 1
            } else {
                m
            };
            self.regions[u] = m2;
            u = u + 1;
        }
        proof {
            assert(self.regions@ =~= old(self).regions@.map_values(
                |l: u32| relabel(l, delete, keep),
            ));
        }
        let vd = self.volumes[delete as usize];
        let vk = self.volumes[keep as usize];
        proof {
            lemma_count_label_two(old(self).regions@, keep, delete);
            lemma_count_label_bounds(old(self).regions@, keep);
            lemma_count_label_bounds(old(self).regions@, delete);
        }
        self.volumes[keep as usize] = vk + vd;
        self.volumes.remove(delete as usize);
        self.types.remove(delete as usize);
        proof {
            assert forall|r: int| 0 <= r < self.volumes@.len() implies (#[trigger] self.volumes@[r]
                as int) == count_label(self.regions@, r as u32) by {
                lemma_count_relabel(old(self).regions@, delete, keep, r as u32);
            }
            assert forall|t: int| 0 <= t < self.regions@.len() implies (
            #[trigger] self.regions@[t] as int) < self.types@.len() by {
                assert(self.regions@[t] == relabel(old(self).regions@[t], delete, keep));
                assert((old(self).regions@[t] as int) < old(self).types@.len());
            }
        }
    }

    /// Group every voxel's linear index by its region label, in one
    /// ascending pass; afterwards the index lists are available for
    /// seeding.
    pub fn prepare_regions(&mut self)
        requires
            old(self).wf(),
        ensures
            final(self).wf(),
            final(self).regions == old(self).regions,
            final(self).res == old(self).res,
            final(self).types == old(self).types,
            final(self).volumes == old(self).volumes,
            final(self).index_buffer is Some,
    {
        let n_regions = self.types.len();
        let mut ib: Vec<Vec<u32>> = Vec::new();
        let mut r: usize = 0;
        while r < n_regions
            invariant
                r <= n_regions,
                ib@.len() == r,
                forall|t: int| 0 <= t < r ==> (#[trigger] ib@[t]@.len()) == 0,
            decreases n_regions - r,
        {
            ib.push(Vec::new());
            r = r + 1;
        }
        let nv = self.regions.len();
        let mut u: usize = 0;
        proof {
            assert forall|t: int| 0 <= t < n_regions implies (#[trigger] ib@[t]@.len()) as int
                == count_label(self.regions@.take(0), t as u32) by {
                assert(self.regions@.take(0) =~= Seq::<u32>::empty());
            }
        }
        while u < nv
            invariant
                self.wf(),
                nv == self.regions@.len(),
                u <= nv,
                n_regions == self.types@.len(),
                ib@.len() == n_regions,
                forall|t: int, n: int|
                    0 <= t < n_regions && 0 <= n < ib@[t]@.len() ==> (#[trigger] ib@[t]@[n] as int)
                        < u && self.regions@[ib@[t]@[n] as int] == t as u32,
                forall|t: int, n: int, m: int|
                    0 <= t < n_regions && 0 <= n < m < ib@[t]@.len() ==> #[trigger] ib@[t]@[n]
                        < #[trigger] ib@[t]@[m],
                forall|t: int|
                    0 <= t < n_regions ==> (#[trigger] ib@[t]@.len()) as int == count_label(
                        self.regions@.take(u as int),
                        t as u32,
                    ),
                forall|t: int|
                    0 <= t < u ==> ib@[(#[trigger] self.regions@[t]) as int]@.contains(t as u32),
            decreases nv - u,
        {
            let label = self.regions[u] as usize;
            let ghost prev = ib@;
            let bucket = &mut ib[label];
            bucket.push(u as u32);
            proof {
                assert(ib@.len() == prev.len());
                assert(ib@[label as int]@ =~= prev[label as int]@.push(u as u32));
                assert(forall|t: int| 0 <= t < prev.len() && t != label ==> ib@[t] == prev[t]);
                assert forall|t: int| 0 <= t < n_regions implies (#[trigger] ib@[t]@.len()) as int
                    == count_label(self.regions@.take(u as int + 1), t as u32) by {
                    assert(self.regions@.take(u as int + 1) =~= self.regions@.take(u as int).push(
                        self.regions@[u as int],
                    ));
                    lemma_count_label_push(
                        self.regions@.take(u as int),
                        t as u32,
                        self.regions@[u as int],
                    );
                    lemma_count_label_bounds(self.regions@.take(u as int), t as u32);
                }
                assert forall|t: int| 0 <= t < u + 1 implies ib@[(
                #[trigger] self.regions@[t]) as int]@.contains(t as u32) by {
                    let lt = self.regions@[t] as int;
                    if t < u {
                        assert(prev[lt]@.contains(t as u32));
                        let n = choose|n: int| 0 <= n < prev[lt]@.len() && prev[lt]@[n] == t as u32;
                        if lt == label {
                            assert(ib@[lt]@[n] == t as u32);
                        } else {
                            assert(ib@[lt] == prev[lt]);
                        }
                    } else {
                        assert(ib@[lt]@[ib@[lt]@.len() - 1] == u as u32);
                    }
                }
            }
            u = u + 1;
        }
        proof {
            assert(self.regions@.take(nv as int) =~= self.regions@);
        }
        self.index_buffer = Some(ib);
    }
}

/// Painting a primitive and joining the fresh label straight back into a
/// region `keep` rewrites exactly the covered voxels to `keep`; when every
/// covered voxel already carried `keep`, the label tensor is reproduced.
pub proof fn lemma_paint_join_roundtrip(
    before: Seq<u32>,
    painted: Seq<u32>,
    joined: Seq<u32>,
    s: Shape,
    p: LatticeParams,
    delete: u32,
    keep: u32,
)
    requires
        (keep as int) < (delete as int),
        forall|u: int| 0 <= u < before.len() ==> (#[trigger] before[u] as int) < delete as int,
        painted.len() == before.len(),
        forall|u: int|
            0 <= u < painted.len() ==> painted[u] == (if covers_lin(s, p, u) {
                delete
            } else {
                before[u]
            }),
        joined.len() == painted.len(),
        forall|u: int| 0 <= u < joined.len() ==> joined[u] == relabel(painted[u], delete, keep),
    ensures
        forall|u: int|
            0 <= u < joined.len() ==> joined[u] == (if covers_lin(s, p, u) {
                keep
            } else {
                before[u]
            }),
        (forall|u: int|
            0 <= u < before.len() && covers_lin(s, p, u) ==> before[u] == keep) ==> joined
            =~= before,
{
}

/// Does the shape cover the voxel with linear index `u`?  The voxel's
/// position is its coordinate scaled by the per-axis voxel size.
pub open spec fn covers_lin(s: Shape, p: LatticeParams, u: int) -> bool {
    shape_covers(
        s,
        site_i(p.res, u) * p.voxel_size[0],
        site_j(p.res, u) * p.voxel_size[1],
        site_k(p.res, u) * p.voxel_size[2],
    )
}

/// Every voxel carries exactly one region label, so the per-label volumes
/// add up to the voxel count of the whole grid.
pub proof fn lemma_volume_conservation(m: Regions)
    requires
        m.wf(),
    ensures
        sum_volumes(m.volumes@, m.volumes@.len() as int) == m.n_voxels(),
{
    let n = m.volumes@.len() as int;
    assert forall|p: int| 0 <= p <= n implies sum_volumes(m.volumes@, p) == sum_counts(
        m.regions@,
        p,
    ) by {
        lemma_sum_prefix_eq(m, p);
    }
    lemma_sum_counts_total(m.regions@, n);
}

proof fn lemma_sum_prefix_eq(m: Regions, p: int)
    requires
        m.wf(),
        0 <= p <= m.volumes@.len(),
    ensures
        sum_volumes(m.volumes@, p) == sum_counts(m.regions@, p),
    decreases p,
{
    if p > 0 {
        lemma_sum_prefix_eq(m, p - 1);
    }
}


/// With exactly three regions — a capsid's shell and interior beside the
/// background — the three volumes add up to the voxel count of the grid.
pub proof fn lemma_three_region_volumes(m: Regions)
    requires
        m.wf(),
        m.volumes@.len() == 3,
    ensures
        m.volumes@[0] + m.volumes@[1] + m.volumes@[2] == m.n_voxels(),
{
    lemma_volume_conservation(m);
    assert(sum_volumes(m.volumes@, 3) == sum_volumes(m.volumes@, 2) + m.volumes@[2]);
    assert(sum_volumes(m.volumes@, 2) == sum_volumes(m.volumes@, 1) + m.volumes@[1]);
    assert(sum_volumes(m.volumes@, 1) == sum_volumes(m.volumes@, 0) + m.volumes@[0]);
    assert(sum_volumes(m.volumes@, 0) == 0);
}


impl Regions {
    /// Append a fresh region descriptor with no voxels yet; the caller
    /// paints them one by one.
    pub fn begin_region(&mut self, descriptor: RegionType)
        requires
            old(self).wf(),
            old(self).types@.len() < 0x0800_0000 - 1,
        ensures
            final(self).wf(),
            final(self).res == old(self).res,
            final(self).regions == old(self).regions,
            final(self).types@ == old(self).types@.push(descriptor),
            final(self).volumes@ == old(self).volumes@.push(0u32),
            final(self).index_buffer is None,
    {
        let new_label = self.types.len() as u32;
        proof {
            lemma_count_label_absent(self.regions@, new_label);
        }
        self.types.push(descriptor);
        self.volumes.push(0);
        self.index_buffer = None;
    }

    /// Draw a voxel uniformly from the grid, up to ten times, accepting a
    /// point whose surrounding `radius_voxels` box lies inside the grid
    /// and entirely inside the region; a radius that cannot fit along the
    /// first axis always fails with `CannotFit`.
    pub fn generate_boundary_aware(&self, region_idx: usize, radius_voxels: &Vec<usize>) -> (r:
        Result<[usize; 3], SimError>)
        requires
            self.wf(),
            radius_voxels@.len() == 3,
            forall|d: int| 0 <= d < 3 ==> (#[trigger] radius_voxels@[d]) <= 0x2000_0000,
            (region_idx as int) < self.types@.len(),
        ensures
            match r {
                Err(e) => e == SimError::CannotFit,
                Ok(p) => {
                    &&& radius_voxels@[0] <= p[0] && p[0] + radius_voxels@[0] < self.res[0]
                    &&& radius_voxels@[1] <= p[1] && p[1] + radius_voxels@[1] < self.res[1]
                    &&& radius_voxels@[2] <= p[2] && p[2] + radius_voxels@[2] < self.res[2]
                    &&& forall|x: int, y: int, z: int|
                        p[0] - radius_voxels@[0] <= x <= p[0] + radius_voxels@[0] && p[1]
                            - radius_voxels@[1] <= y <= p[1] + radius_voxels@[1] && p[2]
                            - radius_voxels@[2] <= z <= p[2] + radius_voxels@[2]
                            ==> #[trigger] self.spec_label(lin_index(self.res, x, y, z))
                            == region_idx as u32
                },
            },
            2 * radius_voxels@[0] >= self.res[0] ==> r is Err,
    {
        let mut retries: usize = 0;
        while retries < 10
            invariant
                self.wf(),
                radius_voxels@.len() == 3,
                forall|d: int| 0 <= d < 3 ==> (#[trigger] radius_voxels@[d]) <= 0x2000_0000,
                (region_idx as int) < self.types@.len(),
            decreases 10 - retries,
        {
            let px = crate::rng::random_index(self.res[0] as usize);
            let py = crate::rng::random_index(self.res[1] as usize);
            let pz = crate::rng::random_index(self.res[2] as usize);
            let r0 = radius_voxels[0];
            let r1 = radius_voxels[1];
            let r2 = radius_voxels[2];
            proof {
                let a = self.res[0] as int;
                let b = self.res[1] as int;
                let c = self.res[2] as int;
                assert(a <= a * b * c && b <= a * b * c && c <= a * b * c) by (nonlinear_arith)
                    requires
                        0 < a && 0 < b && 0 < c,
                ;
            }
            if self.get_value_position([px, py, pz]) as usize != region_idx {
                retries = retries + 1;
                continue;
            }
            if px < r0 || py < r1 || pz < r2 {
                retries = retries + 1;
                continue;
            }
            if px + r0 >= self.res[0] as usize || py + r1 >= self.res[1] as usize || pz + r2
                >= self.res[2] as usize {
                retries = retries + 1;
                continue;
            }
            let mut all_inside = true;
            let mut x = px - r0;
            while x <= px + r0
                invariant
                    self.wf(),
                    radius_voxels@.len() == 3,
                    r0 == radius_voxels@[0],
                    r1 == radius_voxels@[1],
                    r2 == radius_voxels@[2],
                    (region_idx as int) < self.types@.len(),
                    r0 <= px && px + r0 < self.res[0],
                    r1 <= py && py + r1 < self.res[1],
                    r2 <= pz && pz + r2 < self.res[2],
                    px - r0 <= x <= px + r0 + 1,
                    all_inside ==> forall|x2: int, y2: int, z2: int|
                        px - r0 <= x2 < x && py - r1 <= y2 <= py + r1 && pz - r2 <= z2 <= pz + r2
                            ==> #[trigger] self.spec_label(lin_index(self.res, x2, y2, z2))
                            == region_idx as u32,
                decreases px + r0 + 1 - x,
            {
                let mut y = py - r1;
                while y <= py + r1
                    invariant
                        self.wf(),
                        radius_voxels@.len() == 3,
                        r0 == radius_voxels@[0],
                        r1 == radius_voxels@[1],
                        r2 == radius_voxels@[2],
                        (region_idx as int) < self.types@.len(),
                        r0 <= px && px + r0 < self.res[0],
                        r1 <= py && py + r1 < self.res[1],
                        r2 <= pz && pz + r2 < self.res[2],
                        px - r0 <= x <= px + r0,
                        py - r1 <= y <= py + r1 + 1,
                        all_inside ==> forall|x2: int, y2: int, z2: int|
                            px - r0 <= x2 < x && py - r1 <= y2 <= py + r1 && pz - r2 <= z2 <= pz
                                + r2 ==> #[trigger] self.spec_label(
                                lin_index(self.res, x2, y2, z2),
                            ) == region_idx as u32,
                        all_inside ==> forall|y2: int, z2: int|
                            py - r1 <= y2 < y && pz - r2 <= z2 <= pz + r2 ==> #[trigger] self.spec_label(
                                lin_index(self.res, x as int, y2, z2),
                            ) == region_idx as u32,
                    decreases py + r1 + 1 - y,
                {
                    let mut z = pz - r2;
                    while z <= pz + r2
                        invariant
                            self.wf(),
                            radius_voxels@.len() == 3,
                            r0 == radius_voxels@[0],
                            r1 == radius_voxels@[1],
                            r2 == radius_voxels@[2],
                            (region_idx as int) < self.types@.len(),
                            r0 <= px && px + r0 < self.res[0],
                            r1 <= py && py + r1 < self.res[1],
                            r2 <= pz && pz + r2 < self.res[2],
                            px - r0 <= x <= px + r0,
                            py - r1 <= y <= py + r1,
                            pz - r2 <= z <= pz + r2 + 1,
                            all_inside ==> forall|x2: int, y2: int, z2: int|
                                px - r0 <= x2 < x && py - r1 <= y2 <= py + r1 && pz - r2 <= z2 <= pz
                                    + r2 ==> #[trigger] self.spec_label(
                                    lin_index(self.res, x2, y2, z2),
                                ) == region_idx as u32,
                            all_inside ==> forall|y2: int, z2: int|
                                py - r1 <= y2 < y && pz - r2 <= z2 <= pz + r2
                                    ==> #[trigger] self.spec_label(
                                    lin_index(self.res, x as int, y2, z2),
                                ) == region_idx as u32,
                            all_inside ==> forall|z2: int|
                                pz - r2 <= z2 < z ==> #[trigger] self.spec_label(
                                    lin_index(self.res, x as int, y as int, z2),
                                ) == region_idx as u32,
                        decreases pz + r2 + 1 - z,
                    {
                        if self.get_value_position([x, y, z]) as usize != region_idx {
                            all_inside = false;
                        }
                        z = z + 1;
                    }
                    y = y + 1;
                }
                x = x + 1;
            }
            if all_inside {
                return Ok([px, py, pz]);
            }
            retries = retries + 1;
        }
        Err(SimError::CannotFit)
    }
}

} // verus!
