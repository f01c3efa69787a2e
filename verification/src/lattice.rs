//! Per-voxel particle state: packed token slots, occupancy counts, the
//! concentration histogram, reservoir tags and advisory locks.
//!
//! The well-formedness invariant keeps the slot array dense (tokens fill
//! the first `occupancy` slots, the rest are void), every token a declared
//! species, and the histogram equal to the per-voxel token counts — except
//! at a reservoir voxel, whose entry for the reservoir species is pinned
//! at one.
use vstd::prelude::*;

use crate::errors::SimError;
use crate::geometry::Shape;
use crate::params::LatticeParams;
use crate::regions::{count_label, lemma_count_label_absent, lemma_count_label_bounds,
    lemma_count_label_push, lin_index, lemma_lin_index_bounds};
use crate::rng::random_index;
use crate::SITE_CAPACITY;

verus! {

/// Flattened pair indices `(v, s) -> v * w + s` with `s < w` are unique.
pub proof fn lemma_flat_index_unique(v1: int, s1: int, v2: int, s2: int, w: int)
    requires
        0 <= s1 < w,
        0 <= s2 < w,
        v1 * w + s1 == v2 * w + s2,
    ensures
        v1 == v2,
        s1 == s2,
{
    assert(v1 == v2 && s1 == s2) by (nonlinear_arith)
        requires
            0 <= s1 < w,
            0 <= s2 < w,
            v1 * w + s1 == v2 * w + s2,
    ;
}

/// Sum over all voxels of one species' histogram entries.
pub open spec fn total_species(c: Seq<i32>, w: int, nv: int, s: int) -> int
    decreases nv,
{
    if nv <= 0 {
        0
    } else {
        total_species(c, w, nv - 1, s) + c[(nv - 1) * w + s]
    }
}

/// Updating one histogram cell moves exactly that species' total by the
/// difference, and no other species' total.
pub proof fn lemma_total_species_update(c: Seq<i32>, w: int, nv: int, v: int, s: int, val: i32)
    requires
        0 <= s < w,
        0 <= v < nv,
        nv * w <= c.len(),
    ensures
        total_species(c.update(v * w + s, val), w, nv, s) == total_species(c, w, nv, s) + val - c[v
            * w + s],
        forall|t: int|
            0 <= t < w && t != s ==> total_species(c.update(v * w + s, val), w, nv, t)
                == total_species(c, w, nv, t),
    decreases nv,
{
    assert(0 <= v * w + s < nv * w) by (nonlinear_arith)
        requires
            0 <= s < w,
            0 <= v < nv,
    ;
    assert((nv - 1) * w <= nv * w) by (nonlinear_arith)
        requires
            w >= 0,
    ;
    let upd = c.update(v * w + s, val);
    if v < nv - 1 {
        lemma_total_species_update(c, w, nv - 1, v, s, val);
        assert forall|t: int| 0 <= t < w implies #[trigger] upd[(nv - 1) * w + t] == c[(nv - 1) * w
            + t] by {
            assert(0 <= (nv - 1) * w + t < nv * w) by (nonlinear_arith)
                requires
                    0 <= t < w,
                    0 < nv,
            ;
            if (nv - 1) * w + t == v * w + s {
                lemma_flat_index_unique(nv - 1, t, v, s, w);
            }
        }
        assert(total_species(upd, w, nv, s) == total_species(c, w, nv, s) + val - c[v * w + s]);
        assert forall|t: int| 0 <= t < w && t != s implies #[trigger] total_species(upd, w, nv, t)
            == total_species(c, w, nv, t) by {
            assert(total_species(upd, w, nv - 1, t) == total_species(c, w, nv - 1, t));
            assert(upd[(nv - 1) * w + t] == c[(nv - 1) * w + t]);
        }
    } else {
        assert(v * w == (nv - 1) * w);
        lemma_total_species_frame(c, upd, w, nv - 1);
        assert(upd[v * w + s] == val);
        assert(total_species(upd, w, nv - 1, s) == total_species(c, w, nv - 1, s));
        assert(total_species(upd, w, nv, s) == total_species(upd, w, nv - 1, s) + upd[(nv - 1) * w
            + s]);
        assert(total_species(c, w, nv, s) == total_species(c, w, nv - 1, s) + c[(nv - 1) * w + s]);
        assert(total_species(upd, w, nv, s) == total_species(c, w, nv, s) + val - c[v * w + s]);
        assert forall|t: int| 0 <= t < w && t != s implies #[trigger] total_species(upd, w, nv, t)
            == total_species(c, w, nv, t) by {
            assert(upd[(nv - 1) * w + t] == c[(nv - 1) * w + t]) by {
                assert(0 <= (nv - 1) * w + t < nv * w) by (nonlinear_arith)
                    requires
                        0 <= t < w,
                        0 < nv,
                ;
                if (nv - 1) * w + t == v * w + s {
                    lemma_flat_index_unique(nv - 1, t, v, s, w);
                }
            }
            assert(total_species(upd, w, nv - 1, t) == total_species(c, w, nv - 1, t));
        }
    }
}

/// Two histograms equal below `nv * w` have the same totals there.
pub proof fn lemma_total_species_frame(c1: Seq<i32>, c2: Seq<i32>, w: int, nv: int)
    requires
        0 <= w,
        nv * w <= c1.len(),
        nv * w <= c2.len(),
        forall|i: int| 0 <= i < nv * w ==> c1[i] == c2[i],
    ensures
        forall|t: int| 0 <= t < w ==> total_species(c1, w, nv, t) == total_species(c2, w, nv, t),
    decreases nv,
{
    if nv > 0 {
        assert((nv - 1) * w <= nv * w) by (nonlinear_arith)
            requires
                w >= 0,
        ;
        lemma_total_species_frame(c1, c2, w, nv - 1);
        assert forall|t: int| 0 <= t < w implies #[trigger] total_species(c1, w, nv, t)
            == total_species(c2, w, nv, t) by {
            assert(0 <= (nv - 1) * w + t < nv * w) by (nonlinear_arith)
                requires
                    0 <= t < w,
                    0 < nv,
            ;
            assert(c1[(nv - 1) * w + t] == c2[(nv - 1) * w + t]);
            assert(total_species(c1, w, nv - 1, t) == total_species(c2, w, nv - 1, t));
        }
    }
}

/// Packed per-voxel particle state of one lattice buffer, plus the species
/// name table.
pub struct Lattice {
    /// Token slots, `SITE_CAPACITY` per voxel, in linear-voxel order.
    pub lattice: Vec<u32>,
    /// Number of filled slots per voxel.
    pub occupancy: Vec<u32>,
    /// Histogram: per voxel, one signed count per species (index 0: void).
    pub concentrations: Vec<i32>,
    /// Per voxel, the species this voxel is a reservoir for, or 0.
    pub reservoir: Vec<u32>,
    /// Per-voxel advisory lock words used by the kernels; all zero on the
    /// host.
    pub lock_cells: Vec<u32>,
    /// Grid resolution.
    pub res: [u32; 3],
    /// Species names in insertion order; index 0 is the void sentinel.
    pub particle_names: Vec<String>,
    /// Species whose populations are sampled into the statistics queue.
    pub logging_particles: Vec<u32>,
}

impl Lattice {
    /// Total number of voxels.
    pub open spec fn n_voxels(self) -> int {
        self.res[0] * self.res[1] * self.res[2]
    }

    /// Width of one histogram row: declared species count plus void.
    pub open spec fn width(self) -> int {
        self.particle_names@.len() as int
    }

    /// Occupancy of one voxel.
    pub open spec fn occ(self, v: int) -> int {
        self.occupancy@[v] as int
    }

    /// One histogram cell.
    pub open spec fn conc_at(self, v: int, s: int) -> int {
        self.concentrations@[v * self.width() + s] as int
    }

    /// The filled token slots of one voxel.
    pub open spec fn token_row(self, v: int) -> Seq<u32> {
        self.lattice@.subrange(v * (SITE_CAPACITY as int), v * (SITE_CAPACITY as int) + self.occ(v))
    }

    /// Slot density, token validity and histogram consistency of one voxel.
    pub open spec fn voxel_wf(self, v: int) -> bool {
        &&& self.occ(v) <= SITE_CAPACITY
        &&& forall|s: int|
            0 <= s < self.occ(v) ==> 1 <= (#[trigger] self.lattice@[v * (SITE_CAPACITY as int) + s])
                < self.width()
        &&& forall|s: int|
            self.occ(v) <= s < SITE_CAPACITY ==> (#[trigger] self.lattice@[v * (SITE_CAPACITY
                as int) + s]) == 0
        &&& self.conc_at(v, 0) == 0
        &&& forall|s: int|
            1 <= s < self.width() ==> (#[trigger] self.conc_at(v, s)) == (
            if self.reservoir@[v] == s {
                1int
            } else {
                count_label(self.token_row(v), s as u32)
            })
        &&& (self.reservoir@[v] as int) < self.width()
        &&& self.reservoir@[v] != 0 ==> count_label(self.token_row(v), self.reservoir@[v]) == 0
    }

    pub open spec fn wf(self) -> bool {
        &&& 0 < self.res[0] && 0 < self.res[1] && 0 < self.res[2]
        &&& self.res[0] * self.res[1] * self.res[2] < 0x1000_0000
        &&& 1 <= self.width() <= 0x0100_0000
        &&& self.n_voxels() * self.width() < 0x8000_0000
        &&& self.lattice@.len() == self.n_voxels() * (SITE_CAPACITY as int)
        &&& self.occupancy@.len() == self.n_voxels()
        &&& self.concentrations@.len() == self.n_voxels() * self.width()
        &&& self.reservoir@.len() == self.n_voxels()
        &&& self.lock_cells@.len() == self.n_voxels()
        &&& forall|i: int|
            0 <= i < self.logging_particles@.len() ==> 1 <= (
            #[trigger] self.logging_particles@[i]) && (self.logging_particles@[i] as int)
                < self.width()
        &&& forall|v: int| 0 <= v < self.n_voxels() ==> self.voxel_wf(v)
    }

    /// An empty lattice: no species but void, every voxel empty.
    pub fn new(params: &LatticeParams) -> (l: Lattice)
        requires
            params.wf(),
        ensures
            l.wf(),
            l.res == params.res,
            l.width() == 1,
            l.particle_names@.len() == 1,
            l.particle_names@[0]@ == "void"@,
            l.logging_particles@.len() == 0,
            forall|v: int| 0 <= v < l.n_voxels() ==> l.occ(v) == 0,
            forall|v: int| 0 <= v < l.n_voxels() ==> l.reservoir@[v] == 0,
            forall|i: int| 0 <= i < l.lattice@.len() ==> l.lattice@[i] == 0,
            forall|i: int| 0 <= i < l.concentrations@.len() ==> l.concentrations@[i] == 0,
    {
        let nv = params.dimensions();
        proof {
            assert(0 <= nv * (SITE_CAPACITY as int) <= 0x8000_0000 && nv * 1 == nv)
                by (nonlinear_arith)
                requires
                    0 <= nv < 0x1000_0000,
            ;
        }
        let lattice: Vec<u32> = vec![0u32; nv * (SITE_CAPACITY as usize)];
        let occupancy: Vec<u32> = vec![0u32; nv];
        let concentrations: Vec<i32> = vec![0i32; nv];
        let reservoir: Vec<u32> = vec![0u32; nv];
        let lock_cells: Vec<u32> = vec![0u32; nv];
        let mut particle_names: Vec<String> = Vec::new();
        particle_names.push(void_name());
        let l = Lattice {
            lattice,
            occupancy,
            concentrations,
            reservoir,
            lock_cells,
            res: params.res,
            particle_names,
            logging_particles: Vec::new(),
        };
        proof {
            assert forall|v: int| 0 <= v < l.n_voxels() implies l.voxel_wf(v) by {
                assert(l.occ(v) == 0);
                assert(0 <= v * 1 + 0 < nv) by (nonlinear_arith)
                    requires
                        0 <= v < nv,
                ;
                assert(l.token_row(v) =~= Seq::<u32>::empty());
            }
        }
        l
    }

    /// Linear index of a voxel coordinate, by the normative linearisation.
    pub fn site_to_idx(&self, site: [u32; 3]) -> (u: u32)
        requires
            self.wf(),
            site[0] < self.res[0],
            site[1] < self.res[1],
            site[2] < self.res[2],
        ensures
            u as int == lin_index(self.res, site[0] as int, site[1] as int, site[2] as int),
            (u as int) < self.n_voxels(),
    {
        proof {
            lemma_lin_index_bounds(self.res, site[0] as int, site[1] as int, site[2] as int);
            let r0 = self.res[0] as int;
            let r1 = self.res[1] as int;
            let r2 = self.res[2] as int;
            let p0 = site[0] as int;
            let p1 = site[1] as int;
            let p2 = site[2] as int;
            assert(0 <= r1 * r2 <= r0 * r1 * r2 && 0 <= p0 * (r1 * r2) && 0 <= p1 * r2)
                by (nonlinear_arith)
                requires
                    0 <= p0 < r0 && 0 <= p1 < r1 && 0 <= p2 < r2,
            ;
        }
        site[0] * (self.res[1] * self.res[2]) + site[1] * self.res[2] + site[2]
    }

    /// Linear index of a voxel coordinate given as `usize` components.
    pub fn site_to_idx_usize(&self, site: [usize; 3]) -> (u: u32)
        requires
            self.wf(),
            site[0] < self.res[0],
            site[1] < self.res[1],
            site[2] < self.res[2],
        ensures
            u as int == lin_index(self.res, site[0] as int, site[1] as int, site[2] as int),
            (u as int) < self.n_voxels(),
    {
        self.site_to_idx([site[0] as u32, site[1] as u32, site[2] as u32])
    }

    /// Species ID of a declared name: the smallest matching index, never
    /// the void sentinel at index 0.
    pub fn find_particle(&self, name: &String) -> (r: Option<usize>)
        requires
            self.particle_names@.len() >= 1,
        ensures
            match r {
                Some(i) => 1 <= i < self.particle_names@.len() && self.particle_names@[i as int]@
                    == name@ && (forall|j: int|
                    1 <= j < i ==> (#[trigger] self.particle_names@[j]@) != name@),
                None => forall|i: int|
                    1 <= i < self.particle_names@.len() ==> (#[trigger] self.particle_names@[i]@)
                        != name@,
            },
    {
        let n = self.particle_names.len();
        let mut i: usize = 1;
        while i < n
            invariant
                1 <= i <= n,
                n == self.particle_names@.len(),
                forall|t: int| 1 <= t < i ==> (#[trigger] self.particle_names@[t]@) != name@,
            decreases n - i,
        {
            if self.particle_names[i].eq(name) {
                return Some(i);
            }
            i = i + 1;
        }
        None
    }
}

/// The name of the void sentinel species.
pub fn void_name() -> (s: String)
    ensures
        s@ == "void"@,
{
    let s = "void";
    s.to_owned()
}


/// Removing one entry lowers exactly its label's count.
pub proof fn lemma_count_label_remove(s: Seq<u32>, i: int, r: u32)
    requires
        0 <= i < s.len(),
    ensures
        count_label(s.remove(i), r) == count_label(s, r) - (if s[i] == r {
            1int
        } else {
            0int
        }),
    decreases s.len(),
{
    if i == s.len() - 1 {
        assert(s.remove(i) =~= s.drop_last());
    } else {
        assert(s.remove(i).drop_last() =~= s.drop_last().remove(i));
        lemma_count_label_remove(s.drop_last(), i, r);
    }
}

impl Lattice {
    /// A state change confined to voxel `v` leaves every other voxel
    /// well-formed.
    pub proof fn lemma_other_voxels_wf(pre: Lattice, post: Lattice, v: int)
        requires
            pre.wf(),
            post.width() == pre.width(),
            post.res == pre.res,
            post.lattice@.len() == pre.lattice@.len(),
            post.occupancy@.len() == pre.occupancy@.len(),
            post.concentrations@.len() == pre.concentrations@.len(),
            post.reservoir@ == pre.reservoir@,
            0 <= v < pre.n_voxels(),
            forall|i: int|
                0 <= i < pre.lattice@.len() && !(v * (SITE_CAPACITY as int) <= i < v
                    * (SITE_CAPACITY as int) + (SITE_CAPACITY as int)) ==> #[trigger] post.lattice@[i]
                    == pre.lattice@[i],
            forall|i: int|
                0 <= i < pre.concentrations@.len() && !(v * pre.width() <= i < v * pre.width()
                    + pre.width()) ==> #[trigger] post.concentrations@[i] == pre.concentrations@[i],
            forall|u: int|
                0 <= u < pre.n_voxels() && u != v ==> #[trigger] post.occupancy@[u]
                    == pre.occupancy@[u],
        ensures
            forall|u: int| 0 <= u < pre.n_voxels() && u != v ==> #[trigger] post.voxel_wf(u),
    {
        let cap = SITE_CAPACITY as int;
        let w = pre.width();
        let nv = pre.n_voxels();
        assert forall|u: int| 0 <= u < nv && u != v implies #[trigger] post.voxel_wf(u) by {
            assert(pre.voxel_wf(u));
            assert(0 <= u * cap && u * cap + cap <= nv * cap && 0 <= u * w && u * w + w <= nv * w)
                by (nonlinear_arith)
                requires
                    0 <= u < nv,
                    0 < cap,
                    0 < w,
            ;
            assert forall|s: int| 0 <= s < cap implies #[trigger] post.lattice@[u * cap + s]
                == pre.lattice@[u * cap + s] by {
                if v * cap <= u * cap + s < v * cap + cap {
                    lemma_flat_index_unique(u, s, v, u * cap + s - v * cap, cap);
                }
            }
            assert forall|s: int| 0 <= s < w implies #[trigger] post.concentrations@[u * w + s]
                == pre.concentrations@[u * w + s] by {
                if v * w <= u * w + s < v * w + w {
                    lemma_flat_index_unique(u, s, v, u * w + s - v * w, w);
                }
            }
            Lattice::lemma_voxel_wf_transfer(pre, post, u);
        }
    }

    /// A voxel whose slots, histogram cells, occupancy and reservoir tag
    /// are unchanged stays well-formed.
    pub proof fn lemma_voxel_wf_transfer(pre: Lattice, post: Lattice, u: int)
        requires
            pre.voxel_wf(u),
            post.width() == pre.width(),
            post.occupancy@.len() > u >= 0,
            pre.occupancy@.len() > u,
            post.occupancy@[u] == pre.occupancy@[u],
            post.reservoir@.len() > u,
            pre.reservoir@.len() > u,
            post.reservoir@[u] == pre.reservoir@[u],
            u * (SITE_CAPACITY as int) >= 0,
            u * (SITE_CAPACITY as int) + (SITE_CAPACITY as int) <= pre.lattice@.len(),
            u * (SITE_CAPACITY as int) + (SITE_CAPACITY as int) <= post.lattice@.len(),
            u * pre.width() >= 0,
            u * pre.width() + pre.width() <= pre.concentrations@.len(),
            u * pre.width() + pre.width() <= post.concentrations@.len(),
            forall|s: int|
                0 <= s < SITE_CAPACITY ==> #[trigger] post.lattice@[u * (SITE_CAPACITY as int) + s]
                    == pre.lattice@[u * (SITE_CAPACITY as int) + s],
            forall|s: int|
                0 <= s < pre.width() ==> #[trigger] post.concentrations@[u * pre.width() + s]
                    == pre.concentrations@[u * pre.width() + s],
        ensures
            post.voxel_wf(u),
    {
        let cap = SITE_CAPACITY as int;
        let w = pre.width();
        assert(post.occ(u) == pre.occ(u));
        assert(pre.occ(u) <= cap);
        assert forall|i: int| 0 <= i < pre.occ(u) implies post.token_row(u)[i] == pre.token_row(
            u,
        )[i] by {
            assert(post.lattice@[u * cap + i] == pre.lattice@[u * cap + i]);
        }
        assert(post.token_row(u) =~= pre.token_row(u));
        assert forall|s: int| 0 <= s < w implies #[trigger] post.conc_at(u, s) == pre.conc_at(
            u,
            s,
        ) by {
            assert(post.concentrations@[u * w + s] == pre.concentrations@[u * w + s]);
        }
        assert(post.conc_at(u, 0) == 0);
        assert forall|s: int| 1 <= s < w implies #[trigger] post.conc_at(u, s) == (
        if post.reservoir@[u] == s {
            1int
        } else {
            count_label(post.token_row(u), s as u32)
        }) by {
            assert(pre.conc_at(u, s) == (if pre.reservoir@[u] == s {
                1int
            } else {
                count_label(pre.token_row(u), s as u32)
            }));
        }
    }

    /// Seed one token of `particle` into the voxel with linear index `v`:
    /// it takes the first free slot, and the voxel's histogram entry for
    /// the species rises by one.
    pub fn add_particle_idx(&mut self, v: usize, particle: u32) -> (r: Result<(), SimError>)
        requires
            old(self).wf(),
            (v as int) < old(self).n_voxels(),
            1 <= particle,
            (particle as int) < old(self).width(),
            old(self).reservoir@[v as int] != particle,
        ensures
            final(self).wf(),
            final(self).res == old(self).res,
            final(self).particle_names == old(self).particle_names,
            final(self).logging_particles == old(self).logging_particles,
            final(self).reservoir == old(self).reservoir,
            final(self).lock_cells == old(self).lock_cells,
            match r {
                Err(e) => e == SimError::SiteFull && *final(self) == *old(self) && old(self).occ(
                    v as int,
                ) == SITE_CAPACITY,
                Ok(()) => {
                    &&& old(self).occ(v as int) < SITE_CAPACITY
                    &&& final(self).occupancy@ == old(self).occupancy@.update(
                        v as int,
                        (old(self).occ(v as int) + 1) as u32,
                    )
                    &&& final(self).lattice@ == old(self).lattice@.update(
                        v * (SITE_CAPACITY as int) + old(self).occ(v as int),
                        particle,
                    )
                    &&& final(self).concentrations@ == old(self).concentrations@.update(
                        v * old(self).width() + particle,
                        (old(self).conc_at(v as int, particle as int) + 1) as i32,
                    )
                },
            },
    {
        let ghost pre = *self;
        let cap = SITE_CAPACITY as usize;
        let w = self.particle_names.len();
        let nv_ghost: Ghost<int> = Ghost(self.n_voxels());
        proof {
            assert(0 <= v * cap && v * cap + cap <= nv_ghost@ * cap && v * w + w <= nv_ghost@ * w
                && 0 <= v * w) by (nonlinear_arith)
                requires
                    0 <= v < nv_ghost@,
                    0 < cap,
                    0 < w,
            ;
            assert(nv_ghost@ * (cap as int) == pre.lattice@.len());
            assert(nv_ghost@ * (w as int) == pre.concentrations@.len());
            assert(pre.voxel_wf(v as int));
        }
        let occ = self.occupancy[v];
        if occ == SITE_CAPACITY {
            return Err(SimError::SiteFull);
        }
        let slot_index = v * cap + (occ as usize);
        self.lattice[slot_index] = particle;
        self.occupancy[v] = occ + 1;
        let conc_index = v * w + (particle as usize);
        proof {
            lemma_count_label_bounds(pre.token_row(v as int), particle);
            assert(pre.conc_at(v as int, particle as int) == count_label(
                pre.token_row(v as int),
                particle,
            ));
            assert(pre.token_row(v as int).len() == pre.occ(v as int));
            assert(self.concentrations@[v * w + particle] == pre.concentrations@[v * w
                + particle]);
        }
        let c = self.concentrations[conc_index];
        self.concentrations[conc_index] = c + 1;
        proof {
            let cap = cap as int;
            let w = w as int;
            let vi = v as int;
            let post = *self;
            assert forall|s: int| 0 <= s < cap && s != pre.occ(vi) implies #[trigger] post.lattice@[vi
                * cap + s] == pre.lattice@[vi * cap + s] by {}
            assert(post.token_row(vi) =~= pre.token_row(vi).push(particle));
            assert forall|s: int| 1 <= s < w implies #[trigger] post.conc_at(vi, s) == (
            if post.reservoir@[vi] == s {
                1int
            } else {
                count_label(post.token_row(vi), s as u32)
            }) by {
                assert(pre.voxel_wf(vi));
                lemma_count_label_push(pre.token_row(vi), s as u32, particle);
                if s == particle as int {
                    assert(post.conc_at(vi, s) == pre.conc_at(vi, s) + 1);
                    assert(pre.conc_at(vi, s) == count_label(pre.token_row(vi), particle));
                } else {
                    assert(post.concentrations@[vi * w + s] == pre.concentrations@[vi * w + s]);
                    assert(post.conc_at(vi, s) == pre.conc_at(vi, s));
                }
            }
            assert(post.conc_at(vi, 0) == pre.conc_at(vi, 0));
            lemma_count_label_push(pre.token_row(vi), pre.reservoir@[vi], particle);
            assert(post.voxel_wf(vi));
            Lattice::lemma_other_voxels_wf(pre, post, vi);
        }
        Ok(())
    }

    /// Seed one token of `particle` at a voxel coordinate.
    pub fn add_particle_site(&mut self, site: [usize; 3], particle: u32) -> (r: Result<
        (),
        SimError,
    >)
        requires
            old(self).wf(),
            site[0] < old(self).res[0],
            site[1] < old(self).res[1],
            site[2] < old(self).res[2],
            1 <= particle,
            (particle as int) < old(self).width(),
            old(self).reservoir@[lin_index(
                old(self).res,
                site[0] as int,
                site[1] as int,
                site[2] as int,
            )] != particle,
        ensures
            final(self).wf(),
            final(self).res == old(self).res,
            final(self).particle_names == old(self).particle_names,
            final(self).logging_particles == old(self).logging_particles,
            final(self).reservoir == old(self).reservoir,
            final(self).lock_cells == old(self).lock_cells,
            match r {
                Err(e) => e == SimError::SiteFull && *final(self) == *old(self) && old(self).occ(
                    lin_index(old(self).res, site[0] as int, site[1] as int, site[2] as int),
                ) == SITE_CAPACITY,
                Ok(()) => {
                    let v = lin_index(
                        old(self).res,
                        site[0] as int,
                        site[1] as int,
                        site[2] as int,
                    );
                    &&& old(self).occ(v) < SITE_CAPACITY
                    &&& final(self).occupancy@ == old(self).occupancy@.update(
                        v,
                        (old(self).occ(v) + 1) as u32,
                    )
                    &&& final(self).lattice@ == old(self).lattice@.update(
                        v * (SITE_CAPACITY as int) + old(self).occ(v),
                        particle,
                    )
                    &&& final(self).concentrations@ == old(self).concentrations@.update(
                        v * old(self).width() + particle,
                        (old(self).conc_at(v, particle as int) + 1) as i32,
                    )
                },
            },
    {
        let u = self.site_to_idx_usize(site);
        self.add_particle_idx(u as usize, particle)
    }

    /// Mark the voxel with linear index `v` as a reservoir for `particle`
    /// and pin that species' histogram entry at one; a voxel already
    /// reserved refuses with `ReservoirConflict`.
    pub fn add_reservoir_idx(&mut self, v: usize, particle: u32) -> (r: Result<(), SimError>)
        requires
            old(self).wf(),
            (v as int) < old(self).n_voxels(),
            1 <= particle,
            (particle as int) < old(self).width(),
            old(self).reservoir@[v as int] == 0 ==> old(self).conc_at(v as int, particle as int)
                == 0,
        ensures
            final(self).wf(),
            final(self).res == old(self).res,
            final(self).particle_names == old(self).particle_names,
            final(self).logging_particles == old(self).logging_particles,
            final(self).lattice == old(self).lattice,
            final(self).occupancy == old(self).occupancy,
            final(self).lock_cells == old(self).lock_cells,
            match r {
                Err(e) => e == SimError::ReservoirConflict && *final(self) == *old(self) && old(self).reservoir@[v as int] != 0,
                Ok(()) => {
                    &&& old(self).reservoir@[v as int] == 0
                    &&& final(self).reservoir@ == old(self).reservoir@.update(v as int, particle)
                    &&& final(self).concentrations@ == old(self).concentrations@.update(
                        v * old(self).width() + particle,
                        1i32,
                    )
                },
            },
    {
        let ghost pre = *self;
        let w = self.particle_names.len();
        let nv_ghost: Ghost<int> = Ghost(self.n_voxels());
        proof {
            assert(0 <= v * w && v * w + w <= nv_ghost@ * w) by (nonlinear_arith)
                requires
                    0 <= v < nv_ghost@,
                    0 < w,
            ;
            assert(nv_ghost@ * (w as int) == pre.concentrations@.len());
            assert(pre.voxel_wf(v as int));
        }
        if self.reservoir[v] > 0 {
            return Err(SimError::ReservoirConflict);
        }
        self.reservoir[v] = particle;
        let conc_index = v * w + (particle as usize);
        self.concentrations[conc_index] = 1;
        proof {
            let w = w as int;
            let vi = v as int;
            let post = *self;
            assert(pre.voxel_wf(vi));
            assert(post.token_row(vi) =~= pre.token_row(vi));
            assert(count_label(pre.token_row(vi), particle) == pre.conc_at(vi, particle as int));
            assert forall|s: int| 1 <= s < w implies #[trigger] post.conc_at(vi, s) == (
            if post.reservoir@[vi] == s {
                1int
            } else {
                count_label(post.token_row(vi), s as u32)
            }) by {
                assert(count_label(post.token_row(vi), s as u32) == count_label(
                    pre.token_row(vi),
                    s as u32,
                ));
                if s != particle {
                    assert(post.concentrations@[vi * w + s] == pre.concentrations@[vi * w + s]);
                    assert(post.conc_at(vi, s) == pre.conc_at(vi, s));
                    assert(pre.conc_at(vi, s) == (if pre.reservoir@[vi] == s {
                        1int
                    } else {
                        count_label(pre.token_row(vi), s as u32)
                    }));
                } else {
                    assert(post.conc_at(vi, s) == 1);
                }
            }
            assert(post.conc_at(vi, 0) == pre.conc_at(vi, 0));
            assert(post.voxel_wf(vi));
            let cap = SITE_CAPACITY as int;
            assert forall|u: int| 0 <= u < pre.n_voxels() && u != vi implies #[trigger] post.voxel_wf(
                u,
            ) by {
                assert(pre.voxel_wf(u));
                assert(0 <= u * w && u * w + w <= pre.n_voxels() * w && 0 <= u * cap && u * cap
                    + cap <= pre.n_voxels() * cap) by (nonlinear_arith)
                    requires
                        0 <= u < pre.n_voxels(),
                        0 < w,
                        0 < cap,
                ;
                assert forall|s: int| 0 <= s < w implies #[trigger] post.concentrations@[u * w + s]
                    == pre.concentrations@[u * w + s] by {
                    if u * w + s == vi * w + particle {
                        lemma_flat_index_unique(u, s, vi, particle as int, w);
                    }
                }
                Lattice::lemma_voxel_wf_transfer(pre, post, u);
            }
        }
        Ok(())
    }
}


impl Lattice {
    /// Declare one more species: the name table grows by one and the
    /// histogram gains one zero column.
    pub fn add_species(&mut self, name: String)
        requires
            old(self).wf(),
            old(self).width() < 0x0100_0000,
            old(self).n_voxels() * (old(self).width() + 1) < 0x8000_0000,
        ensures
            final(self).wf(),
            final(self).res == old(self).res,
            final(self).lattice == old(self).lattice,
            final(self).occupancy == old(self).occupancy,
            final(self).reservoir == old(self).reservoir,
            final(self).lock_cells == old(self).lock_cells,
            final(self).logging_particles == old(self).logging_particles,
            final(self).particle_names@ == old(self).particle_names@.push(name),
            final(self).width() == old(self).width() + 1,
            forall|v: int, s: int|
                0 <= v < old(self).n_voxels() && 0 <= s < old(self).width()
                    ==> #[trigger] final(self).conc_at(v, s) == old(self).conc_at(v, s),
            forall|v: int|
                0 <= v < old(self).n_voxels() ==> #[trigger] final(self).conc_at(
                    v,
                    old(self).width(),
                ) == 0,
    {
        let ghost pre = *self;
        let w = self.particle_names.len();
        let nv = self.occupancy.len();
        let mut fresh: Vec<i32> = Vec::new();
        let mut v: usize = 0;
        proof {
            assert(nv * (w + 1) < 0x8000_0000 && 0 * (w + 1) == 0 && nv * w == pre.concentrations@.len())
                by (nonlinear_arith)
                requires
                    nv == pre.n_voxels(),
                    w == pre.width(),
                    pre.n_voxels() * (pre.width() + 1) < 0x8000_0000,
                    pre.concentrations@.len() == pre.n_voxels() * pre.width(),
            ;
        }
        while v < nv
            invariant
                v <= nv,
                w == pre.width(),
                nv == pre.n_voxels(),
                pre.wf(),
                *self == pre,
                nv * (w + 1) < 0x8000_0000,
                fresh@.len() == v * (w + 1),
                forall|t: int, s: int|
                    0 <= t < v && 0 <= s < w ==> #[trigger] fresh@[t * (w + 1) + s]
                        == pre.concentrations@[t * w + s],
                forall|t: int|
                    0 <= t < v ==> #[trigger] fresh@[t * (w + 1) + w] == 0i32,
            decreases nv - v,
        {
            let ghost row_start = fresh@.len() as int;
            proof {
                assert(row_start == v * (w + 1) && (v + 1) * (w + 1) == row_start + w + 1 && v * w
                    + w <= nv * w && 0 <= v * w && (v + 1) * (w + 1) <= nv * (w + 1))
                    by (nonlinear_arith)
                    requires
                        row_start == v * (w + 1),
                        0 <= v < nv,
                        0 < w,
                ;
            }
            let ghost fresh_before = fresh@;
            let mut s: usize = 0;
            while s < w
                invariant
                    s <= w,
                    w == pre.width(),
                    nv == pre.n_voxels(),
                    pre.wf(),
                    *self == pre,
                    0 <= v < nv,
                    row_start == v * (w + 1),
                    v * w + w <= nv * w,
                    0 <= v * w,
                    fresh_before.len() == row_start,
                    fresh@.len() == row_start + s,
                    row_start + w + 1 <= nv * (w + 1),
                    nv * (w + 1) < 0x8000_0000,
                    forall|i: int| 0 <= i < row_start ==> #[trigger] fresh@[i] == fresh_before[i],
                    forall|i: int|
                        0 <= i < s ==> #[trigger] fresh@[row_start + i] == pre.concentrations@[v * w
                            + i],
                decreases w - s,
            {
                let c = self.concentrations[v * w + s];
                fresh.push(c);
                s = s + 1;
            }
            fresh.push(0);
            proof {
                assert forall|t: int, s2: int|
                    0 <= t < v + 1 && 0 <= s2 < w implies #[trigger] fresh@[t * (w + 1) + s2]
                    == pre.concentrations@[t * w + s2] by {
                    if t < v {
                        assert(0 <= t * (w + 1) + s2 < row_start) by (nonlinear_arith)
                            requires
                                0 <= t < v,
                                0 <= s2 < w,
                                row_start == v * (w + 1),
                        ;
                        assert(fresh@[t * (w + 1) + s2] == fresh_before[t * (w + 1) + s2]);
                    } else {
                        assert(t * (w + 1) + s2 == row_start + s2);
                    }
                }
                assert forall|t: int| 0 <= t < v + 1 implies #[trigger] fresh@[t * (w + 1) + w]
                    == 0i32 by {
                    if t < v {
                        assert(0 <= t * (w + 1) + w < row_start) by (nonlinear_arith)
                            requires
                                0 <= t < v,
                                0 < w,
                                row_start == v * (w + 1),
                        ;
                        assert(fresh@[t * (w + 1) + w] == fresh_before[t * (w + 1) + w]);
                    } else {
                        assert(t * (w + 1) + w == row_start + w);
                    }
                }
            }
            v = v + 1;
        }
        self.concentrations = fresh;
        self.particle_names.push(name);
        proof {
            let post = *self;
            let wi = w as int;
            assert(post.width() == wi + 1);
            assert(post.concentrations@.len() == nv * (wi + 1));
            assert forall|u: int| 0 <= u < post.n_voxels() implies #[trigger] post.voxel_wf(u) by {
                assert(pre.voxel_wf(u));
                assert(post.token_row(u) =~= pre.token_row(u));
                assert forall|s: int| 0 <= s < wi implies #[trigger] post.conc_at(u, s)
                    == pre.conc_at(u, s) by {}
                assert(post.conc_at(u, wi) == 0);
                assert forall|s: int| 1 <= s < wi + 1 implies #[trigger] post.conc_at(u, s) == (
                if post.reservoir@[u] == s {
                    1int
                } else {
                    count_label(post.token_row(u), s as u32)
                }) by {
                    if s == wi {
                        assert forall|i: int| 0 <= i < pre.token_row(u).len() implies #[trigger] pre.token_row(
                            u,
                        )[i] != (wi as u32) by {
                            assert(pre.token_row(u)[i] == pre.lattice@[u * (SITE_CAPACITY as int)
                                + i]);
                        }
                        lemma_count_label_absent(pre.token_row(u), wi as u32);
                        assert((pre.reservoir@[u] as int) < wi);
                    }
                }
            }
        }
    }

    /// Place exactly one token of `particle` in every voxel of the list.
    /// The list must name distinct voxels with free capacity; afterwards
    /// the species' total population has risen by the list's length.
    pub fn fill_region_particles(&mut self, particle: u32, regions_idx_buffer: &Vec<u32>)
        requires
            old(self).wf(),
            1 <= particle,
            (particle as int) < old(self).width(),
            forall|n: int|
                0 <= n < regions_idx_buffer@.len() ==> (#[trigger] regions_idx_buffer@[n] as int)
                    < old(self).n_voxels(),
            forall|n: int, m: int|
                0 <= n < m < regions_idx_buffer@.len() ==> #[trigger] regions_idx_buffer@[n]
                    < #[trigger] regions_idx_buffer@[m],
            forall|n: int|
                0 <= n < regions_idx_buffer@.len() ==> old(self).occ(
                    #[trigger] regions_idx_buffer@[n] as int,
                ) < SITE_CAPACITY,
            forall|v: int|
                0 <= v < old(self).n_voxels() ==> (#[trigger] old(self).reservoir@[v]) != particle,
        ensures
            final(self).wf(),
            final(self).res == old(self).res,
            final(self).particle_names == old(self).particle_names,
            final(self).logging_particles == old(self).logging_particles,
            final(self).reservoir == old(self).reservoir,
            final(self).lock_cells == old(self).lock_cells,
            total_species(
                final(self).concentrations@,
                old(self).width(),
                old(self).n_voxels(),
                particle as int,
            ) == total_species(
                old(self).concentrations@,
                old(self).width(),
                old(self).n_voxels(),
                particle as int,
            ) + regions_idx_buffer@.len(),
            forall|t: int|
                0 <= t < old(self).width() && t != particle ==> #[trigger] total_species(
                    final(self).concentrations@,
                    old(self).width(),
                    old(self).n_voxels(),
                    t,
                ) == total_species(
                    old(self).concentrations@,
                    old(self).width(),
                    old(self).n_voxels(),
                    t,
                ),
            forall|n: int|
                0 <= n < regions_idx_buffer@.len() ==> #[trigger] final(self).occ(
                    regions_idx_buffer@[n] as int,
                ) == old(self).occ(regions_idx_buffer@[n] as int) + 1,
            forall|n: int|
                0 <= n < regions_idx_buffer@.len() ==> #[trigger] final(self).conc_at(
                    regions_idx_buffer@[n] as int,
                    particle as int,
                ) == old(self).conc_at(regions_idx_buffer@[n] as int, particle as int) + 1,
            forall|v: int|
                0 <= v < old(self).n_voxels() && (forall|n: int|
                    0 <= n < regions_idx_buffer@.len() ==> (#[trigger] regions_idx_buffer@[n]
                        as int) != v) ==> #[trigger] final(self).occ(v) == old(self).occ(v),
            forall|v: int|
                0 <= v < old(self).n_voxels() && (forall|n: int|
                    0 <= n < regions_idx_buffer@.len() ==> (#[trigger] regions_idx_buffer@[n]
                        as int) != v) ==> #[trigger] final(self).conc_at(v, particle as int)
                    == old(self).conc_at(v, particle as int),
    {
        let ghost pre = *self;
        let ghost w = pre.width();
        let ghost nv = pre.n_voxels();
        let len = regions_idx_buffer.len();
        let mut m: usize = 0;
        while m < len
            invariant
                m <= len,
                len == regions_idx_buffer@.len(),
                self.wf(),
                pre.wf(),
                w == pre.width(),
                nv == pre.n_voxels(),
                self.res == pre.res,
                self.particle_names == pre.particle_names,
                self.logging_particles == pre.logging_particles,
                self.reservoir == pre.reservoir,
                self.lock_cells == pre.lock_cells,
                1 <= particle && (particle as int) < w,
                forall|n: int|
                    0 <= n < len ==> (#[trigger] regions_idx_buffer@[n] as int) < nv,
                forall|n: int, m2: int|
                    0 <= n < m2 < len ==> #[trigger] regions_idx_buffer@[n]
                        < #[trigger] regions_idx_buffer@[m2],
                forall|n: int|
                    0 <= n < len ==> pre.occ(#[trigger] regions_idx_buffer@[n] as int)
                        < SITE_CAPACITY,
                forall|v: int| 0 <= v < nv ==> (#[trigger] pre.reservoir@[v]) != particle,
                total_species(self.concentrations@, w, nv, particle as int) == total_species(
                    pre.concentrations@,
                    w,
                    nv,
                    particle as int,
                ) + m,
                forall|t: int|
                    0 <= t < w && t != particle ==> #[trigger] total_species(
                        self.concentrations@,
                        w,
                        nv,
                        t,
                    ) == total_species(pre.concentrations@, w, nv, t),
                forall|n: int|
                    0 <= n < m ==> #[trigger] self.occ(regions_idx_buffer@[n] as int) == pre.occ(
                        regions_idx_buffer@[n] as int,
                    ) + 1,
                forall|n: int|
                    0 <= n < m ==> #[trigger] self.conc_at(
                        regions_idx_buffer@[n] as int,
                        particle as int,
                    ) == pre.conc_at(regions_idx_buffer@[n] as int, particle as int) + 1,
                forall|v: int|
                    0 <= v < nv && (forall|n: int| 0 <= n < m ==> (#[trigger] regions_idx_buffer@[n]
                        as int) != v) ==> #[trigger] self.occ(v) == pre.occ(v),
                forall|v: int|
                    0 <= v < nv && (forall|n: int| 0 <= n < m ==> (#[trigger] regions_idx_buffer@[n]
                        as int) != v) ==> #[trigger] self.conc_at(v, particle as int)
                        == pre.conc_at(v, particle as int),
            decreases len - m,
        {
            let ghost before = *self;
            let v = regions_idx_buffer[m] as usize;
            proof {
                assert(before.occ(v as int) == pre.occ(v as int)) by {
                    assert forall|n: int| 0 <= n < m implies (#[trigger] regions_idx_buffer@[n]
                        as int) != v as int by {
                        assert(regions_idx_buffer@[n] < regions_idx_buffer@[m as int]);
                    }
                }
            }
            let r = self.add_particle_idx(v, particle);
            proof {
                assert(r is Ok);
                assert(before.voxel_wf(v as int));
                lemma_count_label_bounds(before.token_row(v as int), particle);
                assert(before.conc_at(v as int, particle as int) == count_label(
                    before.token_row(v as int),
                    particle,
                ));
                assert(0 <= v * w + particle < nv * w) by (nonlinear_arith)
                    requires
                        0 <= v < nv,
                        0 <= particle < w,
                ;
                lemma_total_species_update(
                    before.concentrations@,
                    w,
                    nv,
                    v as int,
                    particle as int,
                    (before.conc_at(v as int, particle as int) + 1) as i32,
                );
                assert(total_species(self.concentrations@, w, nv, particle as int)
                    == total_species(before.concentrations@, w, nv, particle as int) + 1);
                assert forall|t: int| 0 <= t < w && t != particle implies #[trigger] total_species(
                    self.concentrations@,
                    w,
                    nv,
                    t,
                ) == total_species(pre.concentrations@, w, nv, t) by {
                    assert(total_species(self.concentrations@, w, nv, t) == total_species(
                        before.concentrations@,
                        w,
                        nv,
                        t,
                    ));
                }
                assert(self.occupancy@ == before.occupancy@.update(
                    v as int,
                    (before.occ(v as int) + 1) as u32,
                ));
                assert forall|n: int| 0 <= n < m + 1 implies #[trigger] self.occ(
                    regions_idx_buffer@[n] as int,
                ) == pre.occ(regions_idx_buffer@[n] as int) + 1 by {
                    let idx = regions_idx_buffer@[n] as int;
                    if n < m {
                        assert(regions_idx_buffer@[n] < regions_idx_buffer@[m as int]);
                        assert(idx != v as int);
                        assert(self.occupancy@[idx] == before.occupancy@[idx]);
                        assert(before.occ(idx) == pre.occ(idx) + 1);
                    } else {
                        assert(idx == v as int);
                        assert(self.occ(idx) == before.occ(idx) + 1);
                        assert(before.occ(idx) == pre.occ(idx));
                    }
                }
                assert forall|n: int| 0 <= n < m + 1 implies #[trigger] self.conc_at(
                    regions_idx_buffer@[n] as int,
                    particle as int,
                ) == pre.conc_at(regions_idx_buffer@[n] as int, particle as int) + 1 by {
                    let idx = regions_idx_buffer@[n] as int;
                    if n < m {
                        assert(regions_idx_buffer@[n] < regions_idx_buffer@[m as int]);
                        assert(idx != v as int);
                        assert(0 <= idx * w + particle < nv * w) by (nonlinear_arith)
                            requires
                                0 <= idx < nv,
                                0 <= particle < w,
                        ;
                        assert(self.concentrations@[idx * w + particle]
                            == before.concentrations@[idx * w + particle]) by {
                            if idx * w + particle == v * w + particle {
                                lemma_flat_index_unique(
                                    idx,
                                    particle as int,
                                    v as int,
                                    particle as int,
                                    w,
                                );
                            }
                        }
                        assert(before.conc_at(idx, particle as int) == pre.conc_at(
                            idx,
                            particle as int,
                        ) + 1);
                    } else {
                        assert(idx == v as int);
                        assert(self.conc_at(idx, particle as int) == before.conc_at(
                            idx,
                            particle as int,
                        ) + 1);
                        assert(before.conc_at(idx, particle as int) == pre.conc_at(
                            idx,
                            particle as int,
                        )) by {
                            assert(forall|n2: int|
                                0 <= n2 < m ==> (#[trigger] regions_idx_buffer@[n2] as int) != idx);
                        }
                    }
                }
                assert forall|v2: int|
                    0 <= v2 < nv && (forall|n: int|
                        0 <= n < m + 1 ==> (#[trigger] regions_idx_buffer@[n] as int) != v2) implies
                    #[trigger] self.occ(v2) == pre.occ(v2) by {
                    assert((regions_idx_buffer@[m as int] as int) != v2);
                    assert(v2 != v as int);
                    assert(self.occupancy@[v2] == before.occupancy@[v2]);
                    assert(before.occ(v2) == pre.occ(v2)) by {
                        assert(forall|n: int|
                            0 <= n < m ==> (#[trigger] regions_idx_buffer@[n] as int) != v2);
                    }
                }
                assert forall|v2: int|
                    0 <= v2 < nv && (forall|n: int|
                        0 <= n < m + 1 ==> (#[trigger] regions_idx_buffer@[n] as int) != v2) implies
                    #[trigger] self.conc_at(v2, particle as int) == pre.conc_at(
                        v2,
                        particle as int,
                    ) by {
                    assert((regions_idx_buffer@[m as int] as int) != v2);
                    assert(v2 != v as int);
                    assert(0 <= v2 * w + particle < nv * w) by (nonlinear_arith)
                        requires
                            0 <= v2 < nv,
                            0 <= particle < w,
                    ;
                    assert(self.concentrations@[v2 * w + particle] == before.concentrations@[v2 * w
                        + particle]) by {
                        if v2 * w + particle == v * w + particle {
                            lemma_flat_index_unique(v2, particle as int, v as int, particle as int, w);
                        }
                    }
                    assert(before.conc_at(v2, particle as int) == pre.conc_at(v2, particle as int))
                        by {
                        assert(forall|n: int|
                            0 <= n < m ==> (#[trigger] regions_idx_buffer@[n] as int) != v2);
                    }
                }
            }
            m = m + 1;
        }
    }

    /// Seed `num_particles` tokens (or reservoir marks) of `particle`, each
    /// at a voxel drawn from the region's index list; a full draw is
    /// redrawn, and a hundred consecutive failures abort with
    /// `RegionSaturated`.
    pub fn init_random_particles_region(
        &mut self,
        particle: u32,
        num_particles: u32,
        regions_idx_buffer: &Vec<u32>,
        is_reservoir: bool,
    ) -> (r: Result<(), SimError>)
        requires
            old(self).wf(),
            regions_idx_buffer@.len() > 0,
            1 <= particle,
            (particle as int) < old(self).width(),
            forall|n: int|
                0 <= n < regions_idx_buffer@.len() ==> (#[trigger] regions_idx_buffer@[n] as int)
                    < old(self).n_voxels(),
            forall|v: int|
                0 <= v < old(self).n_voxels() ==> (#[trigger] old(self).reservoir@[v]) != particle,
            is_reservoir ==> forall|v: int|
                0 <= v < old(self).n_voxels() ==> #[trigger] old(self).conc_at(v, particle as int)
                    == 0,
        ensures
            final(self).wf(),
            final(self).res == old(self).res,
            final(self).particle_names == old(self).particle_names,
            final(self).logging_particles == old(self).logging_particles,
            final(self).lock_cells == old(self).lock_cells,
            r is Err ==> r == Err::<(), SimError>(SimError::RegionSaturated),
            !is_reservoir ==> {
                &&& final(self).reservoir == old(self).reservoir
                &&& (r is Ok ==> total_species(
                    final(self).concentrations@,
                    old(self).width(),
                    old(self).n_voxels(),
                    particle as int,
                ) == total_species(
                    old(self).concentrations@,
                    old(self).width(),
                    old(self).n_voxels(),
                    particle as int,
                ) + num_particles)
                &&& forall|t: int|
                    0 <= t < old(self).width() && t != particle ==> #[trigger] total_species(
                        final(self).concentrations@,
                        old(self).width(),
                        old(self).n_voxels(),
                        t,
                    ) == total_species(old(self).concentrations@, old(self).width(), old(self).n_voxels(), t)
                &&& forall|v: int|
                    0 <= v < old(self).n_voxels() && (forall|n: int|
                        0 <= n < regions_idx_buffer@.len() ==> (#[trigger] regions_idx_buffer@[n]
                            as int) != v) ==> #[trigger] final(self).occ(v) == old(self).occ(v)
                &&& forall|v: int|
                    0 <= v < old(self).n_voxels() && (forall|n: int|
                        0 <= n < regions_idx_buffer@.len() ==> (#[trigger] regions_idx_buffer@[n]
                            as int) != v) ==> #[trigger] final(self).conc_at(v, particle as int)
                        == old(self).conc_at(v, particle as int)
            },
            !is_reservoir && num_particles > 0 && (forall|n: int|
                0 <= n < regions_idx_buffer@.len() ==> old(self).occ(
                    #[trigger] regions_idx_buffer@[n] as int,
                ) == SITE_CAPACITY) ==> r is Err && *final(self) == *old(self),
            is_reservoir ==> {
                &&& final(self).lattice == old(self).lattice
                &&& final(self).occupancy == old(self).occupancy
                &&& (r is Ok ==> count_label(final(self).reservoir@, particle) == num_particles)
                &&& forall|v: int|
                    0 <= v < old(self).n_voxels() && #[trigger] final(self).reservoir@[v]
                        == particle ==> final(self).conc_at(v, particle as int) == 1
                &&& forall|v: int|
                    0 <= v < old(self).n_voxels() && #[trigger] final(self).reservoir@[v]
                        != particle ==> final(self).conc_at(v, particle as int) == 0
                &&& forall|v: int|
                    0 <= v < old(self).n_voxels() && (forall|n: int|
                        0 <= n < regions_idx_buffer@.len() ==> (#[trigger] regions_idx_buffer@[n]
                            as int) != v) ==> #[trigger] final(self).reservoir@[v] == old(self).reservoir@[v]
            },
    {
        let ghost pre = *self;
        let ghost w = pre.width();
        let ghost nv = pre.n_voxels();
        proof {
            if is_reservoir {
                assert forall|v: int| 0 <= v < nv implies pre.reservoir@[v] != particle by {}
                lemma_count_label_absent_reservoir(pre.reservoir@, particle);
            }
        }
        let mut added: u32 = 0;
        while added < num_particles
            invariant
                pre == *old(self),
                added <= num_particles,
                self.wf(),
                pre.wf(),
                w == pre.width(),
                nv == pre.n_voxels(),
                regions_idx_buffer@.len() > 0,
                1 <= particle && (particle as int) < w,
                forall|n: int|
                    0 <= n < regions_idx_buffer@.len() ==> (#[trigger] regions_idx_buffer@[n]
                        as int) < nv,
                self.res == pre.res,
                self.particle_names == pre.particle_names,
                self.logging_particles == pre.logging_particles,
                self.lock_cells == pre.lock_cells,
                forall|v: int| 0 <= v < nv ==> (#[trigger] self.reservoir@[v]) != particle || is_reservoir,
                !is_reservoir ==> {
                    &&& self.reservoir == pre.reservoir
                    &&& total_species(self.concentrations@, w, nv, particle as int)
                        == total_species(pre.concentrations@, w, nv, particle as int) + added
                    &&& forall|t: int|
                        0 <= t < w && t != particle ==> #[trigger] total_species(
                            self.concentrations@,
                            w,
                            nv,
                            t,
                        ) == total_species(pre.concentrations@, w, nv, t)
                    &&& forall|v: int|
                        0 <= v < nv && (forall|n: int|
                            0 <= n < regions_idx_buffer@.len() ==> (
                            #[trigger] regions_idx_buffer@[n] as int) != v) ==> #[trigger] self.occ(
                            v,
                        ) == pre.occ(v)
                    &&& forall|v: int|
                        0 <= v < nv && (forall|n: int|
                            0 <= n < regions_idx_buffer@.len() ==> (
                            #[trigger] regions_idx_buffer@[n] as int) != v)
                            ==> #[trigger] self.conc_at(v, particle as int) == pre.conc_at(
                            v,
                            particle as int,
                        )
                },
                (!is_reservoir && (forall|n: int|
                    0 <= n < regions_idx_buffer@.len() ==> pre.occ(
                        #[trigger] regions_idx_buffer@[n] as int,
                    ) == SITE_CAPACITY)) ==> *self == pre && added == 0,
                is_reservoir ==> {
                    &&& self.lattice == pre.lattice
                    &&& self.occupancy == pre.occupancy
                    &&& count_label(self.reservoir@, particle) == added
                    &&& self.reservoir@.len() == nv
                    &&& forall|v: int|
                        0 <= v < nv && #[trigger] self.reservoir@[v] == particle ==> self.conc_at(
                            v,
                            particle as int,
                        ) == 1
                    &&& forall|v: int|
                        0 <= v < nv && #[trigger] self.reservoir@[v] != particle ==> self.conc_at(
                            v,
                            particle as int,
                        ) == 0
                    &&& forall|v: int|
                        0 <= v < nv && #[trigger] self.reservoir@[v] != pre.reservoir@[v]
                            ==> self.reservoir@[v] == particle
                    &&& forall|v: int|
                        0 <= v < nv && (forall|n: int|
                            0 <= n < regions_idx_buffer@.len() ==> (
                            #[trigger] regions_idx_buffer@[n] as int) != v)
                            ==> #[trigger] self.reservoir@[v] == pre.reservoir@[v]
                },
            decreases num_particles - added,
        {
            let mut tries: u32 = 0;
            let mut placed = false;
            while tries < 100 && !placed
                invariant
                    pre == *old(self),
                    tries <= 100,
                    self.wf(),
                    pre.wf(),
                    w == pre.width(),
                    nv == pre.n_voxels(),
                    regions_idx_buffer@.len() > 0,
                    1 <= particle && (particle as int) < w,
                    forall|n: int|
                        0 <= n < regions_idx_buffer@.len() ==> (#[trigger] regions_idx_buffer@[n]
                            as int) < nv,
                    self.res == pre.res,
                    self.particle_names == pre.particle_names,
                    self.logging_particles == pre.logging_particles,
                    self.lock_cells == pre.lock_cells,
                    forall|v: int| 0 <= v < nv ==> (#[trigger] self.reservoir@[v]) != particle || is_reservoir,
                    !is_reservoir ==> {
                        &&& self.reservoir == pre.reservoir
                        &&& total_species(self.concentrations@, w, nv, particle as int)
                            == total_species(pre.concentrations@, w, nv, particle as int) + added
                            + (if placed { 1int } else { 0int })
                        &&& forall|t: int|
                            0 <= t < w && t != particle ==> #[trigger] total_species(
                                self.concentrations@,
                                w,
                                nv,
                                t,
                            ) == total_species(pre.concentrations@, w, nv, t)
                        &&& forall|v: int|
                            0 <= v < nv && (forall|n: int|
                                0 <= n < regions_idx_buffer@.len() ==> (
                                #[trigger] regions_idx_buffer@[n] as int) != v)
                                ==> #[trigger] self.occ(v) == pre.occ(v)
                        &&& forall|v: int|
                            0 <= v < nv && (forall|n: int|
                                0 <= n < regions_idx_buffer@.len() ==> (
                                #[trigger] regions_idx_buffer@[n] as int) != v)
                                ==> #[trigger] self.conc_at(v, particle as int) == pre.conc_at(
                                v,
                                particle as int,
                            )
                    },
                    (!is_reservoir && (forall|n: int|
                        0 <= n < regions_idx_buffer@.len() ==> pre.occ(
                            #[trigger] regions_idx_buffer@[n] as int,
                        ) == SITE_CAPACITY)) ==> *self == pre && added == 0 && !placed,
                    is_reservoir ==> {
                        &&& self.lattice == pre.lattice
                        &&& self.occupancy == pre.occupancy
                        &&& count_label(self.reservoir@, particle) == added + (if placed {
                            1int
                        } else {
                            0int
                        })
                        &&& self.reservoir@.len() == nv
                        &&& forall|v: int|
                            0 <= v < nv && #[trigger] self.reservoir@[v] == particle
                                ==> self.conc_at(v, particle as int) == 1
                        &&& forall|v: int|
                            0 <= v < nv && #[trigger] self.reservoir@[v] != particle
                                ==> self.conc_at(v, particle as int) == 0
                        &&& forall|v: int|
                            0 <= v < nv && #[trigger] self.reservoir@[v] != pre.reservoir@[v]
                                ==> self.reservoir@[v] == particle
                        &&& forall|v: int|
                            0 <= v < nv && (forall|n: int|
                                0 <= n < regions_idx_buffer@.len() ==> (
                                #[trigger] regions_idx_buffer@[n] as int) != v)
                                ==> #[trigger] self.reservoir@[v] == pre.reservoir@[v]
                    },
                decreases 100 - tries + (if placed { 0int } else { 1int }),
            {
                let ghost before = *self;
                let n = random_index(regions_idx_buffer.len());
                let v = regions_idx_buffer[n] as usize;
                if is_reservoir {
                    let r = self.add_reservoir_idx(v, particle);
                    match r {
                        Ok(()) => {
                            proof {
                                assert(before.reservoir@[v as int] == 0);
                                lemma_count_label_update_general(
                                    before.reservoir@,
                                    v as int,
                                    particle,
                                    particle,
                                );
                                assert(count_label(self.reservoir@, particle) == count_label(
                                    before.reservoir@,
                                    particle,
                                ) + 1);
                                assert(0 <= v * w + particle < nv * w && 0 <= v * w)
                                    by (nonlinear_arith)
                                    requires
                                        0 <= v < nv,
                                        0 <= particle < w,
                                ;
                                assert forall|v2: int|
                                    0 <= v2 < nv && #[trigger] self.reservoir@[v2] == particle implies
                                    self.conc_at(v2, particle as int) == 1 by {
                                    if v2 == v as int {
                                        assert(self.conc_at(v2, particle as int) == 1);
                                    } else {
                                        assert(self.reservoir@[v2] == before.reservoir@[v2]);
                                        assert(0 <= v2 * w + particle < nv * w) by (nonlinear_arith)
                                            requires
                                                0 <= v2 < nv,
                                                0 <= particle < w,
                                        ;
                                        lemma_conc_update_other(
                                            before.concentrations@,
                                            w,
                                            v as int,
                                            v2,
                                            particle as int,
                                            1i32,
                                        );
                                    }
                                }
                                assert forall|v2: int|
                                    0 <= v2 < nv && #[trigger] self.reservoir@[v2] != particle implies
                                    self.conc_at(v2, particle as int) == 0 by {
                                    assert(v2 != v as int);
                                    assert(self.reservoir@[v2] == before.reservoir@[v2]);
                                    assert(0 <= v2 * w + particle < nv * w) by (nonlinear_arith)
                                        requires
                                            0 <= v2 < nv,
                                            0 <= particle < w,
                                    ;
                                    lemma_conc_update_other(
                                        before.concentrations@,
                                        w,
                                        v as int,
                                        v2,
                                        particle as int,
                                        1i32,
                                    );
                                }
                                assert forall|v2: int|
                                    0 <= v2 < nv && #[trigger] self.reservoir@[v2]
                                        != pre.reservoir@[v2] implies self.reservoir@[v2]
                                    == particle by {
                                    if v2 != v as int {
                                        assert(self.reservoir@[v2] == before.reservoir@[v2]);
                                    }
                                }
                                assert forall|v2: int|
                                    0 <= v2 < nv && (forall|n2: int|
                                        0 <= n2 < regions_idx_buffer@.len() ==> (
                                        #[trigger] regions_idx_buffer@[n2] as int) != v2) implies
                                    #[trigger] self.reservoir@[v2] == pre.reservoir@[v2] by {
                                    assert((regions_idx_buffer@[n as int] as int) != v2);
                                    assert(v2 != v as int);
                                    assert(self.reservoir@[v2] == before.reservoir@[v2]);
                                }
                            }
                            placed = true;
                        },
                        Err(_) => {
                            tries = tries + 1;
                        },
                    }
                } else {
                    let r = self.add_particle_idx(v, particle);
                    match r {
                        Ok(()) => {
                            proof {
                                assert(before.voxel_wf(v as int));
                                lemma_count_label_bounds(before.token_row(v as int), particle);
                                assert(before.conc_at(v as int, particle as int) == count_label(
                                    before.token_row(v as int),
                                    particle,
                                ));
                                assert(0 <= v * w + particle < nv * w) by (nonlinear_arith)
                                    requires
                                        0 <= v < nv,
                                        0 <= particle < w,
                                ;
                                lemma_total_species_update(
                                    before.concentrations@,
                                    w,
                                    nv,
                                    v as int,
                                    particle as int,
                                    (before.conc_at(v as int, particle as int) + 1) as i32,
                                );
                                assert(total_species(self.concentrations@, w, nv, particle as int)
                                    == total_species(before.concentrations@, w, nv, particle as int)
                                    + 1);
                                assert forall|t: int|
                                    0 <= t < w && t != particle implies #[trigger] total_species(
                                    self.concentrations@,
                                    w,
                                    nv,
                                    t,
                                ) == total_species(pre.concentrations@, w, nv, t) by {
                                    assert(total_species(self.concentrations@, w, nv, t)
                                        == total_species(before.concentrations@, w, nv, t));
                                }
                                if (forall|n2: int|
                                    0 <= n2 < regions_idx_buffer@.len() ==> pre.occ(
                                        #[trigger] regions_idx_buffer@[n2] as int,
                                    ) == SITE_CAPACITY) {
                                    assert(pre.occ(regions_idx_buffer@[n as int] as int)
                                        == SITE_CAPACITY);
                                    assert(false);
                                }
                                assert forall|v2: int|
                                    0 <= v2 < nv && (forall|n2: int|
                                        0 <= n2 < regions_idx_buffer@.len() ==> (
                                        #[trigger] regions_idx_buffer@[n2] as int) != v2) implies
                                    #[trigger] self.occ(v2) == pre.occ(v2) by {
                                    assert((regions_idx_buffer@[n as int] as int) != v2);
                                    assert(v2 != v as int);
                                    assert(self.occupancy@[v2] == before.occupancy@[v2]);
                                    assert(before.occ(v2) == pre.occ(v2));
                                }
                                assert forall|v2: int|
                                    0 <= v2 < nv && (forall|n2: int|
                                        0 <= n2 < regions_idx_buffer@.len() ==> (
                                        #[trigger] regions_idx_buffer@[n2] as int) != v2) implies
                                    #[trigger] self.conc_at(v2, particle as int) == pre.conc_at(
                                        v2,
                                        particle as int,
                                    ) by {
                                    assert((regions_idx_buffer@[n as int] as int) != v2);
                                    assert(v2 != v as int);
                                    assert(0 <= v2 * w + particle < nv * w) by (nonlinear_arith)
                                        requires
                                            0 <= v2 < nv,
                                            0 <= particle < w,
                                    ;
                                    lemma_conc_update_other(
                                        before.concentrations@,
                                        w,
                                        v as int,
                                        v2,
                                        particle as int,
                                        (before.conc_at(v as int, particle as int) + 1) as i32,
                                    );
                                    assert(before.conc_at(v2, particle as int) == pre.conc_at(
                                        v2,
                                        particle as int,
                                    ));
                                }
                            }
                            placed = true;
                        },
                        Err(_) => {
                            tries = tries + 1;
                        },
                    }
                }
            }
            if !placed {
                return Err(SimError::RegionSaturated);
            }
            added = added + 1;
        }
        Ok(())
    }
}

/// A label absent from every entry counts zero (reservoir flavour).
proof fn lemma_count_label_absent_reservoir(s: Seq<u32>, r: u32)
    requires
        forall|i: int| 0 <= i < s.len() ==> (#[trigger] s[i]) != r,
    ensures
        count_label(s, r) == 0,
    decreases s.len(),
{
    if s.len() > 0 {
        lemma_count_label_absent_reservoir(s.drop_last(), r);
    }
}

/// Updating one entry to the counted label raises the count by one when
/// the old entry differed.
proof fn lemma_count_label_update_general(s: Seq<u32>, i: int, x: u32, r: u32)
    requires
        0 <= i < s.len(),
    ensures
        count_label(s.update(i, x), r) == count_label(s, r) - (if s[i] == r {
            1int
        } else {
            0int
        }) + (if x == r {
            1int
        } else {
            0int
        }),
{
    crate::regions::lemma_count_label_update(s, i, x, r);
}


/// Sum of one voxel's histogram entries for species `0 .. k`.
pub open spec fn voxel_histogram_sum(c: Seq<i32>, base: int, k: int) -> int
    decreases k,
{
    if k <= 0 {
        0
    } else {
        voxel_histogram_sum(c, base, k - 1) + c[base + k - 1]
    }
}

proof fn lemma_voxel_histogram_matches_counts(l: Lattice, v: int, k: int)
    requires
        l.wf(),
        0 <= v < l.n_voxels(),
        l.reservoir@[v] == 0,
        0 <= k <= l.width(),
    ensures
        voxel_histogram_sum(l.concentrations@, v * l.width(), k) == crate::regions::sum_counts(
            l.token_row(v),
            k,
        ),
    decreases k,
{
    if k > 0 {
        lemma_voxel_histogram_matches_counts(l, v, k - 1);
        assert(l.voxel_wf(v));
        if k - 1 == 0 {
            assert(l.conc_at(v, 0) == 0);
            assert forall|i: int| 0 <= i < l.token_row(v).len() implies (
            #[trigger] l.token_row(v)[i]) != 0u32 by {
                assert(l.token_row(v)[i] == l.lattice@[v * (SITE_CAPACITY as int) + i]);
            }
            lemma_count_label_absent(l.token_row(v), 0u32);
        } else {
            assert(l.conc_at(v, k - 1) == count_label(l.token_row(v), (k - 1) as u32));
        }
    }
}

/// Per voxel, the concentration histogram sums to the occupancy — except
/// at a reservoir voxel, whose pinned entry stands apart.
pub proof fn lemma_histogram_sums_to_occupancy(l: Lattice, v: int)
    requires
        l.wf(),
        0 <= v < l.n_voxels(),
        l.reservoir@[v] == 0,
    ensures
        voxel_histogram_sum(l.concentrations@, v * l.width(), l.width()) == l.occ(v),
{
    lemma_voxel_histogram_matches_counts(l, v, l.width());
    assert(l.voxel_wf(v));
    assert forall|i: int| 0 <= i < l.token_row(v).len() implies (#[trigger] l.token_row(v)[i]
        as int) < l.width() by {
        assert(l.token_row(v)[i] == l.lattice@[v * (SITE_CAPACITY as int) + i]);
    }
    crate::regions::lemma_sum_counts_total(l.token_row(v), l.width());
    assert(l.token_row(v).len() == l.occ(v));
}

/// The first `occupancy` slots of a voxel hold tokens and the rest are
/// void, and the occupancy never exceeds the site capacity.
pub proof fn lemma_slots_dense(l: Lattice, v: int)
    requires
        l.wf(),
        0 <= v < l.n_voxels(),
    ensures
        l.occ(v) <= SITE_CAPACITY,
        forall|s: int|
            0 <= s < l.occ(v) ==> 1 <= (#[trigger] l.lattice@[v * (SITE_CAPACITY as int) + s])
                < l.width(),
        forall|s: int|
            l.occ(v) <= s < SITE_CAPACITY ==> (#[trigger] l.lattice@[v * (SITE_CAPACITY as int)
                + s]) == 0,
{
    assert(l.voxel_wf(v));
}


impl Lattice {
    /// Take one token of `particle` out of the voxel with linear index
    /// `v`, compacting the slots; reports whether a token was present.
    pub fn remove_particle_idx(&mut self, v: usize, particle: u32) -> (removed: bool)
        requires
            old(self).wf(),
            (v as int) < old(self).n_voxels(),
            1 <= particle,
            (particle as int) < old(self).width(),
            old(self).reservoir@[v as int] != particle,
        ensures
            final(self).wf(),
            final(self).res == old(self).res,
            final(self).particle_names == old(self).particle_names,
            final(self).logging_particles == old(self).logging_particles,
            final(self).reservoir == old(self).reservoir,
            final(self).lock_cells == old(self).lock_cells,
            !removed ==> *final(self) == *old(self) && count_label(
                old(self).token_row(v as int),
                particle,
            ) == 0,
            removed ==> {
                &&& count_label(old(self).token_row(v as int), particle) >= 1
                &&& old(self).occ(v as int) >= 1
                &&& final(self).occupancy@ == old(self).occupancy@.update(
                    v as int,
                    (old(self).occ(v as int) - 1) as u32,
                )
                &&& final(self).concentrations@ == old(self).concentrations@.update(
                    v * old(self).width() + particle,
                    (old(self).conc_at(v as int, particle as int) - 1) as i32,
                )
                &&& forall|idx: int|
                    0 <= idx < old(self).lattice@.len() && !(v * (SITE_CAPACITY as int) <= idx < v
                        * (SITE_CAPACITY as int) + (SITE_CAPACITY as int))
                        ==> #[trigger] final(self).lattice@[idx] == old(self).lattice@[idx]
            },
    {
        let ghost pre = *self;
        let cap = SITE_CAPACITY as usize;
        let w = self.particle_names.len();
        let nv_ghost: Ghost<int> = Ghost(self.n_voxels());
        proof {
            assert(0 <= v * cap && v * cap + cap <= nv_ghost@ * cap && v * w + w <= nv_ghost@ * w
                && 0 <= v * w) by (nonlinear_arith)
                requires
                    0 <= v < nv_ghost@,
                    0 < cap,
                    0 < w,
            ;
            assert(nv_ghost@ * (cap as int) == pre.lattice@.len());
            assert(nv_ghost@ * (w as int) == pre.concentrations@.len());
            assert(pre.voxel_wf(v as int));
        }
        let occ = self.occupancy[v] as usize;
        let base = v * cap;
        let mut i: usize = 0;
        while i < occ && self.lattice[base + i] != particle
            invariant
                pre == *old(self),
                *self == pre,
                i <= occ,
                occ == pre.occ(v as int),
                occ <= cap,
                cap == SITE_CAPACITY,
                base == v * cap,
                base + cap <= pre.lattice@.len(),
                forall|j: int| 0 <= j < i ==> (#[trigger] pre.lattice@[base + j]) != particle,
            decreases occ - i,
        {
            i = i + 1;
        }
        if i == occ {
            proof {
                assert forall|j: int| 0 <= j < pre.token_row(v as int).len() implies (
                #[trigger] pre.token_row(v as int)[j]) != particle by {
                    assert(pre.token_row(v as int)[j] == pre.lattice@[v * (SITE_CAPACITY as int)
                        + j]);
                }
                lemma_count_label_absent(pre.token_row(v as int), particle);
            }
            return false;
        }
        let ghost hit = i as int;
        proof {
            assert(pre.lattice@[base + hit] == particle);
            assert(pre.token_row(v as int)[hit] == particle);
            lemma_count_label_member_at(pre.token_row(v as int), hit);
        }
        let mut t: usize = i;
        while t + 1 < occ
            invariant
                pre == *old(self),
                0 <= hit < occ,
                hit <= t,
                t < occ,
                occ == pre.occ(v as int),
                occ <= cap,
                cap == SITE_CAPACITY,
                w == pre.width(),
                base == v * cap,
                base + cap <= pre.lattice@.len(),
                self.lattice@.len() == pre.lattice@.len(),
                self.occupancy == pre.occupancy,
                self.concentrations == pre.concentrations,
                self.reservoir == pre.reservoir,
                self.lock_cells == pre.lock_cells,
                self.particle_names == pre.particle_names,
                self.logging_particles == pre.logging_particles,
                self.res == pre.res,
                forall|j: int|
                    0 <= j < pre.lattice@.len() && !(base <= j < base + cap)
                        ==> #[trigger] self.lattice@[j] == pre.lattice@[j],
                forall|j: int|
                    base <= j < base + hit ==> #[trigger] self.lattice@[j] == pre.lattice@[j],
                forall|j: int|
                    base + hit <= j < base + t ==> #[trigger] self.lattice@[j] == pre.lattice@[j
                        + 1],
                forall|j: int|
                    base + t <= j < base + cap ==> #[trigger] self.lattice@[j] == pre.lattice@[j],
            decreases occ - t,
        {
            let nxt = self.lattice[base + t + 1];
            self.lattice[base + t] = nxt;
            t = t + 1;
        }
        self.lattice[base + occ - 1] = 0;
        self.occupancy[v] = (occ - 1) as u32;
        let conc_index = v * w + (particle as usize);
        proof {
            assert(pre.conc_at(v as int, particle as int) == count_label(
                pre.token_row(v as int),
                particle,
            ));
            lemma_count_label_bounds(pre.token_row(v as int), particle);
        }
        let c = self.concentrations[conc_index];
        self.concentrations[conc_index] = c - 1;
        proof {
            let capi = cap as int;
            let wi = w as int;
            let vi = v as int;
            let post = *self;
            assert(pre.wf());
            assert(pre.voxel_wf(vi));
            assert(pre.conc_at(vi, particle as int) == count_label(
                pre.token_row(vi),
                particle,
            ));
            lemma_count_label_bounds(pre.token_row(vi), particle);
            assert(post.occ(vi) == occ - 1);
            assert forall|j: int| 0 <= j < pre.token_row(vi).len() implies 1 <= (
            #[trigger] pre.token_row(vi)[j]) < wi by {
                assert(pre.token_row(vi)[j] == pre.lattice@[vi * (SITE_CAPACITY as int) + j]);
            }
            assert forall|j: int| 0 <= j < occ - 1 implies #[trigger] post.token_row(vi)[j]
                == pre.token_row(vi).remove(hit)[j] by {
                if j < hit {
                    assert(post.lattice@[vi * capi + j] == pre.lattice@[vi * capi + j]);
                } else {
                    assert(post.lattice@[vi * capi + j] == pre.lattice@[vi * capi + j + 1]);
                }
            }
            assert(post.token_row(vi) =~= pre.token_row(vi).remove(hit));
            lemma_count_label_remove(pre.token_row(vi), hit, particle);
            assert forall|s: int| 1 <= s < wi implies #[trigger] post.conc_at(vi, s) == (
            if post.reservoir@[vi] == s {
                1int
            } else {
                count_label(post.token_row(vi), s as u32)
            }) by {
                assert(pre.voxel_wf(vi));
                lemma_count_label_remove(pre.token_row(vi), hit, s as u32);
                assert(count_label(post.token_row(vi), s as u32) == count_label(
                    pre.token_row(vi),
                    s as u32,
                ) - (if pre.token_row(vi)[hit] == s {
                    1int
                } else {
                    0int
                }));
                assert(pre.conc_at(vi, s) == (if pre.reservoir@[vi] == s {
                    1int
                } else {
                    count_label(pre.token_row(vi), s as u32)
                }));
                if s != particle {
                    assert(vi * wi + s != vi * wi + particle);
                    assert(post.concentrations@[vi * wi + s] == pre.concentrations@[vi * wi + s]);
                    assert(post.conc_at(vi, s) == pre.conc_at(vi, s));
                    assert(pre.token_row(vi)[hit] == particle);
                } else {
                    assert(post.conc_at(vi, s) == pre.conc_at(vi, s) - 1);
                }
            }
            assert forall|s: int| 0 <= s < occ - 1 implies 1 <= (#[trigger] post.lattice@[vi * capi
                + s]) < wi by {
                assert(pre.voxel_wf(vi));
                assert(post.token_row(vi)[s] == post.lattice@[vi * capi + s]);
                assert(pre.token_row(vi).remove(hit)[s] == (if s < hit {
                    pre.token_row(vi)[s]
                } else {
                    pre.token_row(vi)[s + 1]
                }));
                if s < hit {
                    assert(1 <= pre.token_row(vi)[s] < wi);
                } else {
                    assert(1 <= pre.token_row(vi)[s + 1] < wi);
                }
            }
            assert forall|s: int| occ - 1 <= s < capi implies (#[trigger] post.lattice@[vi * capi
                + s]) == 0 by {
                if s >= occ {
                    assert(post.lattice@[vi * capi + s] == pre.lattice@[vi * capi + s]);
                }
            }
            assert(post.conc_at(vi, 0) == pre.conc_at(vi, 0));
            lemma_count_label_remove(pre.token_row(vi), hit, pre.reservoir@[vi]);
            assert(post.voxel_wf(vi));
            Lattice::lemma_other_voxels_wf(pre, post, vi);
        }
        true
    }
}

/// An entry with the label at a known index makes the count positive.
proof fn lemma_count_label_member_at(s: Seq<u32>, i: int)
    requires
        0 <= i < s.len(),
    ensures
        count_label(s, s[i]) >= 1,
{
    crate::regions::lemma_count_label_member(s, i);
}


/// Voxel span of the boundary-aware safety margin a random walk keeps to
/// the region edge.
pub open spec fn walk_safety_voxels(block_length: i64, vs: i64) -> int {
    (block_length * 10) as int / vs as int
}

/// Voxel displacement of one walk block along one axis: the fixed-point
/// direction component times the block length, in voxels of that axis.
pub open spec fn walk_displacement(dir_d: i64, length: i64, vs: i64) -> int {
    (dir_d as int * length as int) / (crate::params::FIXED_ONE as int * vs as int)
}

/// A histogram update at one voxel's cell leaves the same species' cell
/// of every other voxel unchanged.
pub proof fn lemma_conc_update_other(c: Seq<i32>, w: int, vset: int, vget: int, s: int, val: i32)
    requires
        0 <= s < w,
        0 <= vset,
        0 <= vget,
        vget != vset,
        vset * w + s < c.len(),
        0 <= vget * w + s < c.len(),
    ensures
        c.update(vset * w + s, val)[vget * w + s] == c[vget * w + s],
{
    if vget * w + s == vset * w + s {
        lemma_flat_index_unique(vget, s, vset, s, w);
    }
}

/// What a committed walk block leaves behind: every voxel of the
/// cylinder between the scaled start and end points gained one token of
/// the species and lay in the starting voxel's region, every other voxel
/// is untouched, and `added` lists only cylinder voxels.
pub open spec fn block_seeded(
    pre: Lattice,
    post: Lattice,
    p: LatticeParams,
    regions: crate::regions::Regions,
    initial_site: [usize; 3],
    end: [usize; 3],
    added: Seq<u32>,
    radius: i64,
    particle: u32,
) -> bool {
    exists|q0: [i64; 3], qf: [i64; 3]|
        {
            &&& #[trigger] block_geometry_ok(initial_site, end, p.voxel_size, q0, qf)
            &&& (forall|u: int|
                0 <= u < pre.n_voxels() && #[trigger] crate::regions::covers_lin(
                    Shape::Cylinder { p0: q0, pf: qf, radius },
                    p,
                    u,
                ) ==> post.conc_at(u, particle as int) == pre.conc_at(u, particle as int) + 1
                    && post.occ(u) == pre.occ(u) + 1 && regions.regions@[u] == regions.spec_label(
                    crate::regions::lin_index(
                        p.res,
                        initial_site[0] as int,
                        initial_site[1] as int,
                        initial_site[2] as int,
                    ),
                ))
            &&& (forall|u: int|
                0 <= u < pre.n_voxels() && !crate::regions::covers_lin(
                    Shape::Cylinder { p0: q0, pf: qf, radius },
                    p,
                    u,
                ) ==> #[trigger] post.conc_at(u, particle as int) == pre.conc_at(
                    u,
                    particle as int,
                ) && post.occ(u) == pre.occ(u))
            &&& (forall|n: int|
                0 <= n < added.len() ==> crate::regions::covers_lin(
                    Shape::Cylinder { p0: q0, pf: qf, radius },
                    p,
                    (#[trigger] added[n]) as int,
                ))
        }
}

/// What an aborted walk block leaves behind: exactly the listed voxels
/// gained one token of the species, everything else is untouched, and the
/// list is strictly increasing.
pub open spec fn block_partial(pre: Lattice, post: Lattice, added: Seq<u32>, particle: u32) -> bool {
    &&& forall|n: int| 0 <= n < added.len() ==> (#[trigger] added[n] as int) < pre.n_voxels()
    &&& forall|n: int|
        0 <= n < added.len() ==> #[trigger] post.conc_at(added[n] as int, particle as int)
            == pre.conc_at(added[n] as int, particle as int) + 1
    &&& forall|n: int|
        0 <= n < added.len() ==> #[trigger] post.occ(added[n] as int) == pre.occ(added[n] as int)
            + 1
    &&& forall|v: int|
        0 <= v < pre.n_voxels() && (forall|n: int|
            0 <= n < added.len() ==> (#[trigger] added[n] as int) != v) ==> #[trigger] post.conc_at(
            v,
            particle as int,
        ) == pre.conc_at(v, particle as int)
    &&& forall|v: int|
        0 <= v < pre.n_voxels() && (forall|n: int|
            0 <= n < added.len() ==> (#[trigger] added[n] as int) != v) ==> #[trigger] post.occ(v)
            == pre.occ(v)
    &&& forall|n: int, m: int| 0 <= n < m < added.len() ==> #[trigger] added[n] < #[trigger] added[m]
}

/// The fixed-point axis endpoints of a walk block: the start and end
/// voxels scaled by the per-axis voxel size.
pub open spec fn block_geometry_ok(
    site: [usize; 3],
    end: [usize; 3],
    vs: [i64; 3],
    q0: [i64; 3],
    qf: [i64; 3],
) -> bool {
    &&& forall|d: int| 0 <= d < 3 ==> (#[trigger] q0[d]) as int == site[d] * vs[d]
    &&& forall|d: int| 0 <= d < 3 ==> (#[trigger] qf[d]) as int == end[d] * vs[d]
}

impl Lattice {
    /// Take one token of `particle` back out of every listed voxel, as
    /// far as tokens are present.
    fn remove_walk_tokens(&mut self, list: &Vec<u32>, particle: u32)
        requires
            old(self).wf(),
            1 <= particle,
            (particle as int) < old(self).width(),
            forall|n: int|
                0 <= n < list@.len() ==> (#[trigger] list@[n] as int) < old(self).n_voxels(),
            forall|v: int|
                0 <= v < old(self).n_voxels() ==> (#[trigger] old(self).reservoir@[v]) != particle,
        ensures
            final(self).wf(),
            final(self).res == old(self).res,
            final(self).particle_names == old(self).particle_names,
            final(self).logging_particles == old(self).logging_particles,
            final(self).reservoir == old(self).reservoir,
            final(self).lock_cells == old(self).lock_cells,
    {
        let ghost pre = *self;
        let len = list.len();
        let mut m: usize = 0;
        while m < len
            invariant
                m <= len,
                len == list@.len(),
                pre == *old(self),
                self.wf(),
                self.res == pre.res,
                self.particle_names == pre.particle_names,
                self.logging_particles == pre.logging_particles,
                self.reservoir == pre.reservoir,
                self.lock_cells == pre.lock_cells,
                1 <= particle && (particle as int) < self.width(),
                forall|n: int|
                    0 <= n < list@.len() ==> (#[trigger] list@[n] as int) < self.n_voxels(),
                forall|v: int|
                    0 <= v < self.n_voxels() ==> (#[trigger] self.reservoir@[v]) != particle,
            decreases len - m,
        {
            let v = list[m] as usize;
            let _ = self.remove_particle_idx(v, particle);
            m = m + 1;
        }
    }

    /// Seed one cylinder block of the random walk: a token of `particle`
    /// goes into every voxel of the cylinder from `initial_site` along
    /// `direction` (fixed-point, unit scale) of the given length and
    /// radius.  A voxel of the cylinder outside the starting region, or a
    /// full voxel, aborts with the exact partial insertion list so the
    /// caller can roll it back.
    #[verifier::rlimit(100)]
    #[verifier::spinoff_prover]
    pub fn add_particles_cylinder(
        &mut self,
        params: &crate::params::LatticeParams,
        regions: &crate::regions::Regions,
        initial_site: [usize; 3],
        direction: [i64; 3],
        length: i64,
        radius: i64,
        particle: u32,
    ) -> (r: Result<([usize; 3], Vec<u32>), Vec<u32>>)
        requires
            old(self).wf(),
            params.wf(),
            regions.wf(),
            old(self).res == params.res,
            regions.res == params.res,
            initial_site[0] < params.res[0],
            initial_site[1] < params.res[1],
            initial_site[2] < params.res[2],
            forall|d: int|
                0 <= d < 3 ==> -crate::params::FIXED_ONE <= #[trigger] direction[d]
                    <= crate::params::FIXED_ONE,
            0 <= length <= 0x0100_0000,
            0 <= radius <= crate::params::COORD_BOUND,
            1 <= particle,
            (particle as int) < old(self).width(),
            forall|v: int|
                0 <= v < old(self).n_voxels() ==> (#[trigger] old(self).reservoir@[v]) != particle,
        ensures
            final(self).wf(),
            final(self).res == old(self).res,
            final(self).particle_names == old(self).particle_names,
            final(self).logging_particles == old(self).logging_particles,
            final(self).reservoir == old(self).reservoir,
            final(self).lock_cells == old(self).lock_cells,
            r matches Ok((end, added)) ==> end[0] < params.res[0] && end[1] < params.res[1]
                && end[2] < params.res[2],
            r matches Ok((end, added)) ==> forall|d: int|
                0 <= d < 3 ==> (#[trigger] end[d]) as int == initial_site[d] + walk_displacement(
                    direction[d],
                    length,
                    params.voxel_size[d],
                ),
            r matches Ok((end, added)) ==> block_seeded(
                *old(self),
                *final(self),
                *params,
                *regions,
                initial_site,
                end,
                added@,
                radius,
                particle,
            ),
            r matches Ok((end, added)) ==> block_partial(*old(self), *final(self), added@, particle),
            r matches Err(added) ==> block_partial(*old(self), *final(self), added@, particle),
    {
        let ghost pre = *self;
        let vs = params.voxel_size;
        let f = crate::params::FIXED_ONE;
        let initial_region = regions.get_value_position(initial_site);
        proof {
            crate::geometry::lemma_mul_bound(
                direction[0] as int,
                length as int,
                f as int,
                0x0100_0000,
            );
            crate::geometry::lemma_mul_bound(
                direction[1] as int,
                length as int,
                f as int,
                0x0100_0000,
            );
            crate::geometry::lemma_mul_bound(
                direction[2] as int,
                length as int,
                f as int,
                0x0100_0000,
            );
        }
        proof {
            let a = params.res[0] as int;
            let b = params.res[1] as int;
            let c = params.res[2] as int;
            assert(vs[0] <= 0x2000_0000 && vs[1] <= 0x2000_0000 && vs[2] <= 0x2000_0000)
                by (nonlinear_arith)
                requires
                    1 <= a && 1 <= b && 1 <= c,
                    0 < vs[0] && 0 < vs[1] && 0 < vs[2],
                    a * vs[0] <= 0x2000_0000,
                    b * vs[1] <= 0x2000_0000,
                    c * vs[2] <= 0x2000_0000,
            ;
            assert(f as int <= f as int * vs[0] && f as int <= f as int * vs[1] && f as int <= f
                as int * vs[2] && f as int * vs[0] <= 0x2000_0000_0000_0000 && f as int * vs[1]
                <= 0x2000_0000_0000_0000 && f as int * vs[2] <= 0x2000_0000_0000_0000)
                by (nonlinear_arith)
                requires
                    0 < vs[0] <= 0x2000_0000 && 0 < vs[1] <= 0x2000_0000 && 0 < vs[2]
                        <= 0x2000_0000,
                    f == 0x1_0000,
            ;
            lemma_div_shrink_walk(direction[0] as int * length as int, f as int * vs[0] as int);
            lemma_div_shrink_walk(direction[1] as int * length as int, f as int * vs[1] as int);
            lemma_div_shrink_walk(direction[2] as int * length as int, f as int * vs[2] as int);
        }
        let dx = crate::geometry::floor_div(direction[0] * length, f * vs[0]);
        let dy = crate::geometry::floor_div(direction[1] * length, f * vs[1]);
        let dz = crate::geometry::floor_div(direction[2] * length, f * vs[2]);
        let ex = initial_site[0] as i64 + dx;
        let ey = initial_site[1] as i64 + dy;
        let ez = initial_site[2] as i64 + dz;
        if ex < 0 || ey < 0 || ez < 0 || ex >= params.res[0] as i64 || ey >= params.res[1] as i64
            || ez >= params.res[2] as i64 {
            return Err(Vec::new());
        }
        let end: [usize; 3] = [ex as usize, ey as usize, ez as usize];
        proof {
            let a = params.res[0] as int;
            let b = params.res[1] as int;
            let c = params.res[2] as int;
            assert(0 <= initial_site[0] * vs[0] <= a * vs[0] && 0 <= initial_site[1] * vs[1] <= b
                * vs[1] && 0 <= initial_site[2] * vs[2] <= c * vs[2] && 0 <= ex * vs[0] <= a
                * vs[0] && 0 <= ey * vs[1] <= b * vs[1] && 0 <= ez * vs[2] <= c * vs[2])
                by (nonlinear_arith)
                requires
                    0 <= initial_site[0] < a && 0 <= initial_site[1] < b && 0 <= initial_site[2]
                        < c,
                    0 <= ex < a && 0 <= ey < b && 0 <= ez < c,
                    0 < vs[0] && 0 < vs[1] && 0 < vs[2],
            ;
        }
        let p0f: [i64; 3] = [
            (initial_site[0] as i64) * vs[0],
            (initial_site[1] as i64) * vs[1],
            (initial_site[2] as i64) * vs[2],
        ];
        let pff: [i64; 3] = [(ex) * vs[0], (ey) * vs[1], (ez) * vs[2]];
        let ghost sh = Shape::Cylinder { p0: p0f, pf: pff, radius };
        let mut added: Vec<u32> = Vec::new();
        let nv = self.occupancy.len();
        let r1 = params.res[1] as usize;
        let r2 = params.res[2] as usize;
        proof {
            let a = params.res[0] as int;
            let b = params.res[1] as int;
            let c = params.res[2] as int;
            assert(0 < b * c <= a * b * c) by (nonlinear_arith)
                requires
                    0 < a && 0 < b && 0 < c,
            ;
        }
        let r12 = r1 * r2;
        let mut u: usize = 0;
        while u < nv
            invariant
                u <= nv,
                pre == *old(self),
                pre.wf(),
                self.wf(),
                params.wf(),
                regions.wf(),
                self.res == params.res,
                regions.res == params.res,
                nv as int == pre.n_voxels(),
                nv as int == self.n_voxels(),
                r1 == params.res[1] && r2 == params.res[2] && r12 == r1 * r2,
                0 < r1 && 0 < r2 && 0 < r12,
                vs == params.voxel_size,
                sh == (Shape::Cylinder { p0: p0f, pf: pff, radius }),
                block_geometry_ok(initial_site, end, params.voxel_size, p0f, pff),
                forall|d: int|
                    0 <= d < 3 ==> (#[trigger] end[d]) as int == initial_site[d]
                        + walk_displacement(direction[d], length, params.voxel_size[d]),
                self.particle_names == pre.particle_names,
                self.logging_particles == pre.logging_particles,
                self.reservoir == pre.reservoir,
                self.lock_cells == pre.lock_cells,
                self.res == pre.res,
                1 <= particle && (particle as int) < self.width(),
                forall|v: int|
                    0 <= v < self.n_voxels() ==> (#[trigger] self.reservoir@[v]) != particle,
                forall|n: int|
                    0 <= n < added@.len() ==> (#[trigger] added@[n] as int) < u,
                forall|n: int, m: int|
                    0 <= n < m < added@.len() ==> #[trigger] added@[n] < #[trigger] added@[m],
                forall|n: int|
                    0 <= n < added@.len() ==> crate::regions::covers_lin(
                        sh,
                        *params,
                        (#[trigger] added@[n]) as int,
                    ) && regions.regions@[added@[n] as int] == regions.spec_label(
                        crate::regions::lin_index(
                            params.res,
                            initial_site[0] as int,
                            initial_site[1] as int,
                            initial_site[2] as int,
                        ),
                    ),
                forall|n: int|
                    0 <= n < added@.len() ==> #[trigger] self.conc_at(
                        added@[n] as int,
                        particle as int,
                    ) == pre.conc_at(added@[n] as int, particle as int) + 1,
                forall|n: int|
                    0 <= n < added@.len() ==> #[trigger] self.occ(added@[n] as int) == pre.occ(
                        added@[n] as int,
                    ) + 1,
                forall|v: int|
                    0 <= v < nv && (forall|n: int|
                        0 <= n < added@.len() ==> (#[trigger] added@[n] as int) != v)
                        ==> #[trigger] self.conc_at(v, particle as int) == pre.conc_at(
                        v,
                        particle as int,
                    ),
                forall|v: int|
                    0 <= v < nv && (forall|n: int|
                        0 <= n < added@.len() ==> (#[trigger] added@[n] as int) != v)
                        ==> #[trigger] self.occ(v) == pre.occ(v),
                forall|t: int|
                    0 <= t < u && #[trigger] crate::regions::covers_lin(sh, *params, t)
                        ==> added@.contains(t as u32),
                -crate::params::COORD_BOUND <= p0f[0] <= crate::params::COORD_BOUND,
                -crate::params::COORD_BOUND <= p0f[1] <= crate::params::COORD_BOUND,
                -crate::params::COORD_BOUND <= p0f[2] <= crate::params::COORD_BOUND,
                -crate::params::COORD_BOUND <= pff[0] <= crate::params::COORD_BOUND,
                -crate::params::COORD_BOUND <= pff[1] <= crate::params::COORD_BOUND,
                -crate::params::COORD_BOUND <= pff[2] <= crate::params::COORD_BOUND,
                0 <= radius <= crate::params::COORD_BOUND,
                initial_region == regions.spec_label(
                    crate::regions::lin_index(
                        params.res,
                        initial_site[0] as int,
                        initial_site[1] as int,
                        initial_site[2] as int,
                    ),
                ),
                end[0] < params.res[0] && end[1] < params.res[1] && end[2] < params.res[2],
            decreases nv - u,
        {
            proof {
                crate::regions::lemma_linear_site(params.res, u as int);
            }
            let i = u / r12;
            let j = (u / r2) % r1;
            let k = u % r2;
            proof {
                let a = params.res[0] as int;
                let b = params.res[1] as int;
                let c = params.res[2] as int;
                assert(0 <= i * vs[0] <= a * vs[0] && 0 <= j * vs[1] <= b * vs[1] && 0 <= k * vs[2]
                    <= c * vs[2]) by (nonlinear_arith)
                    requires
                        0 <= i < a,
                        0 <= j < b,
                        0 <= k < c,
                        0 < vs[0] && 0 < vs[1] && 0 < vs[2],
                ;
            }
            let pos: [i64; 3] = [(i as i64) * vs[0], (j as i64) * vs[1], (k as i64) * vs[2]];
            let covered = crate::geometry::cylinder_contains(&p0f, &pff, radius, &pos);
            proof {
                assert(covered == crate::regions::covers_lin(sh, *params, u as int));
            }
            if covered {
                if regions.get_value_position([i, j, k]) != initial_region {
                proof {
                    assert(block_partial(pre, *self, added@, particle));
                }
                    return Err(added);
                }
                let ghost before = *self;
                let res_add = self.add_particle_idx(u, particle);
                match res_add {
                    Ok(()) => {
                        let ghost prev_added = added@;
                        added.push(u as u32);
                        proof {
                            let w = self.width();
                            assert(before.voxel_wf(u as int));
                            lemma_count_label_bounds(before.token_row(u as int), particle);
                            assert(before.conc_at(u as int, particle as int) == count_label(
                                before.token_row(u as int),
                                particle,
                            ));
                            assert(0 <= u * w + particle < nv * w) by (nonlinear_arith)
                                requires
                                    0 <= u < nv,
                                    0 <= particle < w,
                            ;
                            assert forall|n: int| 0 <= n < added@.len() implies #[trigger] self.conc_at(
                                added@[n] as int,
                                particle as int,
                            ) == pre.conc_at(added@[n] as int, particle as int) + 1 by {
                                let idx = added@[n] as int;
                                if n < added@.len() - 1 {
                                    assert(added@[n] == prev_added[n]);
                                    assert(idx < u);
                                    assert(0 <= idx * w + particle < nv * w) by (nonlinear_arith)
                                        requires
                                            0 <= idx < nv,
                                            0 <= particle < w,
                                    ;
                                    lemma_conc_update_other(
                                        before.concentrations@,
                                        w,
                                        u as int,
                                        idx,
                                        particle as int,
                                        (before.conc_at(u as int, particle as int) + 1) as i32,
                                    );
                                    assert(before.conc_at(idx, particle as int) == pre.conc_at(
                                        idx,
                                        particle as int,
                                    ) + 1);
                                } else {
                                    assert(idx == u as int);
                                    assert(self.conc_at(idx, particle as int) == before.conc_at(
                                        idx,
                                        particle as int,
                                    ) + 1);
                                    assert(before.conc_at(idx, particle as int) == pre.conc_at(
                                        idx,
                                        particle as int,
                                    ));
                                }
                            }
                            assert forall|n: int| 0 <= n < added@.len() implies #[trigger] self.occ(
                                added@[n] as int,
                            ) == pre.occ(added@[n] as int) + 1 by {
                                let idx = added@[n] as int;
                                if n < added@.len() - 1 {
                                    assert(added@[n] == prev_added[n]);
                                    assert(idx != u as int);
                                    assert(self.occupancy@[idx] == before.occupancy@[idx]);
                                    assert(before.occ(idx) == pre.occ(idx) + 1);
                                } else {
                                    assert(idx == u as int);
                                    assert(self.occ(idx) == before.occ(idx) + 1);
                                    assert(before.occ(idx) == pre.occ(idx));
                                }
                            }
                            assert forall|v2: int|
                                0 <= v2 < nv && (forall|n: int|
                                    0 <= n < added@.len() ==> (#[trigger] added@[n] as int) != v2) implies
                                #[trigger] self.conc_at(v2, particle as int) == pre.conc_at(
                                    v2,
                                    particle as int,
                                ) by {
                                assert((added@[added@.len() - 1] as int) != v2);
                                assert(v2 != u as int);
                                assert(0 <= v2 * w + particle < nv * w) by (nonlinear_arith)
                                    requires
                                        0 <= v2 < nv,
                                        0 <= particle < w,
                                ;
                                lemma_conc_update_other(
                                    before.concentrations@,
                                    w,
                                    u as int,
                                    v2,
                                    particle as int,
                                    (before.conc_at(u as int, particle as int) + 1) as i32,
                                );
                                assert forall|n: int|
                                    0 <= n < prev_added.len() implies (#[trigger] prev_added[n]
                                    as int) != v2 by {
                                    assert(prev_added[n] == added@[n]);
                                }
                                assert(before.conc_at(v2, particle as int) == pre.conc_at(
                                    v2,
                                    particle as int,
                                ));
                            }
                            assert forall|v2: int|
                                0 <= v2 < nv && (forall|n: int|
                                    0 <= n < added@.len() ==> (#[trigger] added@[n] as int) != v2) implies
                                #[trigger] self.occ(v2) == pre.occ(v2) by {
                                assert((added@[added@.len() - 1] as int) != v2);
                                assert(v2 != u as int);
                                assert(self.occupancy@[v2] == before.occupancy@[v2]);
                                assert(before.occ(v2) == pre.occ(v2)) by {
                                    assert forall|n: int|
                                        0 <= n < prev_added.len() implies (#[trigger] prev_added[n]
                                        as int) != v2 by {
                                        assert(prev_added[n] == added@[n]);
                                    }
                                }
                            }
                            assert forall|t: int|
                                0 <= t < u + 1 && #[trigger] crate::regions::covers_lin(
                                    sh,
                                    *params,
                                    t,
                                ) implies added@.contains(t as u32) by {
                                if t < u {
                                    assert(prev_added.contains(t as u32));
                                    let n = choose|n: int|
                                        0 <= n < prev_added.len() && prev_added[n] == t as u32;
                                    assert(added@[n] == t as u32);
                                } else {
                                    assert(added@[added@.len() - 1] == u as u32);
                                }
                            }
                        }
                    },
                    Err(_) => {
                        proof {
                            assert(block_partial(pre, *self, added@, particle));
                        }
                        return Err(added);
                    },
                }
            }
            u = u + 1;
        }
        proof {
            assert(block_geometry_ok(initial_site, end, params.voxel_size, p0f, pff));
            assert forall|t: int|
                0 <= t < nv && #[trigger] crate::regions::covers_lin(sh, *params, t) implies
                self.conc_at(t, particle as int) == pre.conc_at(t, particle as int) + 1
                    && self.occ(t) == pre.occ(t) + 1 && regions.regions@[t] == regions.spec_label(
                crate::regions::lin_index(
                    params.res,
                    initial_site[0] as int,
                    initial_site[1] as int,
                    initial_site[2] as int,
                ),
            ) by {
                assert(added@.contains(t as u32));
                let n = choose|n: int| 0 <= n < added@.len() && added@[n] == t as u32;
                assert((added@[n] as int) == t);
            }
            assert forall|t: int|
                0 <= t < nv && !crate::regions::covers_lin(sh, *params, t) implies
                #[trigger] self.conc_at(t, particle as int) == pre.conc_at(t, particle as int)
                    && self.occ(t) == pre.occ(t) by {
                assert forall|n: int| 0 <= n < added@.len() implies (#[trigger] added@[n] as int)
                    != t by {
                    assert(crate::regions::covers_lin(sh, *params, added@[n] as int));
                }
            }
            assert(block_seeded(
                pre,
                *self,
                *params,
                *regions,
                initial_site,
                end,
                added@,
                radius,
                particle,
            ));
            assert(block_partial(pre, *self, added@, particle));
        }
        Ok((end, added))
    }
}

/// Quotient magnitude for the walk's displacement conversions.
proof fn lemma_div_shrink_walk(a: int, b: int)
    requires
        0x1_0000 <= b <= 0x2000_0000_0000_0000,
        -0x1_0000_0000_0000 <= a <= 0x1_0000_0000_0000,
    ensures
        -0x1_0000_0001 <= a / b <= 0x1_0000_0000,
{
    vstd::arithmetic::div_mod::lemma_fundamental_div_mod(a, b);
    vstd::arithmetic::div_mod::lemma_mod_division_less_than_divisor(a, b);
    let q = a / b;
    let r = a % b;
    assert(-0x1_0000_0001 <= q <= 0x1_0000_0000) by (nonlinear_arith)
        requires
            a == b * q + r,
            0 <= r < b,
            0x1_0000 <= b,
            -0x1_0000_0000_0000 <= a <= 0x1_0000_0000_0000,
    ;
}


impl Lattice {
    /// Seed a random-walk worm: cylinder blocks of the given length and
    /// radius, each along a fresh random direction from the previous
    /// block's end.  A block that leaves the region or hits a full voxel
    /// is rolled back together with up to twenty-five trailing blocks, and
    /// the walk retries; when the boundary-aware start cannot be placed or
    /// the attempt budget runs out, the walk fails with `CannotFit`.
    pub fn init_random_walk_particles(
        &mut self,
        particle: u32,
        total_length: i64,
        block_length: i64,
        radius: i64,
        region_idx: usize,
        regions: &crate::regions::Regions,
        params: &crate::params::LatticeParams,
    ) -> (r: Result<(), SimError>)
        requires
            old(self).wf(),
            params.wf(),
            regions.wf(),
            old(self).res == params.res,
            regions.res == params.res,
            (region_idx as int) < regions.types@.len(),
            1 <= particle,
            (particle as int) < old(self).width(),
            forall|v: int|
                0 <= v < old(self).n_voxels() ==> (#[trigger] old(self).reservoir@[v]) != particle,
            0 < block_length <= 0x0100_0000,
            0 <= total_length <= 0x1000_0000,
            0 <= radius <= crate::params::COORD_BOUND,
        ensures
            final(self).wf(),
            final(self).res == old(self).res,
            final(self).particle_names == old(self).particle_names,
            final(self).logging_particles == old(self).logging_particles,
            final(self).reservoir == old(self).reservoir,
            final(self).lock_cells == old(self).lock_cells,
            r is Err ==> r == Err::<(), SimError>(SimError::CannotFit),
            2 * walk_safety_voxels(block_length, params.voxel_size[0]) >= params.res[0] ==> r
                is Err,
    {
        let vs = params.voxel_size;
        proof {
            let a = params.res[0] as int;
            let b = params.res[1] as int;
            let c = params.res[2] as int;
            assert(vs[0] <= 0x2000_0000 && vs[1] <= 0x2000_0000 && vs[2] <= 0x2000_0000)
                by (nonlinear_arith)
                requires
                    1 <= a && 1 <= b && 1 <= c,
                    0 < vs[0] && 0 < vs[1] && 0 < vs[2],
                    a * vs[0] <= 0x2000_0000,
                    b * vs[1] <= 0x2000_0000,
                    c * vs[2] <= 0x2000_0000,
            ;
            crate::simulation::lemma_div_magnitude(
                block_length as int * 10,
                vs[0] as int,
                0x0A00_0000,
            );
            crate::simulation::lemma_div_magnitude(
                block_length as int * 10,
                vs[1] as int,
                0x0A00_0000,
            );
            crate::simulation::lemma_div_magnitude(
                block_length as int * 10,
                vs[2] as int,
                0x0A00_0000,
            );
            vstd::arithmetic::div_mod::lemma_div_pos_is_pos(block_length as int * 10, vs[0] as int);
            vstd::arithmetic::div_mod::lemma_div_pos_is_pos(block_length as int * 10, vs[1] as int);
            vstd::arithmetic::div_mod::lemma_div_pos_is_pos(block_length as int * 10, vs[2] as int);
        }
        let mut safety_radius_voxels: Vec<usize> = Vec::new();
        safety_radius_voxels.push(crate::geometry::floor_div(block_length * 10, vs[0]) as usize);
        safety_radius_voxels.push(crate::geometry::floor_div(block_length * 10, vs[1]) as usize);
        safety_radius_voxels.push(crate::geometry::floor_div(block_length * 10, vs[2]) as usize);
        let start = match regions.generate_boundary_aware(region_idx, &safety_radius_voxels) {
            Ok(p) => p,
            Err(_) => {
                return Err(SimError::CannotFit);
            },
        };
        let mut site = start;
        let mut queue_sites: Vec<[usize; 3]> = Vec::new();
        queue_sites.push(start);
        let mut queue_particles: Vec<Vec<u32>> = Vec::new();
        let mut curr_length: i64 = 0;
        let mut attempts: u32 = 0;
        while curr_length < total_length
            invariant
                self.wf(),
                params.wf(),
                regions.wf(),
                self.res == params.res,
                regions.res == params.res,
                self.res == old(self).res,
                self.particle_names == old(self).particle_names,
                self.logging_particles == old(self).logging_particles,
                self.reservoir == old(self).reservoir,
                self.lock_cells == old(self).lock_cells,
                self.n_voxels() == old(self).n_voxels(),
                1 <= particle && (particle as int) < self.width(),
                forall|v: int|
                    0 <= v < self.n_voxels() ==> (#[trigger] self.reservoir@[v]) != particle,
                0 < block_length <= 0x0100_0000,
                0 <= total_length <= 0x1000_0000,
                0 <= radius <= crate::params::COORD_BOUND,
                -0x2000_0000_0000 <= curr_length <= 0x1100_0000,
                attempts <= 10000,
                site[0] < params.res[0] && site[1] < params.res[1] && site[2] < params.res[2],
                queue_sites@.len() == queue_particles@.len() + 1,
                queue_sites@.len() >= 1,
                forall|n: int|
                    0 <= n < queue_sites@.len() ==> (#[trigger] queue_sites@[n])[0]
                        < params.res[0] && queue_sites@[n][1] < params.res[1]
                        && queue_sites@[n][2] < params.res[2],
                forall|n: int, m: int|
                    0 <= n < queue_particles@.len() && 0 <= m < queue_particles@[n]@.len() ==> (
                    #[trigger] queue_particles@[n]@[m] as int) < self.n_voxels(),
            decreases 10000 - attempts,
        {
            if attempts >= 10000 {
                return Err(SimError::CannotFit);
            }
            attempts = attempts + 1;
            let direction = crate::rng::random_direction();
            let block = self.add_particles_cylinder(
                params,
                regions,
                site,
                direction,
                block_length,
                radius,
                particle,
            );
            match block {
                Ok((end, added)) => {
                    curr_length = curr_length + block_length;
                    site = end;
                    queue_sites.push(end);
                    queue_particles.push(added);
                    if queue_sites.len() > 26 {
                        queue_sites.remove(0);
                        queue_particles.remove(0);
                    }
                },
                Err(added) => {
                    self.remove_walk_tokens(&added, particle);
                    let mut steps: usize = 0;
                    while steps < 25 && queue_particles.len() > 0
                        invariant
                            steps <= 25,
                            self.wf(),
                            self.res == params.res,
                            self.res == old(self).res,
                            self.particle_names == old(self).particle_names,
                            self.logging_particles == old(self).logging_particles,
                            self.reservoir == old(self).reservoir,
                            self.lock_cells == old(self).lock_cells,
                            self.n_voxels() == old(self).n_voxels(),
                            1 <= particle && (particle as int) < self.width(),
                            forall|v: int|
                                0 <= v < self.n_voxels() ==> (#[trigger] self.reservoir@[v])
                                    != particle,
                            0 < block_length <= 0x0100_0000,
                            -0x2000_0000_0000 <= curr_length <= 0x1100_0000,
                            queue_sites@.len() == queue_particles@.len() + 1,
                            queue_sites@.len() >= 1,
                            forall|n: int|
                                0 <= n < queue_sites@.len() ==> (#[trigger] queue_sites@[n])[0]
                                    < params.res[0] && queue_sites@[n][1] < params.res[1]
                                    && queue_sites@[n][2] < params.res[2],
                            forall|n: int, m: int|
                                0 <= n < queue_particles@.len() && 0 <= m
                                    < queue_particles@[n]@.len() ==> (
                                #[trigger] queue_particles@[n]@[m] as int) < self.n_voxels(),
                        decreases 25 - steps,
                    {
                        let lst = match queue_particles.pop() {
                            Some(l) => l,
                            None => {
                                proof {
                                    assert(false);
                                }
                                return Err(SimError::CannotFit);
                            },
                        };
                        let _ = queue_sites.pop();
                        self.remove_walk_tokens(&lst, particle);
                        if curr_length > -0x1000_0000_0000 {
                            curr_length = curr_length - block_length;
                        }
                        steps = steps + 1;
                    }
                    site = queue_sites[queue_sites.len() - 1];
                },
            }
        }
        Ok(())
    }
}

} // verus!
