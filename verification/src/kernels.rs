//! Host-side models of the per-voxel kernel transitions: a diffusion hop
//! between face neighbours and a reaction application with the normative
//! slot reconciliation.  The random choices — which token attempts which
//! move, which reaction fires — are taken by the callers; every outcome
//! preserves the lattice invariants, and a hop conserves every species'
//! total population.
use vstd::prelude::*;

use crate::lattice::{total_species, Lattice};
use crate::regions::count_label;
use crate::SITE_CAPACITY;

verus! {

impl Lattice {
    /// One attempted hop of a token of `particle` from voxel `from` to
    /// voxel `to`: it commits exactly when the destination has a free
    /// slot, and either way no species' total population changes.
    pub fn rdme_hop(&mut self, from: usize, to: usize, particle: u32) -> (moved: bool)
        requires
            old(self).wf(),
            (from as int) < old(self).n_voxels(),
            (to as int) < old(self).n_voxels(),
            from != to,
            1 <= particle,
            (particle as int) < old(self).width(),
            count_label(old(self).token_row(from as int), particle) >= 1,
            old(self).reservoir@[from as int] != particle,
            old(self).reservoir@[to as int] != particle,
        ensures
            final(self).wf(),
            final(self).res == old(self).res,
            final(self).particle_names == old(self).particle_names,
            final(self).logging_particles == old(self).logging_particles,
            final(self).reservoir == old(self).reservoir,
            final(self).lock_cells == old(self).lock_cells,
            forall|t: int|
                0 <= t < old(self).width() ==> #[trigger] total_species(
                    final(self).concentrations@,
                    old(self).width(),
                    old(self).n_voxels(),
                    t,
                ) == total_species(
                    old(self).concentrations@,
                    old(self).width(),
                    old(self).n_voxels(),
                    t,
                ),
            moved <==> old(self).occ(to as int) < SITE_CAPACITY,
            !moved ==> *final(self) == *old(self),
            moved ==> {
                &&& final(self).occ(from as int) == old(self).occ(from as int) - 1
                &&& final(self).occ(to as int) == old(self).occ(to as int) + 1
                &&& final(self).conc_at(from as int, particle as int) == old(self).conc_at(
                    from as int,
                    particle as int,
                ) - 1
                &&& final(self).conc_at(to as int, particle as int) == old(self).conc_at(
                    to as int,
                    particle as int,
                ) + 1
            },
    {
        let ghost pre = *self;
        let ghost w = pre.width();
        let ghost nv = pre.n_voxels();
        if self.occupancy[to] == SITE_CAPACITY {
            proof {
                assert(pre.voxel_wf(to as int));
            }
            return false;
        }
        let removed = self.remove_particle_idx(from, particle);
        proof {
            assert(removed);
        }
        let ghost mid = *self;
        let r = self.add_particle_idx(to, particle);
        proof {
            assert(mid.occ(to as int) == pre.occ(to as int));
            assert(r is Ok);
            assert(0 <= from * w + particle < nv * w && 0 <= to * w + particle < nv * w)
                by (nonlinear_arith)
                requires
                    0 <= from < nv,
                    0 <= to < nv,
                    0 <= particle < w,
            ;
            assert(pre.voxel_wf(from as int));
            crate::lattice::lemma_total_species_update(
                pre.concentrations@,
                w,
                nv,
                from as int,
                particle as int,
                (pre.conc_at(from as int, particle as int) - 1) as i32,
            );
            crate::regions::lemma_count_label_bounds(pre.token_row(from as int), particle);
            assert(mid.voxel_wf(to as int));
            crate::regions::lemma_count_label_bounds(mid.token_row(to as int), particle);
            crate::lattice::lemma_total_species_update(
                mid.concentrations@,
                w,
                nv,
                to as int,
                particle as int,
                (mid.conc_at(to as int, particle as int) + 1) as i32,
            );
            assert forall|t: int| 0 <= t < w implies #[trigger] total_species(
                self.concentrations@,
                w,
                nv,
                t,
            ) == total_species(pre.concentrations@, w, nv, t) by {
                assert(total_species(mid.concentrations@, w, nv, t) == total_species(
                    pre.concentrations@,
                    w,
                    nv,
                    t,
                ) - (if t == particle {
                    1int
                } else {
                    0int
                }));
                assert(total_species(self.concentrations@, w, nv, t) == total_species(
                    mid.concentrations@,
                    w,
                    nv,
                    t,
                ) + (if t == particle {
                    1int
                } else {
                    0int
                }));
            }
            assert(self.conc_at(to as int, particle as int) == mid.conc_at(
                to as int,
                particle as int,
            ) + 1);
            assert(mid.conc_at(to as int, particle as int) == pre.conc_at(
                to as int,
                particle as int,
            )) by {
                assert(mid.concentrations@[to * w + particle] == pre.concentrations@[to * w
                    + particle]) by {
                    if to * w + particle == from * w + particle {
                        crate::lattice::lemma_flat_index_unique(
                            to as int,
                            particle as int,
                            from as int,
                            particle as int,
                            w,
                        );
                    }
                }
            }
            assert(self.conc_at(from as int, particle as int) == mid.conc_at(
                from as int,
                particle as int,
            )) by {
                assert(self.concentrations@[from * w + particle] == mid.concentrations@[from * w
                    + particle]) by {
                    if to * w + particle == from * w + particle {
                        crate::lattice::lemma_flat_index_unique(
                            to as int,
                            particle as int,
                            from as int,
                            particle as int,
                            w,
                        );
                    }
                }
            }
        }
        true
    }
}


/// Net token change of a stoichiometry row over the species `1 .. k`.
pub open spec fn row_delta_sum(row: Seq<i32>, k: int) -> int
    decreases k,
{
    if k <= 1 {
        0
    } else {
        row_delta_sum(row, k - 1) + row[k - 1]
    }
}

impl Lattice {
    /// Apply one reaction's stoichiometry row to voxel `v` and rebuild its
    /// slots densely in species order (the normative reconciliation).
    ///
    /// A reservoir voxel refuses every reaction: its token multiset is
    /// pinned (I5), which this model takes at its word.  The alternative
    /// reading — propensities treating the reservoir species as
    /// inexhaustible while the reaction still fires — contradicts that
    /// pinning at the reservoir voxel itself; a reservoir feeds reactions
    /// in the rest of its region through diffusion, not in place.  The
    /// reaction applies exactly when the voxel is no reservoir, no species
    /// count would drop below zero, and the voxel's new population still
    /// fits its slots; otherwise the lattice is untouched.
    #[verifier::rlimit(100)]
    pub fn cme_apply(&mut self, v: usize, row: &Vec<i32>) -> (applied: bool)
        requires
            old(self).wf(),
            (v as int) < old(self).n_voxels(),
            row@.len() == old(self).width(),
            row@[0] == 0,
            forall|s: int|
                0 <= s < row@.len() ==> -(SITE_CAPACITY as int) <= (#[trigger] row@[s] as int)
                    <= SITE_CAPACITY,
        ensures
            final(self).wf(),
            final(self).res == old(self).res,
            final(self).particle_names == old(self).particle_names,
            final(self).logging_particles == old(self).logging_particles,
            final(self).reservoir == old(self).reservoir,
            final(self).lock_cells == old(self).lock_cells,
            applied <==> (old(self).reservoir@[v as int] == 0 && (forall|s: int|
                1 <= s < old(self).width() ==> old(self).conc_at(v as int, s) + (
                #[trigger] row@[s] as int) >= 0) && old(self).occ(v as int) + row_delta_sum(
                row@,
                old(self).width(),
            ) <= SITE_CAPACITY),
            !applied ==> *final(self) == *old(self),
            applied ==> {
                &&& forall|s: int|
                    1 <= s < old(self).width() ==> #[trigger] final(self).conc_at(v as int, s)
                        == old(self).conc_at(v as int, s) + row@[s]
                &&& final(self).occ(v as int) == old(self).occ(v as int) + row_delta_sum(
                    row@,
                    old(self).width(),
                )
                &&& forall|i: int, j: int|
                    0 <= i < j < final(self).occ(v as int) ==> #[trigger] final(self).token_row(
                        v as int,
                    )[i] <= #[trigger] final(self).token_row(v as int)[j]
                &&& forall|u: int|
                    0 <= u < old(self).n_voxels() && u != v ==> #[trigger] final(self).occ(u)
                        == old(self).occ(u)
            },
    {
        let ghost pre = *self;
        let cap = SITE_CAPACITY as usize;
        let w = self.particle_names.len();
        let nv_ghost: Ghost<int> = Ghost(self.n_voxels());
        proof {
            assert(0 <= v * cap && v * cap + cap <= nv_ghost@ * cap && v * w + w <= nv_ghost@ * w
                && 0 <= v * w) by (nonlinear_arith)
                requires
                    0 <= v < nv_ghost@,
                    0 < cap,
                    0 < w,
            ;
            assert(nv_ghost@ * (cap as int) == pre.lattice@.len());
            assert(nv_ghost@ * (w as int) == pre.concentrations@.len());
            assert(pre.voxel_wf(v as int));
        }
        if self.reservoir[v] != 0 {
            return false;
        }
        let base_c = v * w;
        let mut total: i64 = 0;
        let mut nonneg = true;
        let mut s: usize = 1;
        proof {
            assert(crate::lattice::voxel_histogram_sum(pre.concentrations@, base_c as int, 0)
                == 0);
            assert(crate::lattice::voxel_histogram_sum(pre.concentrations@, base_c as int, 1)
                == pre.conc_at(v as int, 0));
            assert(pre.conc_at(v as int, 0) == 0);
        }
        while s < w
            invariant
                1 <= s <= w,
                *self == pre,
                pre == *old(self),
                pre.wf(),
                0 <= v < nv_ghost@,
                nv_ghost@ == pre.n_voxels(),
                w == pre.width(),
                cap == SITE_CAPACITY,
                base_c == v * w,
                base_c + w <= pre.concentrations@.len(),
                row@.len() == w,
                pre.reservoir@[v as int] == 0,
                forall|t: int|
                    0 <= t < row@.len() ==> -(SITE_CAPACITY as int) <= (#[trigger] row@[t] as int)
                        <= SITE_CAPACITY,
                nonneg == forall|t: int|
                    1 <= t < s ==> pre.conc_at(v as int, t) + (#[trigger] row@[t] as int) >= 0,
                total as int == crate::lattice::voxel_histogram_sum(
                    pre.concentrations@,
                    base_c as int,
                    s as int,
                ) + row_delta_sum(row@, s as int),
                -16 * (s as int) <= total <= 16 * (s as int),
            decreases w - s,
        {
            proof {
                assert(pre.voxel_wf(v as int));
                assert(0 <= pre.conc_at(v as int, s as int) <= 8) by {
                    crate::regions::lemma_count_label_bounds(pre.token_row(v as int), s as u32);
                }
                assert(w <= 0x0100_0000);
            }
            let c = self.concentrations[base_c + s];
            let d = row[s];
            if (c as i64) + (d as i64) < 0 {
                nonneg = false;
            }
            total = total + (c as i64) + (d as i64);
            s = s + 1;
        }
        proof {
            crate::lattice::lemma_histogram_sums_to_occupancy(pre, v as int);
        }
        let applied = nonneg && total <= (SITE_CAPACITY as i64);
        if !applied {
            return false;
        }
        let mut s2: usize = 1;
        while s2 < w
            invariant
                1 <= s2 <= w,
                pre == *old(self),
                pre.wf(),
                0 <= v < nv_ghost@,
                nv_ghost@ == pre.n_voxels(),
                w == pre.width(),
                cap == SITE_CAPACITY,
                base_c == v * w,
                base_c + w <= pre.concentrations@.len(),
                row@.len() == w,
                pre.reservoir@[v as int] == 0,
                forall|t: int|
                    0 <= t < row@.len() ==> -(SITE_CAPACITY as int) <= (#[trigger] row@[t] as int)
                        <= SITE_CAPACITY,
                forall|t: int|
                    1 <= t < w ==> pre.conc_at(v as int, t) + (#[trigger] row@[t] as int) >= 0,
                self.lattice == pre.lattice,
                self.occupancy == pre.occupancy,
                self.reservoir == pre.reservoir,
                self.lock_cells == pre.lock_cells,
                self.particle_names == pre.particle_names,
                self.logging_particles == pre.logging_particles,
                self.res == pre.res,
                self.concentrations@.len() == pre.concentrations@.len(),
                forall|idx: int|
                    0 <= idx < pre.concentrations@.len() && !(base_c + 1 <= idx < base_c + s2)
                        ==> #[trigger] self.concentrations@[idx] == pre.concentrations@[idx],
                forall|t: int|
                    1 <= t < s2 ==> (#[trigger] self.concentrations@[base_c + t]) as int
                        == pre.conc_at(v as int, t) + row@[t],
            decreases w - s2,
        {
            proof {
                assert(pre.voxel_wf(v as int));
                assert(0 <= pre.conc_at(v as int, s2 as int) <= 8) by {
                    crate::regions::lemma_count_label_bounds(pre.token_row(v as int), s2 as u32);
                }
                assert(self.concentrations@[base_c + s2] == pre.concentrations@[base_c + s2]);
            }
            let c = self.concentrations[base_c + s2];
            let d = row[s2];
            self.concentrations[base_c + s2] = c + d;
            s2 = s2 + 1;
        }
        let base = v * cap;
        let mut t: usize = 0;
        while t < cap
            invariant
                t <= cap,
                pre == *old(self),
                pre.wf(),
                0 <= v < nv_ghost@,
                nv_ghost@ == pre.n_voxels(),
                w == pre.width(),
                cap == SITE_CAPACITY,
                base == v * cap,
                base_c == v * w,
                base + cap <= pre.lattice@.len(),
                base_c + w <= pre.concentrations@.len(),
                self.lattice@.len() == pre.lattice@.len(),
                self.occupancy == pre.occupancy,
                self.reservoir == pre.reservoir,
                self.lock_cells == pre.lock_cells,
                self.particle_names == pre.particle_names,
                self.logging_particles == pre.logging_particles,
                self.res == pre.res,
                self.concentrations@.len() == pre.concentrations@.len(),
                row@.len() == w,
                pre.reservoir@[v as int] == 0,
                forall|i2: int|
                    0 <= i2 < row@.len() ==> -(SITE_CAPACITY as int) <= (#[trigger] row@[i2] as int)
                        <= SITE_CAPACITY,
                forall|i2: int|
                    1 <= i2 < w ==> pre.conc_at(v as int, i2) + (#[trigger] row@[i2] as int) >= 0,
                forall|idx: int|
                    0 <= idx < pre.concentrations@.len() && !(base_c + 1 <= idx < base_c + w)
                        ==> #[trigger] self.concentrations@[idx] == pre.concentrations@[idx],
                forall|i2: int|
                    1 <= i2 < w ==> (#[trigger] self.concentrations@[base_c + i2]) as int
                        == pre.conc_at(v as int, i2) + row@[i2],
                forall|idx: int|
                    0 <= idx < pre.lattice@.len() && !(base <= idx < base + cap)
                        ==> #[trigger] self.lattice@[idx] == pre.lattice@[idx],
                forall|j: int| base <= j < base + t ==> (#[trigger] self.lattice@[j]) == 0u32,
            decreases cap - t,
        {
            self.lattice[base + t] = 0;
            t = t + 1;
        }
        let ghost total_new = pre.occ(v as int) + row_delta_sum(row@, w as int);
        let mut p: usize = 0;
        let mut sp: usize = 1;
        proof {
            assert(crate::lattice::voxel_histogram_sum(self.concentrations@, base_c as int, 0)
                == 0);
            assert(crate::lattice::voxel_histogram_sum(self.concentrations@, base_c as int, 1)
                == self.concentrations@[base_c + 0]);
            assert(self.concentrations@[base_c + 0] == pre.concentrations@[base_c + 0]);
            assert(pre.conc_at(v as int, 0) == 0);
        }
        while sp < w
            invariant
                1 <= sp <= w,
                p <= cap,
                pre == *old(self),
                pre.wf(),
                0 <= v < nv_ghost@,
                nv_ghost@ == pre.n_voxels(),
                w == pre.width(),
                cap == SITE_CAPACITY,
                base == v * cap,
                base_c == v * w,
                base + cap <= pre.lattice@.len(),
                base_c + w <= pre.concentrations@.len(),
                self.lattice@.len() == pre.lattice@.len(),
                self.occupancy == pre.occupancy,
                self.reservoir == pre.reservoir,
                self.lock_cells == pre.lock_cells,
                self.particle_names == pre.particle_names,
                self.logging_particles == pre.logging_particles,
                self.res == pre.res,
                self.concentrations@.len() == pre.concentrations@.len(),
                row@.len() == w,
                pre.reservoir@[v as int] == 0,
                total_new == pre.occ(v as int) + row_delta_sum(row@, w as int),
                total_new <= SITE_CAPACITY,
                forall|i2: int|
                    0 <= i2 < row@.len() ==> -(SITE_CAPACITY as int) <= (#[trigger] row@[i2] as int)
                        <= SITE_CAPACITY,
                forall|i2: int|
                    1 <= i2 < w ==> pre.conc_at(v as int, i2) + (#[trigger] row@[i2] as int) >= 0,
                forall|idx: int|
                    0 <= idx < pre.concentrations@.len() && !(base_c + 1 <= idx < base_c + w)
                        ==> #[trigger] self.concentrations@[idx] == pre.concentrations@[idx],
                forall|i2: int|
                    1 <= i2 < w ==> (#[trigger] self.concentrations@[base_c + i2]) as int
                        == pre.conc_at(v as int, i2) + row@[i2],
                forall|idx: int|
                    0 <= idx < pre.lattice@.len() && !(base <= idx < base + cap)
                        ==> #[trigger] self.lattice@[idx] == pre.lattice@[idx],
                p as int == crate::lattice::voxel_histogram_sum(
                    self.concentrations@,
                    base_c as int,
                    sp as int,
                ),
                forall|j: int|
                    0 <= j < p ==> 1 <= (#[trigger] self.lattice@[base + j]) < sp,
                forall|j: int| p <= j < cap ==> (#[trigger] self.lattice@[base + j]) == 0u32,
                forall|i2: int, j: int|
                    0 <= i2 < j < p ==> (#[trigger] self.lattice@[base + i2])
                        <= (#[trigger] self.lattice@[base + j]),
                forall|t2: int|
                    1 <= t2 < sp ==> count_label(
                        self.lattice@.subrange(base as int, base + p),
                        t2 as u32,
                    ) == (#[trigger] self.concentrations@[base_c + t2]) as int,
                forall|t2: int|
                    sp <= t2 < w ==> #[trigger] count_label(
                        self.lattice@.subrange(base as int, base + p),
                        t2 as u32,
                    ) == 0,
            decreases w - sp,
        {
            proof {
                assert(pre.voxel_wf(v as int));
                assert(0 <= pre.conc_at(v as int, sp as int) <= 8) by {
                    crate::regions::lemma_count_label_bounds(pre.token_row(v as int), sp as u32);
                }
                lemma_partial_sums_bounded(pre, v as int, self.concentrations@, row@, sp as int);
                lemma_partial_sums_bounded(
                    pre,
                    v as int,
                    self.concentrations@,
                    row@,
                    sp as int + 1,
                );
                lemma_partial_sums_full(pre, v as int, self.concentrations@, row@);
                assert(crate::lattice::voxel_histogram_sum(
                    self.concentrations@,
                    base_c as int,
                    sp as int + 1,
                ) == crate::lattice::voxel_histogram_sum(
                    self.concentrations@,
                    base_c as int,
                    sp as int,
                ) + self.concentrations@[base_c + sp]);
                lemma_partial_monotone(
                    pre,
                    v as int,
                    self.concentrations@,
                    row@,
                    sp as int + 1,
                    w as int,
                );
            }
            let c = self.concentrations[base_c + sp] as usize;
            let mut k: usize = 0;
            let ghost p0 = p as int;
            while k < c
                invariant
                    k <= c,
                    0 <= p0,
                    p as int == p0 + k,
                    p <= cap,
                    1 <= sp < w,
                    pre == *old(self),
                    pre.wf(),
                    0 <= v < nv_ghost@,
                    nv_ghost@ == pre.n_voxels(),
                    w == pre.width(),
                    cap == SITE_CAPACITY,
                    base == v * cap,
                    base_c == v * w,
                    base + cap <= pre.lattice@.len(),
                    base_c + w <= pre.concentrations@.len(),
                    self.lattice@.len() == pre.lattice@.len(),
                    self.occupancy == pre.occupancy,
                    self.reservoir == pre.reservoir,
                    self.lock_cells == pre.lock_cells,
                    self.particle_names == pre.particle_names,
                    self.logging_particles == pre.logging_particles,
                    self.res == pre.res,
                    self.concentrations@.len() == pre.concentrations@.len(),
                    row@.len() == w,
                    c as int == self.concentrations@[base_c + sp],
                    p0 as int == crate::lattice::voxel_histogram_sum(
                        self.concentrations@,
                        base_c as int,
                        sp as int,
                    ),
                    total_new == pre.occ(v as int) + row_delta_sum(row@, w as int),
                    total_new <= SITE_CAPACITY,
                    p0 + c <= cap,
                    forall|idx: int|
                        0 <= idx < pre.concentrations@.len() && !(base_c + 1 <= idx < base_c + w)
                            ==> #[trigger] self.concentrations@[idx] == pre.concentrations@[idx],
                    forall|i2: int|
                        1 <= i2 < w ==> (#[trigger] self.concentrations@[base_c + i2]) as int
                            == pre.conc_at(v as int, i2) + row@[i2],
                    forall|idx: int|
                        0 <= idx < pre.lattice@.len() && !(base <= idx < base + cap)
                            ==> #[trigger] self.lattice@[idx] == pre.lattice@[idx],
                    forall|j: int|
                        0 <= j < p0 ==> 1 <= (#[trigger] self.lattice@[base + j]) < sp,
                    forall|j: int|
                        p0 <= j < p ==> (#[trigger] self.lattice@[base + j]) == sp as u32,
                    forall|j: int| p <= j < cap ==> (#[trigger] self.lattice@[base + j]) == 0u32,
                    forall|i2: int, j: int|
                        0 <= i2 < j < p ==> (#[trigger] self.lattice@[base + i2])
                            <= (#[trigger] self.lattice@[base + j]),
                    forall|t2: int|
                        1 <= t2 < sp ==> count_label(
                            self.lattice@.subrange(base as int, base + p),
                            t2 as u32,
                        ) == (#[trigger] self.concentrations@[base_c + t2]) as int,
                    count_label(self.lattice@.subrange(base as int, base + p), sp as u32) == k
                        as int,
                    forall|t2: int|
                        sp < t2 < w ==> #[trigger] count_label(
                            self.lattice@.subrange(base as int, base + p),
                            t2 as u32,
                        ) == 0,
                decreases c - k,
            {
                let ghost old_prefix = self.lattice@.subrange(base as int, base + p);
                let ghost lat_before = self.lattice@;
                self.lattice[base + p] = sp as u32;
                proof {
                    assert(self.lattice@ == lat_before.update(base + p as int, sp as u32));
                    assert(self.lattice@[base + p as int] == sp as u32);
                    assert forall|j: int| p0 <= j < p implies (#[trigger] self.lattice@[base + j])
                        == sp as u32 by {
                        assert(base + j != base + p);
                        assert(lat_before.len() == pre.lattice@.len());
                        assert(0 <= base + j < lat_before.len());
                        assert(0 <= base + p < lat_before.len());
                        assert(lat_before.update(base + p as int, sp as u32)[base + j]
                            == lat_before[base + j]);
                        assert(lat_before[base + j] == old_prefix[j]);
                    }
                    let new_prefix = self.lattice@.subrange(base as int, base + p + 1);
                    assert(new_prefix =~= old_prefix.push(sp as u32));
                    assert forall|t2: int| 0 <= t2 < w implies #[trigger] count_label(
                        new_prefix,
                        t2 as u32,
                    ) == count_label(old_prefix, t2 as u32) + (if t2 == sp {
                        1int
                    } else {
                        0int
                    }) by {
                        crate::regions::lemma_count_label_push(old_prefix, t2 as u32, sp as u32);
                    }
                }
                p = p + 1;
                k = k + 1;
            }
            proof {
                assert(crate::lattice::voxel_histogram_sum(
                    self.concentrations@,
                    base_c as int,
                    sp as int + 1,
                ) == crate::lattice::voxel_histogram_sum(
                    self.concentrations@,
                    base_c as int,
                    sp as int,
                ) + self.concentrations@[base_c + sp]);
            }
            sp = sp + 1;
        }
        self.occupancy[v] = p as u32;
        proof {
            let capi = cap as int;
            let wi = w as int;
            let vi = v as int;
            let post = *self;
            lemma_partial_sums_full(pre, vi, post.concentrations@, row@);
            assert(post.occ(vi) == p as int);
            assert(p as int == total_new);
            assert(post.token_row(vi) =~= post.lattice@.subrange(base as int, base + p));
            assert forall|s3: int| 1 <= s3 < wi implies #[trigger] post.conc_at(vi, s3) == (
            if post.reservoir@[vi] == s3 {
                1int
            } else {
                count_label(post.token_row(vi), s3 as u32)
            }) by {
                assert(post.concentrations@[base_c + s3] as int == count_label(
                    post.lattice@.subrange(base as int, base + p),
                    s3 as u32,
                ));
            }
            assert(post.conc_at(vi, 0) == 0);
            assert(post.voxel_wf(vi));
            Lattice::lemma_other_voxels_wf(pre, post, vi);
            assert forall|u: int| 0 <= u < nv_ghost@ && u != vi implies #[trigger] post.occ(u)
                == pre.occ(u) by {}
            assert forall|s3: int| 1 <= s3 < wi implies #[trigger] post.conc_at(vi, s3)
                == pre.conc_at(vi, s3) + row@[s3] by {}
            assert forall|i2: int, j: int|
                0 <= i2 < j < post.occ(vi) implies #[trigger] post.token_row(vi)[i2]
                <= #[trigger] post.token_row(vi)[j] by {
                assert(post.token_row(vi)[i2] == post.lattice@[base as int + i2]);
                assert(post.token_row(vi)[j] == post.lattice@[base as int + j]);
            }
        }
        true
    }
}

/// The running per-voxel population while a stoichiometry row is applied
/// stays within the final total.
proof fn lemma_partial_sums_bounded(
    pre: Lattice,
    v: int,
    c_new: Seq<i32>,
    row: Seq<i32>,
    k: int,
)
    requires
        pre.wf(),
        0 <= v < pre.n_voxels(),
        pre.reservoir@[v] == 0,
        row.len() == pre.width(),
        1 <= k <= pre.width(),
        c_new.len() == pre.concentrations@.len(),
        c_new[v * pre.width()] == pre.concentrations@[v * pre.width()],
        forall|i2: int|
            1 <= i2 < pre.width() ==> (#[trigger] c_new[v * pre.width() + i2]) as int == pre.conc_at(
                v,
                i2,
            ) + row[i2],
        forall|i2: int| 1 <= i2 < pre.width() ==> pre.conc_at(v, i2) + (#[trigger] row[i2] as int) >= 0,
    ensures
        0 <= crate::lattice::voxel_histogram_sum(c_new, v * pre.width(), k),
        crate::lattice::voxel_histogram_sum(c_new, v * pre.width(), k)
            <= crate::lattice::voxel_histogram_sum(c_new, v * pre.width(), pre.width()),
        crate::lattice::voxel_histogram_sum(c_new, v * pre.width(), k)
            == crate::lattice::voxel_histogram_sum(pre.concentrations@, v * pre.width(), k)
            + row_delta_sum(row, k),
    decreases pre.width() - k + pre.width(),
{
    lemma_partial_nonneg(pre, v, c_new, row, k);
    lemma_partial_monotone(pre, v, c_new, row, k, pre.width());
    lemma_partial_decompose(pre, v, c_new, row, k);
}

proof fn lemma_partial_nonneg(pre: Lattice, v: int, c_new: Seq<i32>, row: Seq<i32>, k: int)
    requires
        pre.wf(),
        0 <= v < pre.n_voxels(),
        pre.reservoir@[v] == 0,
        row.len() == pre.width(),
        0 <= k <= pre.width(),
        c_new.len() == pre.concentrations@.len(),
        c_new[v * pre.width()] == pre.concentrations@[v * pre.width()],
        forall|i2: int|
            1 <= i2 < pre.width() ==> (#[trigger] c_new[v * pre.width() + i2]) as int == pre.conc_at(
                v,
                i2,
            ) + row[i2],
        forall|i2: int| 1 <= i2 < pre.width() ==> pre.conc_at(v, i2) + (#[trigger] row[i2] as int) >= 0,
    ensures
        0 <= crate::lattice::voxel_histogram_sum(c_new, v * pre.width(), k),
    decreases k,
{
    if k > 0 {
        lemma_partial_nonneg(pre, v, c_new, row, k - 1);
        if k - 1 == 0 {
            assert(pre.voxel_wf(v));
            assert(pre.conc_at(v, 0) == 0);
        }
    }
}

proof fn lemma_partial_monotone(pre: Lattice, v: int, c_new: Seq<i32>, row: Seq<i32>, k: int, m: int)
    requires
        pre.wf(),
        0 <= v < pre.n_voxels(),
        pre.reservoir@[v] == 0,
        row.len() == pre.width(),
        0 <= k <= m <= pre.width(),
        c_new.len() == pre.concentrations@.len(),
        c_new[v * pre.width()] == pre.concentrations@[v * pre.width()],
        forall|i2: int|
            1 <= i2 < pre.width() ==> (#[trigger] c_new[v * pre.width() + i2]) as int == pre.conc_at(
                v,
                i2,
            ) + row[i2],
        forall|i2: int| 1 <= i2 < pre.width() ==> pre.conc_at(v, i2) + (#[trigger] row[i2] as int) >= 0,
    ensures
        crate::lattice::voxel_histogram_sum(c_new, v * pre.width(), k)
            <= crate::lattice::voxel_histogram_sum(c_new, v * pre.width(), m),
    decreases m,
{
    if m > k {
        lemma_partial_monotone(pre, v, c_new, row, k, m - 1);
        if m - 1 == 0 {
            assert(pre.voxel_wf(v));
        }
    }
}

proof fn lemma_partial_decompose(pre: Lattice, v: int, c_new: Seq<i32>, row: Seq<i32>, k: int)
    requires
        pre.wf(),
        0 <= v < pre.n_voxels(),
        row.len() == pre.width(),
        0 <= k <= pre.width(),
        c_new.len() == pre.concentrations@.len(),
        c_new[v * pre.width()] == pre.concentrations@[v * pre.width()],
        forall|i2: int|
            1 <= i2 < pre.width() ==> (#[trigger] c_new[v * pre.width() + i2]) as int == pre.conc_at(
                v,
                i2,
            ) + row[i2],
    ensures
        crate::lattice::voxel_histogram_sum(c_new, v * pre.width(), k)
            == crate::lattice::voxel_histogram_sum(pre.concentrations@, v * pre.width(), k)
            + row_delta_sum(row, k),
    decreases k,
{
    if k > 0 {
        lemma_partial_decompose(pre, v, c_new, row, k - 1);
    }
}

/// After the rewrite, the voxel's full histogram sums to the old occupancy
/// plus the row's net change.
proof fn lemma_partial_sums_full(pre: Lattice, v: int, c_new: Seq<i32>, row: Seq<i32>)
    requires
        pre.wf(),
        0 <= v < pre.n_voxels(),
        pre.reservoir@[v] == 0,
        row.len() == pre.width(),
        c_new.len() == pre.concentrations@.len(),
        c_new[v * pre.width()] == pre.concentrations@[v * pre.width()],
        forall|i2: int|
            1 <= i2 < pre.width() ==> (#[trigger] c_new[v * pre.width() + i2]) as int == pre.conc_at(
                v,
                i2,
            ) + row[i2],
    ensures
        crate::lattice::voxel_histogram_sum(c_new, v * pre.width(), pre.width()) == pre.occ(v)
            + row_delta_sum(row, pre.width()),
{
    lemma_partial_decompose(pre, v, c_new, row, pre.width());
    crate::lattice::lemma_histogram_sums_to_occupancy(pre, v);
}


/// An all-zero stoichiometry row nets no token change: with an empty
/// reaction set and zero diffusion, every kernel outcome is idle — the
/// hop that does not commit and the reaction row that moves nothing leave
/// every per-voxel population exactly where it was.
pub proof fn lemma_zero_row_moves_nothing(row: Seq<i32>, k: int)
    requires
        forall|s: int| 0 <= s < row.len() ==> (#[trigger] row[s]) == 0i32,
        0 <= k <= row.len(),
    ensures
        row_delta_sum(row, k) == 0,
    decreases k,
{
    if k > 1 {
        lemma_zero_row_moves_nothing(row, k - 1);
    }
}

} // verus!
