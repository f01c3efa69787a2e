//! The diffusion tensor: per (from-region, to-region, species) hop rates.
//!
//! The host never computes with a rate; each entry is carried as the bit
//! pattern of the rate it was given, and the tensor's shape follows the
//! region and species counts.
use vstd::prelude::*;

verus! {

/// Bit pattern of the default intra-region diffusion rate a fresh
/// simulation starts with.
pub const DEFAULT_DIFFUSION_RATE_BITS: u32 = 0x2874_b212;

/// Rates indexed `[from-region][to-region][species]`, each entry the bit
/// pattern of the rate.
pub struct DiffusionTensor {
    pub rates: Vec<Vec<Vec<u32>>>,
}

impl DiffusionTensor {
    /// The tensor has shape `n_regions * n_regions * width`.
    pub open spec fn wf(self, n_regions: int, width: int) -> bool {
        &&& self.rates@.len() == n_regions
        &&& forall|a: int| 0 <= a < n_regions ==> (#[trigger] self.rates@[a]@.len()) == n_regions
        &&& forall|a: int, b: int|
            0 <= a < n_regions && 0 <= b < n_regions ==> (#[trigger] self.rates@[a]@[b]@.len())
                == width
    }

    /// One entry.
    pub open spec fn at(self, a: int, b: int, s: int) -> u32 {
        self.rates@[a]@[b]@[s]
    }

    /// A fresh tensor: one region, one species slot, the default rate.
    pub fn new(default_bits: u32) -> (t: DiffusionTensor)
        ensures
            t.wf(1, 1),
            t.at(0, 0, 0) == default_bits,
    {
        let mut inner: Vec<u32> = Vec::new();
        inner.push(default_bits);
        let mut mid: Vec<Vec<u32>> = Vec::new();
        mid.push(inner);
        let mut rates: Vec<Vec<Vec<u32>>> = Vec::new();
        rates.push(mid);
        DiffusionTensor { rates }
    }

    /// One more region: existing pairs keep their rates, every pair that
    /// names the new region gets the default transition rate, and the new
    /// region's intra-region rate is `diffusion_bits` for every species.
    pub fn add_region(&mut self, width: usize, diffusion_bits: u32, transition_bits: u32)
        requires
            old(self).wf(old(self).rates@.len() as int, width as int),
            old(self).rates@.len() < 0x1000_0000,
        ensures
            final(self).wf(old(self).rates@.len() as int + 1, width as int),
            forall|a: int, b: int, s: int|
                0 <= a < old(self).rates@.len() && 0 <= b < old(self).rates@.len() && 0 <= s < width
                    ==> #[trigger] final(self).at(a, b, s) == old(self).at(a, b, s),
            forall|b: int, s: int|
                0 <= b < old(self).rates@.len() && 0 <= s < width ==> #[trigger] final(self).at(
                    old(self).rates@.len() as int,
                    b,
                    s,
                ) == transition_bits,
            forall|a: int, s: int|
                0 <= a < old(self).rates@.len() && 0 <= s < width ==> #[trigger] final(self).at(
                    a,
                    old(self).rates@.len() as int,
                    s,
                ) == transition_bits,
            forall|s: int|
                0 <= s < width ==> #[trigger] final(self).at(
                    old(self).rates@.len() as int,
                    old(self).rates@.len() as int,
                    s,
                ) == diffusion_bits,
    {
        let n = self.rates.len();
        let mut a: usize = 0;
        while a < n
            invariant
                a <= n,
                n == old(self).rates@.len(),
                old(self).wf(n as int, width as int),
                self.rates@.len() == n,
                forall|t: int|
                    0 <= t < a ==> (#[trigger] self.rates@[t]@.len()) == n + 1,
                forall|t: int|
                    a <= t < n ==> (#[trigger] self.rates@[t]) == old(self).rates@[t],
                forall|t: int, b: int|
                    0 <= t < a && 0 <= b < n ==> (#[trigger] self.rates@[t]@[b]) == old(
                        self,
                    ).rates@[t]@[b],
                forall|t: int|
                    0 <= t < a ==> (#[trigger] self.rates@[t]@[n as int]@.len()) == width,
                forall|t: int, s: int|
                    0 <= t < a && 0 <= s < width ==> (#[trigger] self.rates@[t]@[n as int]@[s])
                        == transition_bits,
            decreases n - a,
        {
            let column = filled(width, transition_bits);
            let row = &mut self.rates[a];
            row.push(column);
            a = a + 1;
        }
        let mut new_row: Vec<Vec<u32>> = Vec::new();
        let mut b: usize = 0;
        while b < n
            invariant
                b <= n,
                new_row@.len() == b,
                forall|t: int|
                    0 <= t < b ==> (#[trigger] new_row@[t]@.len()) == width,
                forall|t: int, s: int|
                    0 <= t < b && 0 <= s < width ==> (#[trigger] new_row@[t]@[s])
                        == transition_bits,
            decreases n - b,
        {
            new_row.push(filled(width, transition_bits));
            b = b + 1;
        }
        new_row.push(filled(width, diffusion_bits));
        self.rates.push(new_row);
        proof {
            let ni = n as int;
            assert forall|a2: int, b2: int, s: int|
                0 <= a2 < ni && 0 <= b2 < ni && 0 <= s < width implies #[trigger] self.at(a2, b2, s)
                == old(self).at(a2, b2, s) by {
                assert(self.rates@[a2]@[b2] == old(self).rates@[a2]@[b2]);
            }
            assert forall|b2: int, s: int| 0 <= b2 < ni && 0 <= s < width implies #[trigger] self.at(
                ni,
                b2,
                s,
            ) == transition_bits by {
                assert(self.rates@[ni] == new_row);
                assert(new_row@[b2]@[s] == transition_bits);
            }
            assert forall|a2: int, s: int| 0 <= a2 < ni && 0 <= s < width implies #[trigger] self.at(
                a2,
                ni,
                s,
            ) == transition_bits by {
                assert(self.rates@[a2]@[ni]@[s] == transition_bits);
            }
            assert forall|s: int| 0 <= s < width implies #[trigger] self.at(ni, ni, s)
                == diffusion_bits by {
                assert(self.rates@[ni] == new_row);
            }
            assert forall|a2: int| 0 <= a2 < ni + 1 implies (#[trigger] self.rates@[a2]@.len()) == ni
                + 1 by {}
            assert forall|a2: int, b2: int|
                0 <= a2 < ni + 1 && 0 <= b2 < ni + 1 implies (#[trigger] self.rates@[a2]@[b2]@.len())
                == width by {}
        }
    }

    /// One more species slot: every region pair's new entry copies its
    /// last one.
    pub fn add_species(&mut self, width: usize)
        requires
            old(self).wf(old(self).rates@.len() as int, width as int),
            width >= 1,
            old(self).rates@.len() < 0x1000_0000,
            width < 0x1000_0000,
        ensures
            final(self).wf(old(self).rates@.len() as int, width as int + 1),
            forall|a: int, b: int, s: int|
                0 <= a < old(self).rates@.len() && 0 <= b < old(self).rates@.len() && 0 <= s < width
                    ==> #[trigger] final(self).at(a, b, s) == old(self).at(a, b, s),
            forall|a: int, b: int|
                0 <= a < old(self).rates@.len() && 0 <= b < old(self).rates@.len()
                    ==> #[trigger] final(self).at(a, b, width as int) == old(self).at(
                    a,
                    b,
                    width - 1,
                ),
    {
        let n = self.rates.len();
        let mut a: usize = 0;
        while a < n
            invariant
                a <= n,
                width >= 1,
                n == old(self).rates@.len(),
                old(self).wf(n as int, width as int),
                self.rates@.len() == n,
                forall|t: int|
                    a <= t < n ==> (#[trigger] self.rates@[t]) == old(self).rates@[t],
                forall|t: int|
                    0 <= t < a ==> (#[trigger] self.rates@[t]@.len()) == n,
                forall|t: int, u: int|
                    0 <= t < a && 0 <= u < n ==> (#[trigger] self.rates@[t]@[u]@.len()) == width
                        + 1,
                forall|t: int, u: int, s: int|
                    0 <= t < a && 0 <= u < n && 0 <= s < width ==> (
                    #[trigger] self.rates@[t]@[u]@[s]) == old(self).rates@[t]@[u]@[s],
                forall|t: int, u: int|
                    0 <= t < a && 0 <= u < n ==> (#[trigger] self.rates@[t]@[u]@[width as int])
                        == old(self).rates@[t]@[u]@[width - 1],
            decreases n - a,
        {
            let mut b: usize = 0;
            let ghost row_pre = self.rates@[a as int];
            while b < n
                invariant
                    b <= n,
                    width >= 1,
                    0 <= a < n,
                    n == old(self).rates@.len(),
                    old(self).wf(n as int, width as int),
                    self.rates@.len() == n,
                    row_pre == old(self).rates@[a as int],
                    forall|t: int|
                        a < t < n ==> (#[trigger] self.rates@[t]) == old(self).rates@[t],
                    forall|t: int|
                        0 <= t < a ==> (#[trigger] self.rates@[t]@.len()) == n,
                    forall|t: int, u: int|
                        0 <= t < a && 0 <= u < n ==> (#[trigger] self.rates@[t]@[u]@.len()) == width
                            + 1,
                    forall|t: int, u: int, s: int|
                        0 <= t < a && 0 <= u < n && 0 <= s < width ==> (
                        #[trigger] self.rates@[t]@[u]@[s]) == old(self).rates@[t]@[u]@[s],
                    forall|t: int, u: int|
                        0 <= t < a && 0 <= u < n ==> (#[trigger] self.rates@[t]@[u]@[width as int])
                            == old(self).rates@[t]@[u]@[width - 1],
                    self.rates@[a as int]@.len() == n,
                    forall|u: int|
                        b <= u < n ==> (#[trigger] self.rates@[a as int]@[u]) == old(
                            self,
                        ).rates@[a as int]@[u],
                    forall|u: int|
                        0 <= u < b ==> (#[trigger] self.rates@[a as int]@[u]@.len()) == width + 1,
                    forall|u: int, s: int|
                        0 <= u < b && 0 <= s < width ==> (#[trigger] self.rates@[a as int]@[u]@[s])
                            == old(self).rates@[a as int]@[u]@[s],
                    forall|u: int|
                        0 <= u < b ==> (#[trigger] self.rates@[a as int]@[u]@[width as int]) == old(
                            self,
                        ).rates@[a as int]@[u]@[width - 1],
                decreases n - b,
            {
                let last = self.rates[a][b][width - 1];
                let row = &mut self.rates[a];
                let cell = &mut row[b];
                cell.push(last);
                b = b + 1;
            }
            a = a + 1;
        }
        proof {
            let ni = n as int;
            assert forall|a2: int, b2: int, s: int|
                0 <= a2 < ni && 0 <= b2 < ni && 0 <= s < width implies #[trigger] self.at(a2, b2, s)
                == old(self).at(a2, b2, s) by {}
            assert forall|a2: int, b2: int|
                0 <= a2 < ni && 0 <= b2 < ni implies #[trigger] self.at(a2, b2, width as int)
                == old(self).at(a2, b2, width - 1) by {}
        }
    }

    /// Drop the region `idx` from both region dimensions.
    pub fn remove_region(&mut self, idx: usize, width: usize)
        requires
            old(self).wf(old(self).rates@.len() as int, width as int),
            (idx as int) < old(self).rates@.len(),
            old(self).rates@.len() > 1,
        ensures
            final(self).wf(old(self).rates@.len() as int - 1, width as int),
            forall|a: int, b: int|
                0 <= a < old(self).rates@.len() - 1 && 0 <= b < old(self).rates@.len() - 1
                    ==> (#[trigger] final(self).rates@[a]@[b]) == old(self).rates@[if a < idx {
                    a
                } else {
                    a + 1
                }]@[if b < idx {
                    b
                } else {
                    b + 1
                }],
    {
        self.rates.remove(idx);
        let n = self.rates.len();
        let mut a: usize = 0;
        while a < n
            invariant
                a <= n,
                n == old(self).rates@.len() - 1,
                (idx as int) < old(self).rates@.len(),
                old(self).wf(old(self).rates@.len() as int, width as int),
                self.rates@.len() == n,
                forall|t: int|
                    a <= t < n ==> (#[trigger] self.rates@[t]) == old(self).rates@[if t < idx {
                        t
                    } else {
                        t + 1
                    }],
                forall|t: int, b: int|
                    0 <= t < a && 0 <= b < n ==> (#[trigger] self.rates@[t]@[b]) == old(
                        self,
                    ).rates@[if t < idx {
                        t
                    } else {
                        t + 1
                    }]@[if b < idx {
                        b
                    } else {
                        b + 1
                    }],
                forall|t: int|
                    0 <= t < a ==> (#[trigger] self.rates@[t]@.len()) == n,
            decreases n - a,
        {
            let row = &mut self.rates[a];
            row.remove(idx);
            a = a + 1;
        }
    }

    /// Overwrite one entry.
    pub fn set_rate(&mut self, a: usize, b: usize, s: usize, bits: u32)
        requires
            old(self).wf(old(self).rates@.len() as int, old(self).rates@[0]@[0]@.len() as int),
            (a as int) < old(self).rates@.len(),
            (b as int) < old(self).rates@.len(),
            (s as int) < old(self).rates@[0]@[0]@.len(),
            old(self).rates@.len() > 0,
        ensures
            final(self).wf(old(self).rates@.len() as int, old(self).rates@[0]@[0]@.len() as int),
            final(self).at(a as int, b as int, s as int) == bits,
            forall|x: int, y: int, z: int|
                0 <= x < old(self).rates@.len() && 0 <= y < old(self).rates@.len()
                    && 0 <= z < old(self).rates@[0]@[0]@.len()
                    && !(x == a && y == b && z == s)
                    ==> #[trigger] final(self).at(x, y, z) == old(self).at(x, y, z),
    {
        let row = &mut self.rates[a];
        let cell = &mut row[b];
        cell[s] = bits;
    }
}

/// A vector of `n` copies of `bits`.
fn filled(n: usize, bits: u32) -> (v: Vec<u32>)
    ensures
        v@.len() == n,
        forall|i: int| 0 <= i < n ==> v@[i] == bits,
{
    let mut v: Vec<u32> = Vec::new();
    let mut i: usize = 0;
    while i < n
        invariant
            i <= n,
            v@.len() == i,
            forall|t: int| 0 <= t < i ==> v@[t] == bits,
        decreases n - i,
    {
        v.push(bits);
        i = i + 1;
    }
    v
}

} // verus!
