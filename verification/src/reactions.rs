//! Sparse reactant–product encoding: stoichiometry rows, the packed
//! reactant-index table, and the reaction counters.
use vstd::prelude::*;

use crate::regions::{count_label, lemma_count_label_push};

verus! {

/// Species and reaction counters shared with the kernels.
#[derive(Clone, Copy, PartialEq, Eq, Structural, Debug)]
pub struct Params {
    pub num_species: u32,
    pub num_reactions: u32,
}

/// Host-side wrapper for the reaction counters.
pub struct ReactionParams {
    pub raw_params: Params,
}

impl ReactionParams {
    pub fn new(num_species: u32, num_reactions: u32) -> (p: ReactionParams)
        ensures
            p.raw_params.num_species == num_species,
            p.raw_params.num_reactions == num_reactions,
    {
        ReactionParams { raw_params: Params { num_species, num_reactions } }
    }
}

/// Net change of species `s` when the reaction fires: its count among the
/// products minus its count among the reactants.
pub open spec fn stoich_delta(reactants: Seq<u32>, products: Seq<u32>, s: int) -> int {
    count_label(products, s as u32) - count_label(reactants, s as u32)
}

/// One stoichiometry row of the given width: entry `s` is the net change
/// of species `s`.
pub fn stoichiometry_row(width: usize, reactants: &Vec<u32>, products: &Vec<u32>) -> (row: Vec<
    i32,
>)
    requires
        reactants@.len() <= 3,
        products@.len() < 0x1000_0000,
    ensures
        row@.len() == width,
        forall|s: int|
            0 <= s < width ==> (#[trigger] row@[s]) as int == stoich_delta(
                reactants@,
                products@,
                s,
            ),
{
    let mut row: Vec<i32> = Vec::new();
    let mut s: usize = 0;
    while s < width
        invariant
            s <= width,
            reactants@.len() <= 3,
            products@.len() < 0x1000_0000,
            row@.len() == s,
            forall|t: int|
                0 <= t < s ==> (#[trigger] row@[t]) as int == stoich_delta(
                    reactants@,
                    products@,
                    t,
                ),
        decreases width - s,
    {
        let d = species_count(products, s as u32);
        let r = species_count(reactants, s as u32);
        proof {
            crate::regions::lemma_count_label_bounds(products@, s as u32);
            crate::regions::lemma_count_label_bounds(reactants@, s as u32);
        }
        row.push(d - r);
        s = s + 1;
    }
    row
}

/// How many entries of the list equal `s`.
fn species_count(ids: &Vec<u32>, s: u32) -> (c: i32)
    requires
        ids@.len() < 0x1000_0000,
    ensures
        c as int == count_label(ids@, s),
{
    let mut c: i32 = 0;
    let mut m: usize = 0;
    let len = ids.len();
    while m < len
        invariant
            m <= len,
            len == ids@.len(),
            len < 0x1000_0000,
            c as int == count_label(ids@.take(m as int), s),
            0 <= c <= m,
        decreases len - m,
    {
        proof {
            assert(ids@.take(m as int + 1) =~= ids@.take(m as int).push(ids@[m as int]));
            lemma_count_label_push(ids@.take(m as int), s, ids@[m as int]);
        }
        if ids[m] == s {
            c = c + 1;
        }
        m = m + 1;
    }
    proof {
        assert(ids@.take(len as int) =~= ids@);
    }
    c
}

/// The packed reactant-index row: width three, left-padded with zeros when
/// the reaction has fewer than three reactants.
pub fn reactant_index_row(reactants: &Vec<u32>) -> (row: [u32; 3])
    requires
        reactants@.len() <= 3,
    ensures
        forall|i: int|
            0 <= i < 3 ==> (#[trigger] row[i]) == (if i < 3 - reactants@.len() {
                0u32
            } else {
                reactants@[i - (3 - reactants@.len())]
            }),
{
    let n = reactants.len();
    if n == 0 {
        [0, 0, 0]
    } else if n == 1 {
        [0, 0, reactants[0]]
    } else if n == 2 {
        [0, reactants[0], reactants[1]]
    } else {
        [reactants[0], reactants[1], reactants[2]]
    }
}

} // verus!
