//! The one trusted entry point into the `rand` crate, and verified
//! derived draws.
use vstd::prelude::*;

verus! {

/// Relies on `rand::Rng::gen_range` over `0..n` (thread-local generator):
/// returns an index below `n`; nothing is promised about its distribution.
#[verifier::external_body]
fn random_index_raw(n: usize) -> (r: usize)
    requires
        n > 0,
    ensures
        r < n,
{
    rand::Rng::gen_range(&mut rand::thread_rng(), 0..n)
}

/// A drawn index below `n`.
pub fn random_index(n: usize) -> (r: usize)
    requires
        n > 0,
    ensures
        r < n,
{
    random_index_raw(n)
}

/// A drawn value in `lo .. hi`.
pub fn random_in_range(lo: i64, hi: i64) -> (r: i64)
    requires
        lo < hi,
        -0x2000_0000 <= lo,
        hi <= 0x2000_0000,
    ensures
        lo <= r < hi,
{
    let span = (hi - lo) as usize;
    let off = random_index(span);
    lo + (off as i64)
}


/// A drawn direction: fixed-point components in `[-FIXED_ONE, FIXED_ONE]`,
/// not all zero.
pub fn random_direction() -> (d: [i64; 3])
    ensures
        forall|i: int|
            0 <= i < 3 ==> -crate::params::FIXED_ONE <= #[trigger] d[i]
                <= crate::params::FIXED_ONE,
        d[0] != 0 || d[1] != 0 || d[2] != 0,
{
    let f = crate::params::FIXED_ONE;
    let mut tries: u32 = 0;
    while tries < 100
        invariant
            tries <= 100,
            f == crate::params::FIXED_ONE,
        decreases 100 - tries,
    {
        let x = random_in_range(-f, f + 1);
        let y = random_in_range(-f, f + 1);
        let z = random_in_range(-f, f + 1);
        if x != 0 || y != 0 || z != 0 {
            return [x, y, z];
        }
        tries = tries + 1;
    }
    [f, 0, 0]
}

} // verus!
