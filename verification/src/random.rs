//! The one source of chance the library uses.

use vstd::prelude::*;
#[allow(unused_imports)]
use rand::Rng;

verus! {

/// rand `thread_rng().gen_range(0..n)`: a uniformly drawn position below `n`.
/// Claims only that the value lies in `0..n`; which value comes back is chance.
/// `gen_range` panics on an empty range, hence `n > 0`.
#[verifier::external_body]
pub(crate) fn random_below(n: usize) -> (r: usize)
    requires
        n > 0,
    ensures
        r < n,
{
    rand::thread_rng().gen_range(0..n)
}

/// rand `thread_rng().gen_range(lo..hi)` on `i64`: a uniformly drawn integer of
/// `lo..hi`. Claims only that the value lies in that range; which value comes back
/// is chance. `gen_range` panics on an empty range, hence `lo < hi`.
#[verifier::external_body]
pub(crate) fn random_in(lo: i64, hi: i64) -> (r: i64)
    requires
        lo < hi,
    ensures
        lo <= r < hi,
{
    rand::thread_rng().gen_range(lo..hi)
}

} // verus!
