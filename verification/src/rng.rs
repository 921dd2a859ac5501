//! Trusted randomness, backed by the `rand` crate. A draw depends on the
//! thread's generator, so nothing is assumed of it beyond range membership.

use vstd::prelude::*;

verus! {

/// Relies on rand's `Rng::gen_range` over an `i64` range: the sampled value
/// lies in `lo..hi` (the call panics on an empty range, which the
/// precondition rules out).
#[verifier::external_body]
pub(crate) fn rand_in_range(lo: i64, hi: i64) -> (r: i64)
    requires
        lo < hi,
    ensures
        lo <= r < hi,
{
    rand::Rng::gen_range(&mut rand::thread_rng(), lo..hi)
}

/// Relies on rand's `Rng::gen_range` over a `usize` range: the sampled value
/// is a valid index below `n` (the call panics on an empty range, which the
/// precondition rules out).
#[verifier::external_body]
pub(crate) fn rand_index(n: usize) -> (r: usize)
    requires
        n >= 1,
    ensures
        r < n,
{
    rand::Rng::gen_range(&mut rand::thread_rng(), 0..n)
}

} // verus!
