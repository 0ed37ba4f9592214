use vstd::prelude::*;
use rand::Rng;

verus! {

/// Relies on rand::Rng::gen_range on a half-open usize range (via
/// rand::thread_rng): the sample lies in [lo, hi). The range must be
/// non-empty, or the call panics.
#[verifier::external_body]
pub(crate) fn rand_range(lo: usize, hi: usize) -> (r: usize)
    requires
        lo < hi,
    ensures
        lo <= r < hi,
{
    rand::thread_rng().gen_range(lo..hi)
}

/// Relies on rand::Rng::gen_ratio (via rand::thread_rng): a biased coin flip
/// that is true with probability numer/denom. Either outcome may come back,
/// so nothing is promised of the result. The call panics when denom is zero
/// or numer exceeds denom.
#[verifier::external_body]
pub(crate) fn rand_ratio(numer: u32, denom: u32) -> bool
    requires
        0 < denom,
        numer <= denom,
{
    rand::thread_rng().gen_ratio(numer, denom)
}

} // verus!
