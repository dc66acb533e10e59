use vstd::prelude::*;

use rand::Rng;

verus! {

/// Relies on `rand::Rng::gen_range` over `0..end` with the thread-local
/// generator of `rand::thread_rng`: the value lies in the half-open range,
/// and the call panics only on an empty range.
#[verifier::external_body]
pub(crate) fn random_below(end: usize) -> (r: usize)
    requires
        0 < end,
    ensures
        r < end,
{
    rand::thread_rng().gen_range(0..end)
}

} // verus!
