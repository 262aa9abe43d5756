use vstd::prelude::*;
use rand::Rng;

verus! {

/// Relies on rand's `thread_rng().gen_range(0..n)`: a uniform draw below `n`,
/// which panics only on an empty range.
#[verifier::external_body]
pub(crate) fn random_below(n: usize) -> (r: usize)
    requires
        n > 0,
    ensures
        r < n,
{
    rand::thread_rng().gen_range(0..n)
}

} // verus!
