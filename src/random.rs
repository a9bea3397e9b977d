use vstd::prelude::*;

verus! {

/// Relies on `rand::random_range`: a value drawn uniformly from `0..n` with the
/// thread-local generator. It panics on an empty range, hence `n > 0`.
#[verifier::external_body]
pub(crate) fn random_below(n: usize) -> (r: usize)
    requires
        n > 0,
    ensures
        r < n,
{
    rand::random_range(0..n)
}

} // verus!
