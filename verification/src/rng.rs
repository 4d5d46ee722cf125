use vstd::prelude::*;

verus! {

/// Relies on rand::random_range over `0..n`: a value drawn uniformly from
/// `[0, n)` by the thread-local generator. The range must be non-empty, as
/// the call panics otherwise.
#[verifier::external_body]
pub(crate) fn random_below(n: u64) -> (r: u64)
    requires
        n > 0,
    ensures
        r < n,
{
    rand::random_range(0..n)
}

} // verus!
