use vstd::prelude::*;

verus! {

/// The rand crate's deterministic, seedable random generator, held opaque:
/// the engine threads one handle through every stochastic decision of a run.
#[verifier::external_type_specification]
#[verifier::external_body]
pub struct ExStdRng(rand::rngs::StdRng);

/// Relies on rand::RngExt::random_range over `0..n`: the result is uniform
/// in the range, hence below `n`; the call panics on an empty range, which
/// `n >= 1` rules out.
#[verifier::external_body]
pub(crate) fn rand_below(rng: &mut rand::rngs::StdRng, n: usize) -> (r: usize)
    requires
        n >= 1,
    ensures
        r < n,
{
    rand::RngExt::random_range(rng, 0..n)
}

} // verus!
