//! Random choices, drawn by the `rand` crate.

use vstd::prelude::*;

verus! {

/// A number drawn from `0..n`: `Rng::gen_range` on `rand::thread_rng()`.
/// Only the range of the result is stated; `gen_range` panics on an empty
/// range, hence `n > 0`.
#[verifier::external_body]
pub(crate) fn random_below(n: usize) -> (r: usize)
    requires
        n > 0,
    ensures
        r < n,
{
    rand::Rng::gen_range(&mut rand::thread_rng(), 0..n)
}

} // verus!
