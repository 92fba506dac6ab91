//! The randomness source consumed by board generation.

use vstd::prelude::*;

verus! {

/// Relies on rand::random_range over `0..n`: it panics only on an empty
/// range and returns a value drawn from the range. Nothing more is
/// assumed of a random draw.
#[verifier::external_body]
pub(crate) fn random_below(n: usize) -> (r: usize)
    requires
        n > 0,
    ensures
        r < n,
{
    rand::random_range(0..n)
}

} // verus!
