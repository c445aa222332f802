//! Random choices.

use rand::seq::SliceRandom;
use rand::Rng;
use vstd::prelude::*;

verus! {

/// `rand::Rng::random_range` on the generator of the thread: some number below
/// `n`. Which one is left to chance.
#[verifier::external_body]
pub(crate) fn random_below(n: u64) -> (r: u64)
    requires
        n > 0,
    ensures
        r < n,
{
    rand::rng().random_range(0..n)
}

/// `rand::seq::SliceRandom::shuffle` with the generator of the thread: the same
/// numbers in some order, which is left to chance.
#[verifier::external_body]
pub(crate) fn shuffle(order: &mut Vec<u16>)
    ensures
        final(order)@.to_multiset() == old(order)@.to_multiset(),
{
    order.shuffle(&mut rand::rng())
}

} // verus!
