use rand::rngs::StdRng;
use rand::seq::SliceRandom;
use rand::Rng;
use vstd::prelude::*;

verus! {

#[verifier::external_type_specification]
#[verifier::external_body]
pub struct ExStdRng(StdRng);

/// Relies on rand's `Rng::random_range` over an inclusive range: the drawn
/// value lies between the two bounds (it panics on an empty range, which
/// `lo <= hi` rules out).
#[verifier::external_body]
pub(crate) fn draw_inclusive(rng: &mut StdRng, lo: u64, hi: u64) -> (r: u64)
    requires
        lo <= hi,
    ensures
        lo <= r <= hi,
{
    rng.random_range(lo..=hi)
}

/// Relies on rand's `SliceRandom::shuffle`: the slice is put in a random
/// order, so it holds the same elements as before.
#[verifier::external_body]
pub(crate) fn shuffle_cells(cells: &mut Vec<usize>, rng: &mut StdRng)
    ensures
        final(cells)@.to_multiset() == old(cells)@.to_multiset(),
        final(cells)@.len() == old(cells)@.len(),
{
    cells.shuffle(rng)
}

} // verus!
