//! Random draws, taken from the `rand` crate.

use vstd::prelude::*;
use rand::rngs::ThreadRng;
use rand::seq::SliceRandom;
use rand::Rng;
use crate::state::Position;

verus! {

/// `SliceRandom::shuffle` of `rand` on the cells: they are put in a random
/// order by swaps, so the same cells are there afterwards, each as often as
/// before.
#[verifier::external_body]
pub(crate) fn shuffle_cells(cells: &mut Vec<Position>, rng: &mut ThreadRng)
    ensures
        final(cells)@.to_multiset() == old(cells)@.to_multiset(),
{
    cells.shuffle(rng);
}

/// `Rng::gen_range` of `rand` on the numbers from 0 up to `bound`, `bound`
/// left out. The range must not be empty.
#[verifier::external_body]
pub(crate) fn random_below(rng: &mut ThreadRng, bound: usize) -> (n: usize)
    requires
        bound > 0,
    ensures
        n < bound,
{
    rng.gen_range(0..bound)
}

} // verus!
