//! The library's only sources of randomness, wrapped so that callers can be
//! verified against what holds of every possible outcome.

use vstd::prelude::*;
use rand::seq::SliceRandom;
use rand::Rng;

verus! {

/// Relies on `rand::Rng::gen_range` over the thread-local generator: the
/// result is drawn from `[0, bound)`; nothing more is assumed of it.
#[verifier::external_body]
pub(crate) fn rand_below(bound: usize) -> (r: usize)
    requires
        0 < bound,
    ensures
        r < bound,
{
    rand::thread_rng().gen_range(0..bound)
}

/// Relies on `rand::seq::SliceRandom::shuffle`: the elements are permuted in
/// place, so the multiset of elements is unchanged.
#[verifier::external_body]
pub(crate) fn shuffle<T>(items: &mut Vec<T>)
    ensures
        final(items)@.to_multiset() == old(items)@.to_multiset(),
        final(items)@.len() == old(items)@.len(),
        forall|k: int| 0 <= k < final(items)@.len() ==> old(items)@.contains(#[trigger] final(items)@[k]),
{
    items.shuffle(&mut rand::thread_rng());
}

} // verus!
