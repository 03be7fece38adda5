//! Shuffling, which is left to `rand`, and what a shuffle keeps.

use vstd::prelude::*;
use vstd::seq_lib::{to_multiset_contains, to_multiset_len};
use rand::seq::SliceRandom;

verus! {

/// The generator of random numbers that `rand` keeps for each thread. Nothing
/// is known of a value of this type but that it can be handed on.
#[verifier::external_type_specification]
#[verifier::external_body]
pub struct ExThreadRng(rand::rngs::ThreadRng);

/// `rand::rng` hands out the calling thread's generator. Nothing is claimed of
/// it. (It stops the program where the operating system gives it no seed.)
pub assume_specification[ rand::rng ]() -> (rng: rand::rngs::ThreadRng)
;

/// `SliceRandom::shuffle` on the items of a vector: it only ever swaps two
/// items, so that afterwards the vector holds what it held before, each item
/// as often as before, in an order that is not known.
#[verifier::external_body]
pub(crate) fn shuffle<T>(items: &mut Vec<T>, rng: &mut rand::rngs::ThreadRng)
    ensures
        final(items)@.to_multiset() == old(items)@.to_multiset(),
{
    items.shuffle(rng);
}

/// Two sequences with the same elements, each as often as in the other, have
/// the same length and the same members, and if one has no duplicates then
/// neither has the other.
pub proof fn lemma_same_items<T>(a: Seq<T>, b: Seq<T>)
    requires
        a.to_multiset() == b.to_multiset(),
    ensures
        a.len() == b.len(),
        forall|x: T| a.contains(x) <==> b.contains(x),
        a.no_duplicates() <==> b.no_duplicates(),
{
    to_multiset_len(a);
    to_multiset_len(b);
    assert forall|x: T| a.contains(x) <==> b.contains(x) by {
        to_multiset_contains(a, x);
        to_multiset_contains(b, x);
    }
    if a.no_duplicates() {
        a.lemma_multiset_has_no_duplicates();
        b.lemma_multiset_has_no_duplicates_conv();
    }
    if b.no_duplicates() {
        b.lemma_multiset_has_no_duplicates();
        a.lemma_multiset_has_no_duplicates_conv();
    }
}

} // verus!
