//! What chance decides: the order of an unordered scan, the identifiers of
//! echo requests, and run ids.

use rand::seq::SliceRandom;
use rand::Rng;
use vstd::prelude::*;

verus! {

/// `rand::seq::SliceRandom::shuffle` with the thread's generator: puts the
/// items in a random order by swapping them, so that the same items are there
/// afterwards, each as often as before.
#[verifier::external_body]
pub(crate) fn shuffle<T>(items: &mut Vec<T>)
    ensures
        final(items)@.to_multiset() == old(items)@.to_multiset(),
{
    items.shuffle(&mut rand::thread_rng());
}

/// `rand::Rng::gen` with the thread's generator: a random 16-bit number.
/// Nothing is claimed of the number.
#[verifier::external_body]
pub(crate) fn random_u16() -> (number: u16) {
    rand::thread_rng().gen()
}

/// `uuid::Uuid::new_v4`, written out as text: a fresh random identifier in
/// the hyphenated form, which has 36 characters. Nothing else is claimed of
/// the text.
#[verifier::external_body]
pub(crate) fn fresh_run_id() -> (id: String)
    ensures
        id@.len() == 36,
{
    uuid::Uuid::new_v4().to_string()
}

/// A sequence with the items of `before`, each as often, has as many items
/// and repeats none if `before` repeats none, and holds the same items.
pub proof fn lemma_same_items<T>(before: Seq<T>, after: Seq<T>)
    requires
        before.to_multiset() == after.to_multiset(),
    ensures
        after.len() == before.len(),
        before.no_duplicates() ==> after.no_duplicates(),
        after.to_set() == before.to_set(),
{
    broadcast use vstd::seq_lib::group_to_multiset_ensures;

    before.to_multiset_ensures();
    after.to_multiset_ensures();
    assert(after.to_set() =~= before.to_set()) by {
        assert forall|x: T| after.to_set().contains(x) <==> before.to_set().contains(x) by {
            assert(after.contains(x) <==> after.to_multiset().count(x) > 0);
            assert(before.contains(x) <==> before.to_multiset().count(x) > 0);
        }
    }
    if before.no_duplicates() {
        before.lemma_multiset_has_no_duplicates();
        after.lemma_multiset_has_no_duplicates_conv();
    }
}

} // verus!
