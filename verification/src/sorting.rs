//! Sorting borrowed keys into canonical order.

use crate::order::{
    ascending, canonical_order, lawful_order, lemma_ascending_distinct_is_strict, precedes,
};
use itertools::Itertools;
use vstd::prelude::*;

verus! {

/// Calls `itertools::Itertools::sorted` on the items of a vector and collects
/// what it yields.
///
/// Trusted, not verified. By its source the method gathers the items, sorts
/// them with the standard library's stable sort and yields them again. The
/// contract claims of it that the result holds the same items, each as often
/// as before, and that no item is followed by one that comes strictly before
/// it. That the sort is stable is left out: under a lawful order items that
/// compare equal are the same item. A lawful order is required because the
/// standard sort may panic on an order that is not total.
#[verifier::external_body]
fn sorted<T: Ord>(items: Vec<T>) -> (out: Vec<T>)
    requires
        lawful_order::<T>(),
    ensures
        out@.to_multiset() == items@.to_multiset(),
        ascending(out@),
{
    items.into_iter().sorted().collect()
}

/// Arranges distinct borrowed keys in canonical order.
pub(crate) fn canonical_sort<'a, K: Ord>(keys: Vec<&'a K>) -> (out: Vec<&'a K>)
    requires
        lawful_order::<K>(),
        keys@.unref().no_duplicates(),
    ensures
        canonical_order(out@.unref(), keys@.unref().to_set()),
{
    let out = sorted(keys);
    proof {
        let before = keys@.unref();
        let after = out@.unref();
        keys@.to_multiset_ensures();
        out@.to_multiset_ensures();
        assert forall|i: int, j: int|
            0 <= i < keys@.len() && 0 <= j < keys@.len() && i != j implies keys@[i]
            != keys@[j] by {
            assert(before[i] != before[j]);
        }
        keys@.lemma_multiset_has_no_duplicates();
        out@.lemma_multiset_has_no_duplicates_conv();
        assert forall|i: int, j: int|
            0 <= i < after.len() && 0 <= j < after.len() && i != j implies after[i]
            != after[j] by {
            assert(out@[i] != out@[j]);
        }
        assert forall|i: int, j: int| 0 <= i < j < after.len() implies !precedes(
            #[trigger] after[j],
            #[trigger] after[i],
        ) by {
            assert(!precedes(out@[j], out@[i]));
        }
        lemma_ascending_distinct_is_strict(after);
        assert forall|k: K| #[trigger] after.contains(k) <==> before.to_set().contains(k) by {
            if after.contains(k) {
                let i = choose|i: int| 0 <= i < after.len() && after[i] == k;
                assert(out@.contains(out@[i]));
                assert(keys@.to_multiset().count(out@[i]) > 0);
                let j = choose|j: int| 0 <= j < keys@.len() && keys@[j] == out@[i];
                assert(before[j] == k);
            }
            if before.contains(k) {
                let j = choose|j: int| 0 <= j < before.len() && before[j] == k;
                assert(keys@.contains(keys@[j]));
                assert(out@.to_multiset().count(keys@[j]) > 0);
                let i = choose|i: int| 0 <= i < out@.len() && out@[i] == keys@[j];
                assert(after[i] == k);
            }
        }
    }
    out
}

} // verus!
