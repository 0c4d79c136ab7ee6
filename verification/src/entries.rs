//! The canonical arrangement of a map's entries, and what follows from it.

use crate::order::{
    canonical_order, lawful_order, lemma_canonical_order_len, lemma_canonical_order_unique,
    lemma_strictly_ascending_distinct,
};
use vstd::prelude::*;

verus! {

/// The keys of a sequence of entries, in the same places.
pub open spec fn keys_of<K, V>(s: Seq<(K, V)>) -> Seq<K> {
    Seq::new(s.len(), |i: int| s[i].0)
}

/// `s` is the canonical arrangement of the map `m`: its keys are the keys of
/// `m` in canonical order, and each stands beside the value `m` gives it.
pub open spec fn canonical_entries<K: Ord, V>(s: Seq<(K, V)>, m: Map<K, V>) -> bool {
    &&& canonical_order(keys_of(s), m.dom())
    &&& forall|i: int| 0 <= i < s.len() ==> (#[trigger] s[i]).1 == m[s[i].0]
}

/// The map a reader builds from entries it meets one after the other.
pub open spec fn collected<K, V>(s: Seq<(K, V)>) -> Map<K, V>
    decreases s.len(),
{
    if s.len() == 0 {
        Map::empty()
    } else {
        collected(s.drop_last()).insert(s.last().0, s.last().1)
    }
}

/// Determinism: a map has at most one canonical arrangement. Two maps that
/// hold the same entries, however each was built, are written out alike.
pub proof fn lemma_canonical_entries_unique<K: Ord, V>(
    s1: Seq<(K, V)>,
    s2: Seq<(K, V)>,
    m: Map<K, V>,
)
    requires
        lawful_order::<K>(),
        canonical_entries(s1, m),
        canonical_entries(s2, m),
    ensures
        s1 == s2,
{
    lemma_canonical_order_unique(keys_of(s1), keys_of(s2), m.dom());
    assert(s1.len() == s2.len());
    assert forall|i: int| 0 <= i < s1.len() implies s1[i] == s2[i] by {
        assert(keys_of(s1)[i] == keys_of(s2)[i]);
    }
    assert(s1 =~= s2);
}

/// Count integrity: the canonical arrangement has as many entries as the map.
pub proof fn lemma_canonical_entries_len<K: Ord, V>(s: Seq<(K, V)>, m: Map<K, V>)
    requires
        lawful_order::<K>(),
        canonical_entries(s, m),
    ensures
        m.dom().finite(),
        s.len() == m.len(),
{
    lemma_canonical_order_len(keys_of(s), m.dom());
}

/// Entries with distinct keys are collected into the map that holds exactly
/// them.
pub proof fn lemma_collected<K, V>(s: Seq<(K, V)>)
    requires
        keys_of(s).no_duplicates(),
    ensures
        forall|k: K| #[trigger] collected(s).dom().contains(k) <==> keys_of(s).contains(k),
        forall|i: int| 0 <= i < s.len() ==> collected(s)[(#[trigger] s[i]).0] == s[i].1,
    decreases s.len(),
{
    if s.len() > 0 {
        let front = s.drop_last();
        let last = s.last();
        let n = front.len() as int;
        assert(keys_of(s).len() == n + 1);
        assert(keys_of(front).len() == n);
        assert forall|i: int| 0 <= i < n implies keys_of(front)[i] == keys_of(s)[i] by {
            assert(front[i] == s[i]);
        }
        assert(keys_of(s)[n] == last.0);
        assert forall|i: int, j: int| 0 <= i < n && 0 <= j < n && i != j implies keys_of(
            front,
        )[i] != keys_of(front)[j] by {
            assert(keys_of(s)[i] != keys_of(s)[j]);
        }
        lemma_collected(front);
        assert(collected(s) == collected(front).insert(last.0, last.1));
        assert forall|k: K| #[trigger] collected(s).dom().contains(k) <==> keys_of(s).contains(
            k,
        ) by {
            if keys_of(s).contains(k) {
                let i = choose|i: int| 0 <= i < keys_of(s).len() && keys_of(s)[i] == k;
                if i < n {
                    assert(keys_of(front)[i] == k);
                    assert(keys_of(front).contains(k));
                    assert(collected(front).dom().contains(k));
                }
            }
            if collected(front).dom().contains(k) {
                assert(keys_of(front).contains(k));
                let i = choose|i: int| 0 <= i < keys_of(front).len() && keys_of(front)[i] == k;
                assert(keys_of(s)[i] == k);
            }
        }
        assert forall|i: int| 0 <= i < s.len() implies collected(s)[(#[trigger] s[i]).0]
            == s[i].1 by {
            if i < n {
                assert(front[i] == s[i]);
                assert(keys_of(s)[i] != keys_of(s)[n]);
            }
        }
    }
}

/// Reading back a canonical arrangement gives the map it was taken from.
pub proof fn lemma_collected_canonical<K: Ord, V>(s: Seq<(K, V)>, m: Map<K, V>)
    requires
        lawful_order::<K>(),
        canonical_entries(s, m),
    ensures
        collected(s) == m,
{
    lemma_strictly_ascending_distinct(keys_of(s));
    lemma_collected(s);
    assert forall|k: K| #[trigger] collected(s).dom().contains(k) implies collected(s)[k]
        == m[k] by {
        let i = choose|i: int| 0 <= i < s.len() && keys_of(s)[i] == k;
        assert(s[i].0 == k);
    }
    assert(collected(s) =~= m);
}

/// Writing out, reading back and writing out again changes nothing: the
/// entries collected from a canonical arrangement have that same arrangement
/// as theirs.
pub proof fn lemma_entries_round_trip<K: Ord, V>(s: Seq<(K, V)>, m: Map<K, V>, again: Seq<(K, V)>)
    requires
        lawful_order::<K>(),
        canonical_entries(s, m),
        canonical_entries(again, collected(s)),
    ensures
        again == s,
{
    lemma_collected_canonical(s, m);
    lemma_canonical_entries_unique(s, again, m);
}

} // verus!
