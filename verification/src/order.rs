//! The canonical ordering policy: ascending by the key's own total order.
//!
//! Everything here is stated over a key type `K: Ord` whose order is lawful
//! (see [`lawful_order`]). The executable sorting lives in `sorting`; this
//! module says what "sorted" means and proves that the sorted arrangement of
//! a set of keys exists at most once.

use core::cmp::Ordering;
use vstd::laws_cmp::{obeys_cmp, obeys_cmp_ord, obeys_partial_cmp_spec_properties};
use vstd::laws_eq::obeys_concrete_eq;
use vstd::prelude::*;
use vstd::std_specs::cmp::{OrdSpec, PartialEqSpec, PartialOrdSpec};
use vstd::std_specs::hash::{builds_valid_hashers, obeys_key_model};

verus! {

/// `K`'s comparison is a total order, and two keys compare equal exactly when
/// they are the same key.
pub open spec fn lawful_order<K: Ord>() -> bool {
    &&& obeys_cmp::<K>()
    &&& obeys_concrete_eq::<K>()
}

/// What the library asks of a key type `K` held in a container hashed by `H`:
/// the container behaves as a map (or set) of keys, and the keys are lawfully
/// ordered.
pub open spec fn keys_well_behaved<K: Ord, H>() -> bool {
    &&& obeys_key_model::<K>()
    &&& builds_valid_hashers::<H>()
    &&& lawful_order::<K>()
}

/// `a` comes strictly before `b` in `K`'s order.
pub open spec fn precedes<K: Ord>(a: K, b: K) -> bool {
    a.cmp_spec(&b) == Ordering::Less
}

/// No element of `s` is followed by one that comes strictly before it.
pub open spec fn ascending<K: Ord>(s: Seq<K>) -> bool {
    forall|i: int, j: int| 0 <= i < j < s.len() ==> !precedes(#[trigger] s[j], #[trigger] s[i])
}

/// Every element of `s` comes strictly before every later one.
pub open spec fn strictly_ascending<K: Ord>(s: Seq<K>) -> bool {
    forall|i: int, j: int| 0 <= i < j < s.len() ==> precedes(#[trigger] s[i], #[trigger] s[j])
}

/// `s` is the canonical arrangement of `members`: it lists exactly the
/// members, in strictly ascending order.
pub open spec fn canonical_order<K: Ord>(s: Seq<K>, members: Set<K>) -> bool {
    &&& strictly_ascending(s)
    &&& forall|k: K| #[trigger] s.contains(k) <==> members.contains(k)
}

/// No key comes before itself.
pub proof fn lemma_precedes_irreflexive<K: Ord>(a: K)
    requires
        lawful_order::<K>(),
    ensures
        !precedes(a, a),
{
    reveal(obeys_partial_cmp_spec_properties);
    reveal(obeys_cmp_ord);
    reveal(obeys_concrete_eq);
    assert(a.eq_spec(&a));
    assert(a.partial_cmp_spec(&a) == Some(Ordering::Equal));
}

/// Two keys never come before each other.
pub proof fn lemma_precedes_asymmetric<K: Ord>(a: K, b: K)
    requires
        lawful_order::<K>(),
        precedes(a, b),
    ensures
        !precedes(b, a),
{
    reveal(obeys_partial_cmp_spec_properties);
    reveal(obeys_cmp_ord);
    assert(a.partial_cmp_spec(&b) == Some(Ordering::Less));
    assert(b.partial_cmp_spec(&a) == Some(Ordering::Greater));
}

/// Of two different keys, one comes before the other.
pub proof fn lemma_precedes_connected<K: Ord>(a: K, b: K)
    requires
        lawful_order::<K>(),
        a != b,
    ensures
        precedes(a, b) || precedes(b, a),
{
    reveal(obeys_partial_cmp_spec_properties);
    reveal(obeys_cmp_ord);
    reveal(obeys_concrete_eq);
    assert(a.partial_cmp_spec(&b) == Some(a.cmp_spec(&b)));
    assert(b.partial_cmp_spec(&a) == Some(b.cmp_spec(&a)));
    assert(!a.eq_spec(&b));
    if a.cmp_spec(&b) == Ordering::Greater {
        assert(b.partial_cmp_spec(&a) == Some(Ordering::Less));
    }
}

/// An ascending sequence that repeats no key is strictly ascending.
pub proof fn lemma_ascending_distinct_is_strict<K: Ord>(s: Seq<K>)
    requires
        lawful_order::<K>(),
        ascending(s),
        s.no_duplicates(),
    ensures
        strictly_ascending(s),
{
    assert forall|i: int, j: int| 0 <= i < j < s.len() implies precedes(
        #[trigger] s[i],
        #[trigger] s[j],
    ) by {
        lemma_precedes_connected(s[i], s[j]);
    }
}

/// A strictly ascending sequence repeats no key.
pub proof fn lemma_strictly_ascending_distinct<K: Ord>(s: Seq<K>)
    requires
        lawful_order::<K>(),
        strictly_ascending(s),
    ensures
        s.no_duplicates(),
{
    assert forall|i: int, j: int| 0 <= i < s.len() && 0 <= j < s.len() && i != j implies s[i]
        != s[j] by {
        if i < j {
            lemma_precedes_irreflexive(s[i]);
        } else {
            lemma_precedes_irreflexive(s[j]);
        }
    }
}

/// The order law: in a strictly ascending sequence, one key stands before
/// another exactly when it comes before it in `K`'s order.
pub proof fn lemma_order_law<K: Ord>(s: Seq<K>, i: int, j: int)
    requires
        lawful_order::<K>(),
        strictly_ascending(s),
        0 <= i < s.len(),
        0 <= j < s.len(),
    ensures
        i < j <==> precedes(s[i], s[j]),
{
    if i == j {
        lemma_precedes_irreflexive(s[i]);
    } else if j < i {
        lemma_precedes_asymmetric(s[j], s[i]);
    }
}

/// Determinism: a set of keys has at most one canonical arrangement, so the
/// arrangement depends on which keys there are and on nothing else.
pub proof fn lemma_canonical_order_unique<K: Ord>(s1: Seq<K>, s2: Seq<K>, members: Set<K>)
    requires
        lawful_order::<K>(),
        canonical_order(s1, members),
        canonical_order(s2, members),
    ensures
        s1 == s2,
    decreases s1.len(),
{
    if s1.len() == 0 {
        if s2.len() > 0 {
            assert(s2.contains(s2[0]));
            assert(s1.contains(s2[0]));
        }
        assert(s1 =~= s2);
    } else {
        let head = s1[0];
        assert(s1.contains(head));
        assert(s2.contains(head));
        let j = choose|j: int| 0 <= j < s2.len() && s2[j] == head;
        assert(s2.contains(s2[0]));
        assert(s1.contains(s2[0]));
        let i = choose|i: int| 0 <= i < s1.len() && s1[i] == s2[0];
        if s2[0] != head {
            assert(precedes(s2[0], s2[j]));
            assert(precedes(s1[0], s1[i]));
            lemma_precedes_asymmetric(head, s2[0]);
        }
        let rest = members.remove(head);
        lemma_canonical_order_tail(s1, members);
        lemma_canonical_order_tail(s2, members);
        lemma_canonical_order_unique(s1.drop_first(), s2.drop_first(), rest);
        assert(s1 =~= seq![head] + s1.drop_first());
        assert(s2 =~= seq![head] + s2.drop_first());
    }
}

/// Dropping the first key of a canonical arrangement leaves the canonical
/// arrangement of the other members.
pub proof fn lemma_canonical_order_tail<K: Ord>(s: Seq<K>, members: Set<K>)
    requires
        lawful_order::<K>(),
        canonical_order(s, members),
        s.len() > 0,
    ensures
        canonical_order(s.drop_first(), members.remove(s[0])),
{
    let t = s.drop_first();
    assert forall|i: int, j: int| 0 <= i < j < t.len() implies precedes(
        #[trigger] t[i],
        #[trigger] t[j],
    ) by {
        assert(precedes(s[i + 1], s[j + 1]));
    }
    lemma_strictly_ascending_distinct(s);
    assert forall|k: K| #[trigger] t.contains(k) <==> members.remove(s[0]).contains(k) by {
        if t.contains(k) {
            let i = choose|i: int| 0 <= i < t.len() && t[i] == k;
            assert(s[i + 1] == k);
            assert(s.contains(k));
        }
        if members.contains(k) && k != s[0] {
            assert(s.contains(k));
            let i = choose|i: int| 0 <= i < s.len() && s[i] == k;
            assert(t[i - 1] == k);
        }
    }
}

/// Count integrity: a canonical arrangement has one place for each member.
pub proof fn lemma_canonical_order_len<K: Ord>(s: Seq<K>, members: Set<K>)
    requires
        lawful_order::<K>(),
        canonical_order(s, members),
    ensures
        members.finite(),
        s.len() == members.len(),
{
    lemma_strictly_ascending_distinct(s);
    s.unique_seq_to_set();
    assert(s.to_set() =~= members);
}

/// Writing out, reading back and writing out again changes nothing: the
/// keys gathered from a canonical arrangement have that same arrangement as
/// theirs.
pub proof fn lemma_keys_round_trip<K: Ord>(s: Seq<K>, members: Set<K>, again: Seq<K>)
    requires
        lawful_order::<K>(),
        canonical_order(s, members),
        canonical_order(again, s.to_set()),
    ensures
        again == s,
{
    assert(s.to_set() =~= members);
    lemma_canonical_order_unique(s, again, members);
}

} // verus!
