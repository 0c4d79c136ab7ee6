//! The sorted view of an unordered map, and the order in which its entries
//! are handed to an encoder.

use crate::entries::{canonical_entries, keys_of};
use crate::order::{canonical_order, keys_well_behaved, lemma_canonical_order_len};
use crate::sorting::canonical_sort;
use std::collections::HashMap;
use std::hash::{BuildHasher, Hash};
use vstd::prelude::*;
use vstd::std_specs::hash::spec_keys_iter;
use vstd::std_specs::iter::IteratorSpec;

verus! {

/// A borrowed unordered map, to be written out with its keys in ascending
/// order. It owns nothing and copies nothing.
#[verifier::reject_recursive_types(H)]
pub struct SerializeSortedHashMapWrapper<'a, K, V, H>(&'a HashMap<K, V, H>);

/// What the encoder is to be handed next while a map is written out.
pub enum MapStep<'a, K, V, E> {
    /// Emit this entry.
    Entry(&'a K, &'a V),
    /// Every entry has been emitted: close the map.
    End,
    /// The encoder refused what it was handed last: stop, with its error.
    Fail(E),
}

/// A map in the course of being written out: its keys in canonical order,
/// and how many of its entries have been handed to the encoder.
#[verifier::reject_recursive_types(H)]
pub struct MapEmission<'a, K: Ord + Hash, V, H: BuildHasher> {
    map: &'a HashMap<K, V, H>,
    keys: Vec<&'a K>,
    next: usize,
}

impl<'a, K, V, H> View for SerializeSortedHashMapWrapper<'a, K, V, H> {
    type V = Map<K, V>;

    closed spec fn view(&self) -> Map<K, V> {
        self.0@
    }
}

impl<'a, K: Ord + Hash, V, H: BuildHasher> SerializeSortedHashMapWrapper<'a, K, V, H> {
    /// The view over `map`.
    pub closed spec fn over(map: &'a HashMap<K, V, H>) -> Self {
        SerializeSortedHashMapWrapper(map)
    }

    /// The view over `map` shows the entries of `map`.
    pub broadcast proof fn lemma_over_view(map: &'a HashMap<K, V, H>)
        ensures
            (#[trigger] Self::over(map))@ == map@,
    {
    }

    /// Borrows `map` as a sorted view.
    pub(crate) fn new(map: &'a HashMap<K, V, H>) -> (wrapper: Self)
        ensures
            wrapper == Self::over(map),
    {
        SerializeSortedHashMapWrapper(map)
    }

    /// The keys of the map, borrowed from it, in canonical order.
    pub fn sorted_keys(&self) -> (keys: Vec<&'a K>)
        requires
            keys_well_behaved::<K, H>(),
        ensures
            canonical_order(keys@.unref(), self@.dom()),
    {
        let h = self.0;
        let ghost listed = spec_keys_iter(h).remaining();
        let mut all: Vec<&'a K> = Vec::new();
        for key in it: h.keys()
            invariant
                it.seq() == listed,
                all@ == listed.take(it.index()),
        {
            all.push(key);
        }
        proof {
            assert(all@ == listed);
            assert(all@.unref().to_set() == self@.dom());
        }
        canonical_sort(all)
    }

    /// The entries of the map, borrowed from it, in canonical order: all that
    /// an encoder is handed when none of its answers is an error.
    pub fn sorted_entries(&self) -> (entries: Vec<(&'a K, &'a V)>)
        requires
            keys_well_behaved::<K, H>(),
        ensures
            canonical_entries(entries@.unref(), self@),
    {
        let mut emission = self.serialize();
        let ghost plan = emission.plan();
        let mut entries: Vec<(&'a K, &'a V)> = Vec::new();
        loop
            invariant
                emission.plan() == plan,
                entries@.unref() == plan.take(emission.emitted() as int),
                canonical_entries(plan, self@),
            ensures
                canonical_entries(entries@.unref(), self@),
            decreases plan.len() - emission.emitted(),
        {
            let ghost before = entries@.unref();
            match emission.step::<()>(Ok(())) {
                MapStep::Entry(key, value) => {
                    entries.push((key, value));
                    proof {
                        assert(entries@.unref() =~= before.push((*key, *value)));
                        assert(entries@.unref() =~= plan.take(emission.emitted() as int));
                    }
                },
                MapStep::End => {
                    proof {
                        assert(entries@.unref() =~= plan);
                    }
                    break ;
                },
                MapStep::Fail(_) => {
                    // Not reached: no error was handed in.
                    break ;
                },
            }
        }
        entries
    }

    /// Begins writing the map out: sorts the keys and starts before the first
    /// entry.
    pub fn serialize(&self) -> (emission: MapEmission<'a, K, V, H>)
        requires
            keys_well_behaved::<K, H>(),
        ensures
            canonical_entries(emission.plan(), self@),
            emission.emitted() == 0,
    {
        let keys = self.sorted_keys();
        let emission = MapEmission { map: self.0, keys, next: 0 };
        proof {
            assert(keys_of(emission.plan()) =~= keys@.unref());
        }
        emission
    }
}

impl<'a, K: Ord + Hash, V, H: BuildHasher> MapEmission<'a, K, V, H> {
    #[verifier::type_invariant]
    spec fn well_formed(self) -> bool {
        &&& keys_well_behaved::<K, H>()
        &&& canonical_order(self.keys@.unref(), self.map@.dom())
        &&& self.next <= self.keys@.len()
    }

    /// The entries in the order in which they are emitted.
    pub closed spec fn plan(self) -> Seq<(K, V)> {
        Seq::new(self.keys@.len(), |i: int| (*self.keys@[i], self.map@[*self.keys@[i]]))
    }

    /// How many entries of the plan have been emitted so far.
    pub closed spec fn emitted(self) -> nat {
        self.next as nat
    }

    /// The number of entries that will have been emitted at the end, for the
    /// encoder to be told up front. It is read off the container, not counted
    /// from the plan.
    pub fn len(&self) -> (n: usize)
        ensures
            n == self.plan().len(),
    {
        proof {
            use_type_invariant(self);
            lemma_canonical_order_len(self.keys@.unref(), self.map@.dom());
        }
        self.map.len()
    }

    /// Decides what the encoder is handed next, given how it answered what it
    /// was handed last (`Ok` before anything was handed over).
    ///
    /// An error comes back as it is and at once, and nothing more is emitted.
    /// Otherwise the entries come in the order of the plan, one at each call,
    /// and then the end.
    pub fn step<E>(&mut self, last: Result<(), E>) -> (step: MapStep<'a, K, V, E>)
        ensures
            final(self).plan() == old(self).plan(),
            final(self).emitted() <= final(self).plan().len(),
            step is End ==> final(self).emitted() == final(self).plan().len(),
            match last {
                Err(e) => step == MapStep::<'a, K, V, E>::Fail(e) && final(self).emitted() == old(
                    self,
                ).emitted(),
                Ok(_) => if old(self).emitted() < old(self).plan().len() {
                    &&& step matches MapStep::Entry(k, v)
                    &&& (*k, *v) == old(self).plan()[old(self).emitted() as int]
                    &&& final(self).emitted() == old(self).emitted() + 1
                } else {
                    &&& step is End
                    &&& final(self).emitted() == old(self).emitted()
                },
            },
    {
        proof {
            use_type_invariant(&*self);
        }
        match last {
            Err(e) => MapStep::Fail(e),
            Ok(_) => {
                if self.next < self.keys.len() {
                    let key: &'a K = self.keys[self.next];
                    let map: &'a HashMap<K, V, H> = self.map;
                    proof {
                        assert(self.keys@.unref()[self.next as int] == *key);
                        assert(self.keys@.unref().contains(*key));
                    }
                    let value: &'a V = map.get(key).unwrap();
                    self.next = self.next + 1;
                    MapStep::Entry(key, value)
                } else {
                    MapStep::End
                }
            },
        }
    }
}

} // verus!
