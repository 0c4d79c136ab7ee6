//! The sorted view of an unordered set, and the order in which its elements
//! are handed to an encoder.

use crate::order::{canonical_order, keys_well_behaved, lemma_canonical_order_len};
use crate::sorting::canonical_sort;
use std::collections::HashSet;
use std::hash::{BuildHasher, Hash};
use vstd::prelude::*;
use vstd::std_specs::hash::spec_hash_keys_iter;
use vstd::std_specs::iter::IteratorSpec;

verus! {

/// A borrowed unordered set, to be written out as a sequence with its
/// elements in ascending order. It owns nothing and copies nothing.
#[verifier::reject_recursive_types(H)]
pub struct SerializeSortedHashSetWrapper<'a, K, H>(&'a HashSet<K, H>);

/// What the encoder is to be handed next while a set is written out.
pub enum SeqStep<'a, K, E> {
    /// Emit this element.
    Element(&'a K),
    /// Every element has been emitted: close the sequence.
    End,
    /// The encoder refused what it was handed last: stop, with its error.
    Fail(E),
}

/// A set in the course of being written out: its elements in canonical
/// order, and how many of them have been handed to the encoder.
#[verifier::reject_recursive_types(H)]
pub struct SeqEmission<'a, K: Ord + Hash, H: BuildHasher> {
    set: &'a HashSet<K, H>,
    elements: Vec<&'a K>,
    next: usize,
}

impl<'a, K, H> View for SerializeSortedHashSetWrapper<'a, K, H> {
    type V = Set<K>;

    closed spec fn view(&self) -> Set<K> {
        self.0@
    }
}

impl<'a, K: Ord + Hash, H: BuildHasher> SerializeSortedHashSetWrapper<'a, K, H> {
    /// The view over `set`.
    pub closed spec fn over(set: &'a HashSet<K, H>) -> Self {
        SerializeSortedHashSetWrapper(set)
    }

    /// The view over `set` shows the elements of `set`.
    pub broadcast proof fn lemma_over_view(set: &'a HashSet<K, H>)
        ensures
            (#[trigger] Self::over(set))@ == set@,
    {
    }

    /// Borrows `set` as a sorted view.
    pub(crate) fn new(set: &'a HashSet<K, H>) -> (wrapper: Self)
        ensures
            wrapper == Self::over(set),
    {
        SerializeSortedHashSetWrapper(set)
    }

    /// The elements of the set, borrowed from it, in canonical order.
    pub fn sorted_elements(&self) -> (elements: Vec<&'a K>)
        requires
            keys_well_behaved::<K, H>(),
        ensures
            canonical_order(elements@.unref(), self@),
    {
        let h = self.0;
        let ghost listed = spec_hash_keys_iter(h).remaining();
        let mut all: Vec<&'a K> = Vec::new();
        for element in it: h.iter()
            invariant
                it.seq() == listed,
                all@ == listed.take(it.index()),
        {
            all.push(element);
        }
        proof {
            assert(all@ == listed);
            assert(all@.unref().to_set() == self@);
        }
        canonical_sort(all)
    }

    /// Begins writing the set out: sorts the elements and starts before the
    /// first of them.
    pub fn serialize(&self) -> (emission: SeqEmission<'a, K, H>)
        requires
            keys_well_behaved::<K, H>(),
        ensures
            canonical_order(emission.plan(), self@),
            emission.emitted() == 0,
    {
        let elements = self.sorted_elements();
        SeqEmission { set: self.0, elements, next: 0 }
    }
}

impl<'a, K: Ord + Hash, H: BuildHasher> SeqEmission<'a, K, H> {
    #[verifier::type_invariant]
    spec fn well_formed(self) -> bool {
        &&& keys_well_behaved::<K, H>()
        &&& canonical_order(self.elements@.unref(), self.set@)
        &&& self.next <= self.elements@.len()
    }

    /// The elements in the order in which they are emitted.
    pub closed spec fn plan(self) -> Seq<K> {
        self.elements@.unref()
    }

    /// How many elements of the plan have been emitted so far.
    pub closed spec fn emitted(self) -> nat {
        self.next as nat
    }

    /// The number of elements that will have been emitted at the end, for the
    /// encoder to be told up front. It is read off the container, not counted
    /// from the plan.
    pub fn len(&self) -> (n: usize)
        ensures
            n == self.plan().len(),
    {
        proof {
            use_type_invariant(self);
            lemma_canonical_order_len(self.elements@.unref(), self.set@);
        }
        self.set.len()
    }

    /// Decides what the encoder is handed next, given how it answered what it
    /// was handed last (`Ok` before anything was handed over).
    ///
    /// An error comes back as it is and at once, and nothing more is emitted.
    /// Otherwise the elements come in the order of the plan, one at each
    /// call, and then the end.
    pub fn step<E>(&mut self, last: Result<(), E>) -> (step: SeqStep<'a, K, E>)
        ensures
            final(self).plan() == old(self).plan(),
            final(self).emitted() <= final(self).plan().len(),
            step is End ==> final(self).emitted() == final(self).plan().len(),
            match last {
                Err(e) => step == SeqStep::<'a, K, E>::Fail(e) && final(self).emitted() == old(
                    self,
                ).emitted(),
                Ok(_) => if old(self).emitted() < old(self).plan().len() {
                    &&& step matches SeqStep::Element(k)
                    &&& *k == old(self).plan()[old(self).emitted() as int]
                    &&& final(self).emitted() == old(self).emitted() + 1
                } else {
                    &&& step is End
                    &&& final(self).emitted() == old(self).emitted()
                },
            },
    {
        proof {
            use_type_invariant(&*self);
        }
        match last {
            Err(e) => SeqStep::Fail(e),
            Ok(_) => {
                if self.next < self.elements.len() {
                    let element: &'a K = self.elements[self.next];
                    self.next = self.next + 1;
                    SeqStep::Element(element)
                } else {
                    SeqStep::End
                }
            },
        }
    }
}

} // verus!
