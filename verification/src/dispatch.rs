//! From the shape of a value to its sorted view.
//!
//! Four shapes are known, and the choice among them is made by the type
//! checker: a borrowed unordered map, a borrowed unordered set, and each of
//! the two inside an `Option`. A value of any other shape does not compile.

use crate::sorted_map::SerializeSortedHashMapWrapper;
use crate::sorted_set::SerializeSortedHashSetWrapper;
use std::collections::{HashMap, HashSet};
use std::hash::{BuildHasher, Hash};
use vstd::prelude::*;

verus! {

/// A shape that has a sorted view.
pub trait SerializeSortedFrom: Sized {
    /// The sorted view of this shape.
    type Target;

    /// The sorted view of `t`.
    spec fn sorted_view(t: Self) -> Self::Target;

    /// Wraps `t` in its sorted view. Nothing is copied and nothing is sorted
    /// yet.
    fn sorted_from(t: Self) -> (target: Self::Target)
        ensures
            target == Self::sorted_view(t),
    ;
}

impl<'a, K: Ord + Hash, V, H: BuildHasher> SerializeSortedFrom for &'a HashMap<K, V, H> {
    type Target = SerializeSortedHashMapWrapper<'a, K, V, H>;

    open spec fn sorted_view(t: Self) -> Self::Target {
        SerializeSortedHashMapWrapper::over(t)
    }

    fn sorted_from(t: &'a HashMap<K, V, H>) -> (target: Self::Target) {
        SerializeSortedHashMapWrapper::new(t)
    }
}

impl<'a, K: Ord + Hash, V, H: BuildHasher> SerializeSortedFrom for &'a Option<HashMap<K, V, H>> {
    type Target = Option<SerializeSortedHashMapWrapper<'a, K, V, H>>;

    open spec fn sorted_view(t: Self) -> Self::Target {
        match t {
            Some(map) => Some(SerializeSortedHashMapWrapper::over(map)),
            None => None,
        }
    }

    fn sorted_from(t: &'a Option<HashMap<K, V, H>>) -> (target: Self::Target) {
        match t {
            Some(map) => Some(SerializeSortedHashMapWrapper::new(map)),
            None => None,
        }
    }
}

impl<'a, K: Ord + Hash, H: BuildHasher> SerializeSortedFrom for &'a HashSet<K, H> {
    type Target = SerializeSortedHashSetWrapper<'a, K, H>;

    open spec fn sorted_view(t: Self) -> Self::Target {
        SerializeSortedHashSetWrapper::over(t)
    }

    fn sorted_from(t: &'a HashSet<K, H>) -> (target: Self::Target) {
        SerializeSortedHashSetWrapper::new(t)
    }
}

impl<'a, K: Ord + Hash, H: BuildHasher> SerializeSortedFrom for &'a Option<HashSet<K, H>> {
    type Target = Option<SerializeSortedHashSetWrapper<'a, K, H>>;

    open spec fn sorted_view(t: Self) -> Self::Target {
        match t {
            Some(set) => Some(SerializeSortedHashSetWrapper::over(set)),
            None => None,
        }
    }

    fn sorted_from(t: &'a Option<HashSet<K, H>>) -> (target: Self::Target) {
        match t {
            Some(set) => Some(SerializeSortedHashSetWrapper::new(set)),
            None => None,
        }
    }
}

/// An optional map is transparent: absent, it has no view; present, it has
/// the view that the map has on its own.
pub proof fn lemma_optional_map_transparent<'a, K: Ord + Hash, V, H: BuildHasher>(
    t: &'a Option<HashMap<K, V, H>>,
)
    ensures
        match t {
            Some(map) => <&'a Option<HashMap<K, V, H>> as SerializeSortedFrom>::sorted_view(t)
                == Some(<&'a HashMap<K, V, H> as SerializeSortedFrom>::sorted_view(map)),
            None => <&'a Option<HashMap<K, V, H>> as SerializeSortedFrom>::sorted_view(t) is None,
        },
{
}

/// An optional set is transparent: absent, it has no view; present, it has
/// the view that the set has on its own.
pub proof fn lemma_optional_set_transparent<'a, K: Ord + Hash, H: BuildHasher>(
    t: &'a Option<HashSet<K, H>>,
)
    ensures
        match t {
            Some(set) => <&'a Option<HashSet<K, H>> as SerializeSortedFrom>::sorted_view(t)
                == Some(<&'a HashSet<K, H> as SerializeSortedFrom>::sorted_view(set)),
            None => <&'a Option<HashSet<K, H>> as SerializeSortedFrom>::sorted_view(t) is None,
        },
{
}

} // verus!
