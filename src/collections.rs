//! Set-like and map-like collections, for the membership checks of
//! `correctness`.
use std::collections::{HashMap, HashSet};
use std::hash::Hash;
use vstd::prelude::*;
use vstd::std_specs::hash::{builds_valid_hashers, obeys_key_model};

verus! {

broadcast use vstd::std_specs::hash::group_hash_axioms;

pub trait SetLike {
    type Item;

    spec fn spec_contains(&self, item: Self::Item) -> bool;

    spec fn spec_is_empty(&self) -> bool;

    /// Whether `contains` answers according to `spec_contains`.
    spec fn obeys_set_model(&self) -> bool;

    fn contains(&self, item: &Self::Item) -> (r: bool)
        ensures
            self.obeys_set_model() ==> r == self.spec_contains(*item),
    ;

    fn is_empty(&self) -> (r: bool)
        ensures
            r == self.spec_is_empty(),
    ;
}

pub trait MapLike {
    type Key;

    type Value;

    spec fn spec_contains_key(&self, key: Self::Key) -> bool;

    spec fn spec_is_empty(&self) -> bool;

    /// Whether `contains_key` answers according to `spec_contains_key`.
    spec fn obeys_map_model(&self) -> bool;

    fn contains_key(&self, key: &Self::Key) -> (r: bool)
        ensures
            self.obeys_map_model() ==> r == self.spec_contains_key(*key),
    ;

    fn is_empty(&self) -> (r: bool)
        ensures
            r == self.spec_is_empty(),
    ;
}

impl<T: Eq + Hash> SetLike for HashSet<T> {
    type Item = T;

    open spec fn spec_contains(&self, item: T) -> bool {
        self@.contains(item)
    }

    open spec fn spec_is_empty(&self) -> bool {
        self@.is_empty()
    }

    open spec fn obeys_set_model(&self) -> bool {
        obeys_key_model::<T>() && builds_valid_hashers::<std::hash::RandomState>()
    }

    fn contains(&self, item: &T) -> (r: bool) {
        HashSet::contains(self, item)
    }

    fn is_empty(&self) -> (r: bool) {
        HashSet::is_empty(self)
    }
}

impl<K: Eq + Hash, V> MapLike for HashMap<K, V> {
    type Key = K;

    type Value = V;

    open spec fn spec_contains_key(&self, key: K) -> bool {
        self@.dom().contains(key)
    }

    open spec fn spec_is_empty(&self) -> bool {
        self@.is_empty()
    }

    open spec fn obeys_map_model(&self) -> bool {
        obeys_key_model::<K>() && builds_valid_hashers::<std::hash::RandomState>()
    }

    fn contains_key(&self, key: &K) -> (r: bool) {
        HashMap::contains_key(self, key)
    }

    fn is_empty(&self) -> (r: bool) {
        HashMap::is_empty(self)
    }
}

} // verus!
