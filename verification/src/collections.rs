//! Capacity-aware construction for the hashed collections the scheduler
//! keeps its node tables in.

use std::collections::hash_map::RandomState;
use std::collections::HashMap;
use std::collections::HashSet;
use vstd::prelude::*;

verus! {

/// Construction of an empty hashed collection with room reserved up
/// front, so that node tables of a known size do not reallocate while
/// they fill.
pub trait AHashExt: Sized {
    /// What it means for the collection to hold nothing.
    spec fn spec_is_empty(&self) -> bool;

    /// An empty collection able to hold at least `capacity` elements
    /// without reallocating.
    fn with_capacity(capacity: usize) -> (r: Self)
        ensures
            r.spec_is_empty(),
    ;
}

impl<K, V> AHashExt for HashMap<K, V, RandomState> {
    open spec fn spec_is_empty(&self) -> bool {
        self@ == Map::<K, V>::empty()
    }

    fn with_capacity(capacity: usize) -> (r: Self) {
        HashMap::with_capacity(capacity)
    }
}

impl<K> AHashExt for HashSet<K, RandomState> {
    open spec fn spec_is_empty(&self) -> bool {
        self@ == Set::<K>::empty()
    }

    fn with_capacity(capacity: usize) -> (r: Self) {
        HashSet::with_capacity(capacity)
    }
}

} // verus!
