use std::collections::hash_map::RandomState;
use std::collections::{HashMap, HashSet};

use state_access::collections::AHashExt;

#[test]
fn map_with_capacity_starts_empty_and_holds_its_capacity() {
    let mut map: HashMap<u64, u64, RandomState> = AHashExt::with_capacity(10);
    assert!(map.is_empty());
    assert!(map.capacity() >= 10);
    map.insert(1, 2);
    assert_eq!(map.get(&1), Some(&2));
}

#[test]
fn set_with_capacity_starts_empty_and_holds_its_capacity() {
    let mut set: HashSet<u64, RandomState> = AHashExt::with_capacity(10);
    assert!(set.is_empty());
    assert!(set.capacity() >= 10);
    set.insert(5);
    assert!(set.contains(&5));
}
