//! Resources as the keys of a sorted map.

use resource_pool::Resource;
use std::collections::BTreeMap;

#[test]
fn test_insertion_and_retrieval_by_size() {
    let mut map: BTreeMap<Resource, String> = BTreeMap::new();

    let key1 = Resource::new(0, 32);
    let key2 = Resource::new(0, 64);
    let key3 = Resource::new(0, 16);

    map.insert(key1.clone(), "Block 32".to_string());
    map.insert(key2.clone(), "Block 64".to_string());
    map.insert(key3.clone(), "Block 16".to_string());

    let search_key = Resource::new(0, 32);
    assert_eq!(map.get(&search_key), Some(&"Block 32".to_string()));

    let search_key = Resource::new(0, 64);
    assert_eq!(map.get(&search_key), Some(&"Block 64".to_string()));

    let search_key = Resource::new(0, 16);
    assert_eq!(map.get(&search_key), Some(&"Block 16".to_string()));
}

#[test]
fn test_sorted_order_by_size() {
    let mut map: BTreeMap<Resource, String> = BTreeMap::new();

    let key1 = Resource::new(0, 32);
    let key2 = Resource::new(0, 64);
    let key3 = Resource::new(0, 16);

    map.insert(key1.clone(), "Block 32".to_string());
    map.insert(key2.clone(), "Block 64".to_string());
    map.insert(key3.clone(), "Block 16".to_string());

    let mut iter = map.keys();

    assert_eq!(iter.next(), Some(&Resource::new(0, 16)));
    assert_eq!(iter.next(), Some(&Resource::new(0, 32)));
    assert_eq!(iter.next(), Some(&Resource::new(0, 64)));
}

#[test]
fn test_handling_of_equal_sizes_different_pointers() {
    let mut map: BTreeMap<Resource, String> = BTreeMap::new();

    let ptr1: usize = 0x1;
    let ptr2: usize = 0x2;

    let key1 = Resource::new(ptr1, 32);
    let key2 = Resource::new(ptr2, 32);

    map.insert(key1.clone(), "Block 1".to_string());
    map.insert(key2.clone(), "Block 2".to_string());

    assert_eq!(map.len(), 2, "Map is not size 2");

    let mut iter = map.iter();

    let (k1, v1) = iter.next().unwrap();
    let (k2, v2) = iter.next().unwrap();

    assert_ne!(k1.ptr, k2.ptr);
    assert_eq!(k1.size, k2.size);

    assert_eq!(v1, "Block 1");
    assert_eq!(v2, "Block 2");
}
