//! The maps that a pool is made of.

use resource_pool::blocks::{bytes_to_reserve, obtain_block, BlockMap};
use resource_pool::ordered_map::OrderedMap;
use resource_pool::wait_queue::WaitQueue;
use resource_pool::{Resource, ResourceRequest};

#[test]
fn sorted_map_finds_the_nearest_key_from_a_bound_on() {
    let mut map: OrderedMap<Resource, char> = OrderedMap::new();
    assert!(map.is_empty());
    assert_eq!(map.insert(Resource::new(9, 128), 'c'), None);
    assert_eq!(map.insert(Resource::new(3, 64), 'a'), None);
    assert_eq!(map.insert(Resource::new(5, 64), 'b'), None);
    assert_eq!(map.len(), 3);

    assert_eq!(map.first_at_least(&Resource::new(0, 10)), Some(Resource::new(3, 64)));
    assert_eq!(map.first_at_least(&Resource::new(4, 64)), Some(Resource::new(5, 64)));
    assert_eq!(map.first_at_least(&Resource::new(0, 65)), Some(Resource::new(9, 128)));
    assert_eq!(map.first_at_least(&Resource::new(9, 128)), Some(Resource::new(9, 128)));
    assert_eq!(map.first_at_least(&Resource::new(10, 128)), None);
}

#[test]
fn sorted_map_replaces_and_removes() {
    let mut map: OrderedMap<Resource, u8> = OrderedMap::new();
    for size in [5usize, 1, 9, 3, 7] {
        assert_eq!(map.insert(Resource::new(2, size), size as u8), None);
    }
    assert_eq!(map.insert(Resource::new(2, 3), 33), Some(3));
    assert_eq!(map.len(), 5);
    assert_eq!(map.remove(&Resource::new(2, 4)), None);
    assert_eq!(map.remove(&Resource::new(2, 3)), Some(33));
    assert_eq!(map.remove(&Resource::new(2, 3)), None);
    assert_eq!(map.len(), 4);
    assert_eq!(map.first_at_least(&Resource::new(0, 2)), Some(Resource::new(2, 5)));
    for size in [1usize, 5, 7, 9] {
        assert_eq!(map.remove(&Resource::new(2, size)), Some(size as u8));
    }
    assert!(map.is_empty());
}

#[test]
fn queue_sorts_by_size_and_gives_each_request_a_place() {
    let mut queue = WaitQueue::new();
    assert!(queue.is_empty());
    assert_eq!(queue.largest_up_to(100), None);
    for size in [5usize, 3, 5, 0, 5, 3] {
        queue.insert(ResourceRequest::new(size));
    }
    assert_eq!(queue.len(), 6);
    let sizes: Vec<usize> = (0..6).map(|i| queue.request_at(i).size).collect();
    assert_eq!(sizes, vec![0, 3, 3, 5, 5, 5]);
    assert_eq!(queue.largest_up_to(9), Some(3));
    assert_eq!(queue.largest_up_to(4), Some(1));
    assert_eq!(queue.largest_up_to(2), Some(0));

    let mut served = Vec::new();
    while let Some(place) = queue.largest_up_to(9) {
        served.push(queue.remove(place).size);
    }
    assert_eq!(served, vec![5, 5, 5, 3, 3, 0]);
    assert!(queue.is_empty());
}

#[test]
fn at_least_one_byte_is_asked_for() {
    assert_eq!(bytes_to_reserve(0), 1);
    assert_eq!(bytes_to_reserve(1), 1);
    assert_eq!(bytes_to_reserve(4096), 4096);
    assert_eq!(bytes_to_reserve(usize::MAX), usize::MAX);
}

#[test]
fn block_map_gives_back_what_was_put_in() {
    let mut map = BlockMap::new();
    assert!(map.is_empty());
    assert_eq!(map.insert(8, vec![1, 2]), None);
    assert_eq!(map.insert(16, vec![3]), None);
    assert_eq!(map.insert(8, vec![4, 5, 6]), Some(vec![1, 2]));
    assert_eq!(map.len(), 2);
    assert!(map.contains_key(&8) && map.contains_key(&16) && !map.contains_key(&24));
    assert_eq!(map.remove(&24), None);
    assert_eq!(map.remove(&8), Some((8, vec![4, 5, 6])));
    assert_eq!(map.remove(&8), None);
    assert_eq!(map.remove(&16), Some((16, vec![3])));
    assert!(map.is_empty());
}

#[test]
fn blocks_lie_at_addresses_of_their_own() {
    let blocks: Vec<(usize, Vec<u8>)> = (0usize..40).map(|size| obtain_block(size)).collect();
    for (size, (ptr, block)) in blocks.iter().enumerate() {
        assert!(*ptr != 0);
        assert_eq!(*ptr, block.as_ptr() as usize);
        assert_eq!(block, &vec![0u8; size]);
    }
    for i in 0..blocks.len() {
        for j in 0..i {
            assert_ne!(blocks[i].0, blocks[j].0);
        }
    }
}

#[test]
fn a_block_that_no_system_has_is_not_obtained() {
    assert_eq!(obtain_block(usize::MAX), (0, Vec::new()));
}
