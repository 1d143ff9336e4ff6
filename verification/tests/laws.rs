//! The laws of a pool, on examples.

use resource_pool::{
    Resource, ResourcePool, ResourceRequest, ResourceRequestState, ResourceResponse, WaitStep,
};
use std::cmp::Ordering;

fn ptr_of(pool: &mut ResourcePool, size: usize) -> usize {
    let response = pool.allocate(size).expect("memory");
    assert_eq!(response.state, ResourceRequestState::Filled);
    response.resource.ptr
}

fn amounts(pool: &ResourcePool) -> (usize, usize, usize) {
    (pool.amount_in_use, pool.amount_in_reserve, pool.amount_in_waiting)
}

#[test]
fn exact_match_is_reused_whatever_else_is_kept() {
    let mut pool = ResourcePool::new(4096);
    let a = ptr_of(&mut pool, 512);
    let b = ptr_of(&mut pool, 1024);
    pool.reclaim(b);
    pool.reclaim(a);
    assert_eq!(ptr_of(&mut pool, 512), a);
    assert_eq!(ptr_of(&mut pool, 1024), b);
    assert_eq!(amounts(&pool), (1536, 0, 0));
}

#[test]
fn block_that_would_be_filled_too_little_is_not_reused() {
    // 800 / 1024 = 0.78125 and 400 / 512 = 0.78125
    for size in [800usize, 400] {
        let mut pool = ResourcePool::new(4096);
        let a = ptr_of(&mut pool, 512);
        let b = ptr_of(&mut pool, 1024);
        pool.reclaim(a);
        pool.reclaim(b);
        let fresh = ptr_of(&mut pool, size);
        assert!(fresh != a && fresh != b);
        assert_eq!(amounts(&pool), (size, 1536, 0));
    }
}

#[test]
fn request_larger_than_every_kept_block_gets_none_of_them() {
    let mut pool = ResourcePool::new(1112 + 799);
    let a = ptr_of(&mut pool, 512);
    let b = ptr_of(&mut pool, 600);
    pool.reclaim(a);
    pool.reclaim(b);
    let response = pool.allocate(800).unwrap();
    assert_eq!(response.state, ResourceRequestState::Waiting);
    assert_eq!(amounts(&pool), (0, 1112, 800));
}

#[test]
fn smallest_block_that_can_hold_a_request_is_reused() {
    let mut pool = ResourcePool::with_threshold(4096, 0.5f32.to_bits());
    let blocks = [300usize, 100, 200, 150].map(|size| (ptr_of(&mut pool, size), size));
    for (ptr, _) in blocks {
        pool.reclaim(ptr);
    }
    let response = pool.allocate(120).unwrap();
    assert_eq!(response.resource, Resource::new(blocks[3].0, 150));
    assert_eq!(amounts(&pool), (150, 600, 0));
}

#[test]
fn blocks_of_one_size_are_reused_from_the_lowest_address() {
    let mut pool = ResourcePool::new(4096);
    for ptr in [48usize, 16, 32] {
        pool.hand_out_fresh_block(ptr, vec![0u8; 10]).unwrap();
    }
    for ptr in [32usize, 48, 16] {
        pool.reclaim(ptr);
    }
    assert_eq!(ptr_of(&mut pool, 10), 16);
    assert_eq!(ptr_of(&mut pool, 9), 32);
    assert_eq!(ptr_of(&mut pool, 8), 48);
}

#[test]
fn empty_block_hides_larger_ones_from_an_empty_request() {
    let mut pool = ResourcePool::with_threshold(100, 0.0f32.to_bits());
    pool.hand_out_fresh_block(8, vec![1u8; 10]).unwrap();
    pool.reclaim(8);
    assert_eq!(
        pool.check_for_existing_resources(ResourceRequest::new(0)),
        Some(Resource::new(8, 10))
    );
    pool.hand_out_fresh_block(16, Vec::new()).unwrap();
    pool.reclaim(16);
    assert_eq!(pool.check_for_existing_resources(ResourceRequest::new(0)), None);
}

#[test]
fn returning_and_reusing_undo_each_other() {
    let mut pool = ResourcePool::new(4096);
    let a = ptr_of(&mut pool, 512);
    let b = ptr_of(&mut pool, 64);
    pool.reclaim(a);
    let before = amounts(&pool);
    assert_eq!(ptr_of(&mut pool, 500), a);
    assert_ne!(amounts(&pool), before);
    pool.reclaim(a);
    assert_eq!(amounts(&pool), before);
    assert_eq!((pool.in_use.len(), pool.reserve.len(), pool.order.len()), (1, 1, 1));
    assert!(pool.in_use.contains_key(&b) && pool.reserve.contains_key(&a));
}

#[test]
fn bytes_survive_a_round_through_the_reserve() {
    let mut pool = ResourcePool::new(100);
    pool.hand_out_fresh_block(24, vec![1, 2, 3, 4]).unwrap();
    pool.reclaim(24);
    assert_eq!(ptr_of(&mut pool, 4), 24);
    assert_eq!(pool.in_use.remove(&24), Some((24, vec![1, 2, 3, 4])));
}

#[test]
fn unknown_pointers_are_ignored() {
    let mut pool = ResourcePool::new(1024);
    let a = ptr_of(&mut pool, 64);
    assert!(pool.reclaim(0).is_none());
    assert!(pool.reclaim(a + 1).is_none());
    assert_eq!(amounts(&pool), (64, 0, 0));
    pool.reclaim(a);
    assert!(pool.reclaim(a).is_none());
    assert_eq!(amounts(&pool), (0, 64, 0));
    assert_eq!((pool.in_use.len(), pool.reserve.len(), pool.order.len()), (0, 1, 1));
}

#[test]
fn waiting_request_is_filled_when_memory_comes_back() {
    let mut pool = ResourcePool::new(1024);
    let first = pool.allocate(1024).unwrap();
    assert_eq!(first.wait_until_filled(), WaitStep::Proceed);

    let mut second = pool.allocate(1024).unwrap();
    assert_eq!(second.state, ResourceRequestState::Waiting);
    assert_eq!(second.wait_until_filled(), WaitStep::Sleep);
    assert_eq!(second.get_resource(), &Resource::new(0, 1024));
    assert!(!pool.wait_list_empty());

    let resource = pool.reclaim(first.resource.ptr).unwrap();
    second.fill(resource.ptr);
    assert_eq!(second.state, ResourceRequestState::Filled);
    assert_eq!(second.wait_until_filled(), WaitStep::Proceed);
    assert_eq!(second.get_resource(), &resource);
    assert_eq!(second.get_resource(), first.get_resource());
    assert!(pool.wait_list_empty());
    assert_eq!(amounts(&pool), (1024, 0, 0));

    pool.reclaim(second.resource.ptr);
    assert_eq!(amounts(&pool), (0, 1024, 0));
}

#[test]
fn block_in_use_stays_in_use_until_it_is_returned() {
    let mut pool = ResourcePool::new(1000);
    let kept = ptr_of(&mut pool, 100);
    for size in [50usize, 100, 200, 800, 90, 100] {
        if let Ok(response) = pool.allocate(size) {
            assert_ne!(response.resource.ptr, kept);
            pool.reclaim(response.resource.ptr);
        }
        assert!(pool.in_use.contains_key(&kept));
    }
    pool.shutdown();
    assert!(pool.in_use.contains_key(&kept));
    pool.reclaim(kept);
}

#[test]
fn requests_sort_by_size() {
    for (a, b) in [(1usize, 2usize), (2, 1), (7, 7), (0, usize::MAX)] {
        let (x, y) = (ResourceRequest::new(a), ResourceRequest::new(b));
        assert_eq!(x.partial_cmp(&y), Some(a.cmp(&b)));
        assert_eq!(x.cmp(&y), a.cmp(&b));
        assert_eq!((x < y, x == y), (a < b, a == b));
    }
}

#[test]
fn requests_of_one_size_have_places_of_their_own() {
    let mut pool = ResourcePool::new(100);
    let a = ptr_of(&mut pool, 100);
    pool.allocate(90).unwrap();
    pool.allocate(90).unwrap();
    assert_eq!(pool.wait_list_size(), 2);
    assert_eq!(pool.amount_in_waiting, 180);
    assert_eq!(pool.reclaim(a), Some(Resource::new(a, 90)));
    assert_eq!(pool.wait_list_size(), 1);
    assert_eq!(pool.amount_in_waiting, 90);
    assert_eq!(pool.reclaim(a), Some(Resource::new(a, 90)));
    assert_eq!(pool.wait_list_size(), 0);
    assert_eq!(pool.amount_in_waiting, 0);
    assert!(pool.reclaim(a).is_none());
    assert_eq!(amounts(&pool), (0, 100, 0));
}

#[test]
fn two_requests_that_find_the_pool_full_both_wait() {
    let mut pool = ResourcePool::new(1024);
    pool.allocate(1024).unwrap();
    let a = pool.allocate(600).unwrap();
    let b = pool.allocate(600).unwrap();
    assert_eq!(a.state, ResourceRequestState::Waiting);
    assert_eq!(b.state, ResourceRequestState::Waiting);
    assert_eq!(pool.wait_list_size(), 2);
    assert_eq!(pool.amount_in_waiting, 1200);
}

#[test]
fn announced_memory_is_there_however_often_it_is_announced() {
    let mut response = ResourceResponse::new_waiting(Resource::new(9, 10));
    assert_eq!(response.wait_until_filled(), WaitStep::Sleep);
    for _ in 0..2 {
        response.notify_filled();
        assert_eq!(response.wait_until_filled(), WaitStep::Proceed);
        assert_eq!(response.resource, Resource::new(9, 10));
    }
}

#[test]
fn responses_compare_by_their_resource_alone() {
    let small = ResourceResponse::new_waiting(Resource::new(9, 10));
    let mut same = ResourceResponse::new_waiting(Resource::new(9, 10));
    same.notify_filled();
    let large = ResourceResponse::new_filled(Resource::new(1, 11));
    assert_eq!(same.state, ResourceRequestState::Filled);
    assert!(small == same);
    assert!(small < large && large > same);
    assert_eq!(small.cmp(&large), Ordering::Less);
    assert_eq!(small.cmp(&same), Ordering::Equal);
}

#[test]
fn resources_sort_by_size_and_by_address_within_a_size() {
    let sorted =
        [Resource::new(9, 1), Resource::new(0, 2), Resource::new(5, 2), Resource::new(1, 3)];
    for (i, a) in sorted.iter().enumerate() {
        for (j, b) in sorted.iter().enumerate() {
            assert_eq!(a.cmp(b), i.cmp(&j));
            assert_eq!(a.partial_cmp(b), Some(i.cmp(&j)));
            assert_eq!(Ord::cmp(a, b), i.cmp(&j));
            assert_eq!(a == b, i == j);
        }
    }
}

#[test]
fn long_traffic_keeps_the_books() {
    for threshold in [0.0f32, 0.8] {
        let capacity: usize = 2000;
        let mut pool = ResourcePool::with_threshold(capacity, threshold.to_bits());
        let mut live: Vec<usize> = Vec::new();
        let mut unserved: usize = 0;
        let mut state: u64 = 99;
        for _ in 0..5000 {
            state = state.wrapping_mul(6364136223846793005).wrapping_add(1442695040888963407);
            let random = (state >> 33) as usize;
            if random % 5 < 3 {
                let response = pool.allocate(1 + random / 8 % 200).unwrap();
                match response.wait_until_filled() {
                    WaitStep::Proceed => live.push(response.resource.ptr),
                    WaitStep::Sleep => unserved += 1,
                }
            } else if !live.is_empty() {
                let ptr = live.swap_remove(random / 8 % live.len());
                if let Some(reply) = pool.reclaim(ptr) {
                    live.push(reply.ptr);
                    unserved -= 1;
                }
            }
            assert_eq!(pool.wait_list_size(), unserved);
            assert!(pool.current_size() <= capacity);
            assert_eq!(pool.in_use.len(), live.len());
            assert_eq!(pool.reserve.len(), pool.order.len());
        }
        while let Some(ptr) = live.pop() {
            if let Some(reply) = pool.reclaim(ptr) {
                live.push(reply.ptr);
            }
        }
        assert_eq!(pool.amount_in_use, 0);
        assert!(pool.in_use.is_empty());
        assert_eq!(pool.amount_in_reserve, pool.current_size());
        assert!(pool.current_size() <= capacity);
        let places = 0..pool.wait_list_size();
        let left: usize = places.map(|i| pool.wait_queue.request_at(i).size).sum();
        assert_eq!(pool.amount_in_waiting, left);
    }
}
