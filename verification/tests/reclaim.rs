//! What becomes of a block that comes back.

use resource_pool::{
    Resource, ResourcePool, ResourceRequest, ResourceRequestState, ResourceResponse,
};

fn add_block_to_pool(pool: &mut ResourcePool, size: usize) -> usize {
    let block = vec![0u8; size];
    let ptr = block.as_ptr() as usize;
    pool.in_use.insert(ptr, block);
    pool.amount_in_use += size;
    ptr
}

fn add_waiting_request(pool: &mut ResourcePool, size: usize) -> ResourceResponse {
    pool.wait_queue.insert(ResourceRequest::new(size));
    pool.amount_in_waiting += size;
    ResourceResponse::new_waiting(Resource::new(0, size))
}

/// Puts a block of `block_size` bytes in use and a request of `request_size` bytes into the queue,
/// takes the block back, and checks that it goes to the request just when it should.
fn check_reclaim(pool_capacity: usize, threshold: f32, block_size: usize, request_size: usize) {
    let mut pool = ResourcePool::with_threshold(pool_capacity, threshold.to_bits());
    let ptr = add_block_to_pool(&mut pool, block_size);
    let mut resource_response = add_waiting_request(&mut pool, request_size);

    let proportion_full: f32 = request_size as f32 / block_size as f32;
    let block_should_be_reassigned: bool = threshold <= proportion_full && proportion_full <= 1.0;
    let (expected_in_use, expected_in_reserve) =
        if block_should_be_reassigned { (block_size, 0) } else { (0, block_size) };

    let reply = pool.reclaim(ptr);
    if let Some(resource) = reply {
        assert_eq!(resource, Resource::new(ptr, request_size));
        resource_response.fill(resource.ptr);
    }

    if block_should_be_reassigned {
        assert_eq!(resource_response.state, ResourceRequestState::Filled);
        assert_eq!(resource_response.get_resource_ptr(), ptr);
        assert_eq!(resource_response.get_resource().size, request_size);
        assert!(pool.wait_list_empty());
        assert_eq!(pool.amount_in_waiting, 0);
        assert!(pool.in_use.contains_key(&ptr));
    } else {
        assert_eq!(resource_response.state, ResourceRequestState::Waiting);
        assert_eq!(resource_response.get_resource_ptr(), 0);
        assert_eq!(pool.wait_list_size(), 1);
        assert_eq!(pool.amount_in_waiting, request_size);
        assert!(pool.reserve.contains_key(&ptr));
    }

    assert_eq!(pool.amount_in_reserve, expected_in_reserve);
    assert_eq!(pool.amount_in_use, expected_in_use);
}

#[test]
fn test_reclaim_no_request_waiting() {
    let mut pool = ResourcePool::new(1024);
    let size: usize = 512;
    let ptr = add_block_to_pool(&mut pool, size);

    pool.reclaim(ptr);

    assert!(pool.reserve.contains_key(&ptr));
    assert!(pool.in_use.is_empty());
    assert_eq!(pool.amount_in_reserve, size);
    assert_eq!(pool.amount_in_use, 0);
}

#[test]
fn test_reclaim_request_with_exact_match_scenario() {
    check_reclaim(1024, 0.8, 512, 512);
}

#[test]
fn test_reclaim_request_with_exact_match2() {
    check_reclaim(1024, 0.8, 1024, 1024);
}

#[test]
fn test_reclaim_request_above_threshold() {
    // 512 * 0.8 = 409.6
    check_reclaim(1024, 0.8, 512, 420);
}

#[test]
fn test_reclaim_request_under_threshold() {
    check_reclaim(1024, 0.8, 512, 400);
}

#[test]
fn test_reclaim_request_too_big() {
    check_reclaim(1024, 0.8, 512, 600);
}

#[test]
fn test_reclaim_with_multiple_waiting_requests() {
    let block_size: usize = 512;
    let mut pool = ResourcePool::with_threshold(1024, 0.8f32.to_bits());
    let ptr = add_block_to_pool(&mut pool, block_size);

    let request_size_1: usize = 420; // within threshold
    let request_size_2: usize = 400; // below threshold
    let mut resource_response_1 = add_waiting_request(&mut pool, request_size_1);
    let resource_response_2 = add_waiting_request(&mut pool, request_size_2);

    let resource = pool.reclaim(ptr).expect("The first request should be answered");
    assert_eq!(resource.size, request_size_1);
    resource_response_1.fill(resource.ptr);

    assert_eq!(resource_response_1.state, ResourceRequestState::Filled);
    assert_eq!(resource_response_1.get_resource_ptr(), ptr);
    assert_eq!(resource_response_2.state, ResourceRequestState::Waiting);
    assert_eq!(pool.wait_list_size(), 1);
    assert_eq!(pool.wait_queue.request_at(0).size, request_size_2);
    assert!(pool.in_use.contains_key(&ptr));
    assert_eq!(pool.amount_in_reserve, 0);
    assert_eq!(pool.amount_in_use, block_size);
}

#[test]
fn test_reclaim_with_zero_threshold() {
    check_reclaim(1024, 0.0, 512, 10);
}

#[test]
fn test_reclaim_with_exact_threshold_match() {
    let threshold: f32 = 0.8;
    let block_size: usize = 512;
    let request_size = (block_size as f32 * threshold).ceil() as usize;

    check_reclaim(1024, threshold, block_size, request_size);
}

fn pool_with_queue(threshold: f32) -> (ResourcePool, usize) {
    let mut pool = ResourcePool::with_threshold(4096, threshold.to_bits());
    let ptr = add_block_to_pool(&mut pool, 1000);
    for size in [512, 800, 900, 950, 1052] {
        add_waiting_request(&mut pool, size);
    }
    (pool, ptr)
}

#[test]
fn block_goes_to_the_largest_request_that_fits() {
    let (mut pool, ptr) = pool_with_queue(0.8);
    assert_eq!(pool.reclaim(ptr), Some(Resource::new(ptr, 950)));
    assert_eq!(pool.wait_list_size(), 4);
    assert_eq!(pool.amount_in_waiting, 512 + 800 + 900 + 1052);
    let left: Vec<usize> = (0..4).map(|i| pool.wait_queue.request_at(i).size).collect();
    assert_eq!(left, vec![512, 800, 900, 1052]);
}

#[test]
fn no_smaller_request_is_tried_after_the_largest_fails() {
    let (mut pool, ptr) = pool_with_queue(0.97);
    assert!(pool.reclaim(ptr).is_none());
    assert_eq!(pool.wait_list_size(), 5);
    assert_eq!(pool.amount_in_reserve, 1000);
    let place = pool.find_waiting_request(951).unwrap();
    assert_eq!(pool.wait_queue.request_at(place), ResourceRequest::new(950));
    assert_eq!(pool.find_waiting_request(511), None);
}

#[test]
fn one_block_serves_a_queue_one_request_after_the_other() {
    let (mut pool, ptr) = pool_with_queue(0.0);
    let mut served = Vec::new();
    while let Some(reply) = pool.reclaim(ptr) {
        served.push(reply.size);
    }
    assert_eq!(served, vec![950, 900, 800, 512]);
    assert_eq!(pool.wait_list_size(), 1);
    assert_eq!(pool.amount_in_waiting, 1052);
    assert_eq!(pool.amount_in_use, 0);
    assert_eq!(pool.amount_in_reserve, 1000);
}
