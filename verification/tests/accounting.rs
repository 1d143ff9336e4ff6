//! The amounts that a pool keeps account of.

use resource_pool::{ResourcePool, ResourceRequest, ResourceRequestState};

#[test]
fn test_initial_pool_state() {
    let pool = ResourcePool::new(1024);

    assert_eq!(pool.current_size(), 0, "Initial pool size should be 0");
    assert_eq!(pool.amount_in_use, 0, "Initial amount in use should be 0");
    assert_eq!(pool.amount_in_reserve, 0, "Initial amount in reserve should be 0");
    assert!(pool.in_use.is_empty(), "In-use map should be empty");
    assert!(pool.reserve.is_empty(), "Reserve map should be empty");
    assert!(pool.order.is_empty(), "Order map should be empty");
}

#[test]
fn test_allocate_memory() {
    let mut pool = ResourcePool::new(1024);

    let response = pool.allocate(64).expect("Failed to allocate memory");
    assert_eq!(pool.current_size(), 64, "Pool size should be 64 after allocation");
    assert_eq!(pool.amount_in_use, 64, "Amount in use should be 64 after allocation");
    assert_eq!(pool.amount_in_reserve, 0, "Amount in reserve should be 0 after allocation");
    assert_eq!(pool.in_use.len(), 1, "In-use map should contain 1 entry");
    assert!(pool.reserve.is_empty(), "Reserve map should be empty after allocation");
    assert!(pool.order.is_empty(), "Order map should be empty after allocation");

    pool.reclaim(response.resource.ptr);
    assert_eq!(pool.amount_in_use, 0, "Amount in use should be 0 after reclaim");
    assert_eq!(pool.amount_in_reserve, 64, "Amount in reserve should be 64 after reclaim");
    assert!(pool.in_use.is_empty(), "In-use map should be empty after reclaim");
    assert_eq!(pool.reserve.len(), 1, "Reserve map should contain 1 entry");
    assert_eq!(pool.order.len(), 1, "Order map should contain 1 entry");
}

#[test]
fn test_reuse_memory_from_reserve() {
    let mut pool = ResourcePool::new(1024);

    let response = pool.allocate(64).expect("Failed to allocate memory");
    let ptr = response.resource.ptr;
    pool.reclaim(ptr);

    let response2 = pool.allocate(64).expect("Failed to allocate memory");
    assert_eq!(ptr, response2.resource.ptr, "Memory should be reused from reserve");

    assert_eq!(pool.current_size(), 64, "Pool size should remain 64");
    assert_eq!(pool.amount_in_use, 64, "Amount in use should be 64 after re-allocation");
    assert_eq!(pool.amount_in_reserve, 0, "Amount in reserve should be 0 after re-allocation");
    assert_eq!(pool.in_use.len(), 1, "In-use map should contain 1 entry");
    assert!(pool.reserve.is_empty(), "Reserve map should be empty after re-allocation");
    assert!(pool.order.is_empty(), "Order map should be empty after re-allocation");
}

#[test]
fn test_allocate_more_than_pool_capacity() {
    let mut pool = ResourcePool::new(1024);

    let result = pool.allocate(2048);
    assert_eq!(pool.current_size(), 0, "Pool size should remain 0 after failed allocation");
    assert_eq!(pool.amount_in_use, 0, "Amount in use should remain 0 after failed allocation");
    assert_eq!(pool.amount_in_reserve, 0, "Amount in reserve should remain 0");

    // The request waits.
    let response = result.expect("The request should be queued");
    assert_eq!(response.state, ResourceRequestState::Waiting);
    assert_eq!(response.get_resource_ptr(), 0);
    assert_eq!(pool.amount_in_waiting, 2048);
    assert_eq!(pool.wait_list_size(), 1);
    assert_eq!(pool.wait_queue.request_at(0), ResourceRequest::new(2048));
}

#[test]
fn test_allocate_below_threshold() {
    let mut pool = ResourcePool::with_threshold(1024, 0.8f32.to_bits());

    let response = pool.allocate(64).expect("Failed to allocate memory");
    let ptr = response.resource.ptr;
    pool.reclaim(ptr);

    let response2 = pool.allocate(32).expect("Failed to allocate memory");
    assert_ne!(ptr, response2.resource.ptr, "Memory should not be reused due to threshold");

    assert_eq!(pool.current_size(), 96, "Pool size should be 96 after new allocation");
    assert_eq!(pool.amount_in_use, 32, "Amount in use should be 32 after new allocation");
    assert_eq!(pool.amount_in_reserve, 64, "Amount in reserve should remain 64");
    assert_eq!(pool.in_use.len(), 1, "In-use map should contain 1 entry");
    assert_eq!(pool.reserve.len(), 1, "Reserve map should contain 1 entry");
    assert_eq!(pool.order.len(), 1, "Order map should contain 1 entry");
}

#[test]
fn test_allocate_fresh_memory_when_none_in_reserve() {
    let mut pool = ResourcePool::new(1024);

    let response = pool.allocate(64).expect("Failed to allocate memory");
    let ptr = response.resource.ptr;

    let response2 = pool.allocate(64).expect("Failed to allocate memory");
    assert_ne!(ptr, response2.resource.ptr, "Memory should not be reused");

    assert_eq!(pool.current_size(), 128, "Pool size should be 128 after new allocation");
    assert_eq!(pool.amount_in_use, 128, "Amount in use should be 128 after new allocation");
    assert_eq!(pool.amount_in_reserve, 0, "Amount in reserve should be 0 after new allocation");
    assert_eq!(pool.in_use.len(), 2, "In-use map should contain 2 entries");
    assert!(pool.reserve.is_empty(), "Reserve map should be empty after new allocation");
    assert!(pool.order.is_empty(), "Order map should be empty after new allocation");
}

#[test]
fn efficiency_is_the_part_in_use() {
    let mut pool = ResourcePool::new(1024);
    assert_eq!(f32::from_bits(pool.calculate_efficiency()), 0.0);

    let first = pool.allocate(300).expect("Failed to allocate memory");
    assert_eq!(f32::from_bits(pool.calculate_efficiency()), 1.0);

    pool.allocate(100).expect("Failed to allocate memory");
    pool.reclaim(first.resource.ptr);
    assert_eq!(f32::from_bits(pool.calculate_efficiency()), 100.0 / 400.0);

    pool.allocate(600).expect("Failed to allocate memory");
    assert_eq!(f32::from_bits(pool.calculate_efficiency()), 700.0f32 / 1000.0f32);
}

#[test]
fn shutdown_sets_the_signal_and_nothing_else() {
    let mut pool = ResourcePool::new(1024);
    pool.allocate(64).expect("Failed to allocate memory");
    assert!(!pool.shutdown_signal);
    pool.shutdown();
    assert!(pool.shutdown_signal);
    assert_eq!(pool.amount_in_use, 64);
    assert_eq!(pool.in_use.len(), 1);
}

#[test]
fn a_request_would_wait_just_when_it_does() {
    let mut pool = ResourcePool::new(100);
    assert!(!pool.would_wait(100));
    assert!(pool.would_wait(101));
    let ptr = pool.allocate(60).expect("Failed to allocate memory").resource.ptr;
    assert!(!pool.would_wait(40));
    assert!(pool.would_wait(41));
    pool.reclaim(ptr);
    // Four fifths of the kept block are enough to get it.
    assert!(!pool.would_wait(48));
    assert!(pool.would_wait(47));
}
