//! Allocation, release and reuse.

use resource_pool::{Resource, ResourcePool, ResourceRequest};

#[test]
fn test_allocate_and_release() {
    let mut pool = ResourcePool::new(1024 * 100);

    let size: usize = 10 * 1024;
    if let Ok(response) = pool.allocate(size) {
        let ptr = response.resource.ptr;
        assert!(ptr != 0, "Failed to allocate memory");

        pool.reclaim(ptr);

        assert!(pool.reserve.contains_key(&ptr), "Memory not found in reserve map");
    } else {
        panic!("Failed to allocate memory");
    }
}

#[test]
fn test_reuse_reserved_memory() {
    let mut pool = ResourcePool::with_threshold(1024 * 100, 0.8f32.to_bits());

    assert_eq!(pool.current_size(), 0, "Pool size should be initially empty");
    assert_eq!(pool.amount_in_use, 0, "Pool size should be initially empty");
    assert_eq!(pool.amount_in_reserve, 0, "Pool size should be initially empty");
    assert!(pool.order.is_empty(), "Pool size should be initially empty");
    assert!(pool.in_use.is_empty(), "Pool size should be initially empty");
    assert!(pool.reserve.is_empty(), "Pool size should be initially empty");

    let size: usize = 10 * 1024;
    if let Ok(response) = pool.allocate(size) {
        let ptr = response.resource.ptr;

        assert_eq!(pool.current_size(), size);
        assert_eq!(pool.amount_in_use, size, "Incorrect amount of data in use");
        assert_eq!(pool.amount_in_reserve, 0, "Data in reserve, expected nothing");
        assert_eq!(pool.order.len(), 0, "The memory is still in use");
        assert_eq!(pool.in_use.len(), 1, "There should be one entry in the in-use map");
        assert_eq!(pool.reserve.len(), 0, "Reserve should be empty");

        pool.reclaim(ptr);

        assert_eq!(pool.current_size(), size, "The pool size has not changed");
        assert_eq!(pool.amount_in_use, 0, "The amount in use is now 0");
        assert_eq!(pool.amount_in_reserve, size, "There is now size data in reserve");
        assert_eq!(pool.order.len(), 1, "There should be one entry in reserve");
        assert_eq!(pool.in_use.len(), 0, "Should be empty");
        assert_eq!(pool.reserve.len(), 1, "Reserve should have 1 entry.");

        // 9 KB fill nine tenths of the block, which is reused as a whole.
        let new_size: usize = 9 * 1024;
        if let Ok(new_response) = pool.allocate(new_size) {
            let new_ptr = new_response.resource.ptr;
            assert_eq!(ptr, new_ptr, "Memory was not reused from the reserve map");

            assert_eq!(pool.current_size(), size, "The pool size has not changed");
            assert_eq!(pool.amount_in_use, size, "The whole block is in use");
            assert_eq!(pool.amount_in_reserve, 0, "There is now no data in reserve");
            assert_eq!(pool.order.len(), 0, "The block should be back in use");
            assert_eq!(pool.in_use.len(), 1, "Should have 1 entry");
            assert_eq!(pool.reserve.len(), 0, "Reserve should have 0 entry.");
        } else {
            panic!("Failed to allocate memory");
        }

        pool.reclaim(ptr);

        assert_eq!(pool.current_size(), size, "The pool size has not changed");
        assert_eq!(pool.amount_in_use, 0, "The amount in use is now 0");
        assert_eq!(pool.amount_in_reserve, size, "There is now size data in reserve");
        assert_eq!(pool.order.len(), 1, "There should be one entry in reserve");
        assert_eq!(pool.in_use.len(), 0, "Should be empty");
        assert_eq!(pool.reserve.len(), 1, "Reserve should have 1 entry.");

        // 6 KB do not fill the block far enough, so fresh memory is allocated.
        let new_size: usize = 6 * 1024;
        if let Ok(new_response) = pool.allocate(new_size) {
            let new_ptr = new_response.resource.ptr;

            assert_ne!(ptr, new_ptr, "Fresh memory was not allocated");

            assert_eq!(pool.current_size(), size + new_size, "The pool size has changed");
            assert_eq!(pool.amount_in_use, new_size, "The buffer has not been reused");
            assert_eq!(pool.amount_in_reserve, size, "The original buffer is still in reserve");
            assert_eq!(pool.order.len(), 1, "The block should size 1");
            assert_eq!(pool.in_use.len(), 1, "Should have 1 entry");
            assert_eq!(pool.reserve.len(), 1, "Reserve should have 1 entry.");
        } else {
            panic!("Failed to allocate memory");
        }
    } else {
        panic!("Failed to allocate memory");
    }
}

#[test]
fn test_allocate__resource_pool_is_empty() {
    let max_capacity: usize = 1024;
    let mut pool = ResourcePool::new(max_capacity);

    assert_eq!(pool.max_capacity, 1024);
    assert_eq!(pool.amount_in_use, 0);
    assert_eq!(pool.amount_in_reserve, 0);
    assert_eq!(pool.current_size(), 0);

    if let Ok(response) = pool.allocate(64) {
        let ptr = response.resource.ptr;

        assert!(ptr != 0, "Memory allocation failed");
    }

    assert_eq!(pool.current_size(), 64);
    assert_eq!(pool.amount_in_use, 64);
    assert_eq!(pool.amount_in_reserve, 0);
    assert_eq!(pool.max_capacity, 1024);
}

#[test]
fn test_find_first_sufficient_block_exists() {
    let mut pool = ResourcePool::with_threshold(1024, 0.75f32.to_bits());

    pool.order.insert(Resource::new(0, 64), ());
    pool.order.insert(Resource::new(0, 128), ());
    pool.order.insert(Resource::new(0, 256), ());

    let result = pool.check_for_existing_resources(ResourceRequest::new(48));
    assert!(result.is_some(), "Expected to find a suitable block, but found none.");
    assert_eq!(result.unwrap().size, 64, "Expected to find the block of size 64 bytes.");

    let result = pool.check_for_existing_resources(ResourceRequest::new(80));
    assert!(result.is_none(), "Expected not to find a suitable block, but found one.");

    let result = pool.check_for_existing_resources(ResourceRequest::new(100));
    assert!(result.is_some(), "Expected to find a suitable block, but found none.");
    assert_eq!(result.unwrap().size, 128, "Expected to find the block of size 128 bytes.");
}

#[test]
fn test_find_first_sufficient_block_no_suitable_block() {
    let mut pool = ResourcePool::new(1024);

    pool.order.insert(Resource::new(0, 64), ());
    pool.order.insert(Resource::new(0, 128), ());
    pool.order.insert(Resource::new(0, 256), ());

    let result = pool.check_for_existing_resources(ResourceRequest::new(300));
    assert!(result.is_none(), "Expected to find no suitable block, but found one.");
}

#[test]
fn test_find_first_sufficient_block_exact_match() {
    let mut pool = ResourcePool::new(1024);

    pool.order.insert(Resource::new(0, 64), ());
    pool.order.insert(Resource::new(0, 128), ());
    pool.order.insert(Resource::new(0, 256), ());

    let result = pool.check_for_existing_resources(ResourceRequest::new(128));
    assert!(result.is_some(), "Expected to find a suitable block, but found none.");
    assert_eq!(result.unwrap().size, 128, "Expected to find the block of size 128 bytes.");
}

#[test]
fn test_find_first_sufficient_block_empty_pool() {
    let pool = ResourcePool::new(1024);

    let result = pool.check_for_existing_resources(ResourceRequest::new(128));
    assert!(result.is_none(), "Expected to find no suitable block, but found one.");
}
