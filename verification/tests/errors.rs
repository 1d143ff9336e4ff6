//! Every way in which a pool refuses a request, and the texts of the errors.

use resource_pool::{Resource, ResourcePool, ResourcePoolError, ResourceRequest};

#[test]
fn a_listed_block_that_is_not_kept_is_unavailable() {
    let mut pool = ResourcePool::new(1024);
    pool.order.insert(Resource::new(7, 64), ());
    pool.amount_in_reserve = 64;
    let found = pool.check_for_existing_resources(ResourceRequest::new(64)).unwrap();
    let result = pool.reuse_pool_memory(found);
    assert!(matches!(result, Err(ResourcePoolError::ResourcesFoundButUnexpectedlyUnavailable)));
    assert_eq!(pool.order.len(), 1);
    assert_eq!(pool.amount_in_reserve, 64);
}

#[test]
fn a_kept_block_that_is_not_listed_is_refused() {
    let mut pool = ResourcePool::new(1024);
    pool.reserve.insert(7, vec![0u8; 64]);
    pool.amount_in_reserve = 64;
    let result = pool.reuse_pool_memory(Resource::new(7, 64));
    assert!(matches!(result, Err(ResourcePoolError::UnallocatedMemoryUnexpectedlyInOrderingMap)));
    assert!(pool.reserve.is_empty());
    assert_eq!(pool.amount_in_reserve, 64);
}

#[test]
fn a_kept_block_that_is_in_use_is_refused() {
    let mut pool = ResourcePool::new(1024);
    pool.reserve.insert(7, vec![1u8; 64]);
    pool.order.insert(Resource::new(7, 64), ());
    pool.in_use.insert(7, vec![2u8; 64]);
    pool.amount_in_use = 64;
    pool.amount_in_reserve = 64;
    let result = pool.reuse_pool_memory(Resource::new(7, 64));
    assert!(matches!(result, Err(ResourcePoolError::AllocatedBlockAlreadyInUse)));
    assert!(pool.reserve.is_empty());
    assert!(pool.order.is_empty());
    assert_eq!(pool.in_use.remove(&7), Some((7, vec![1u8; 64])));
    assert_eq!((pool.amount_in_use, pool.amount_in_reserve), (64, 64));
}

#[test]
fn a_new_block_needs_room() {
    let mut pool = ResourcePool::new(100);
    pool.allocate(40).unwrap();
    let result = pool.allocate_fresh_memory(ResourceRequest::new(61));
    match result {
        Err(ResourcePoolError::ResourcePoolOutOfMemory(request)) => assert_eq!(request.size, 61),
        _ => panic!("61 bytes do not fit beside 40"),
    }
    assert_eq!(pool.amount_in_use, 40);
    assert!(pool.allocate_fresh_memory(ResourceRequest::new(60)).is_ok());
    assert_eq!(pool.current_size(), 100);
}

#[test]
fn room_is_judged_without_wrapping_around() {
    let mut pool = ResourcePool::new(1024);
    pool.allocate(64).unwrap();
    let result = pool.allocate_fresh_memory(ResourceRequest::new(usize::MAX));
    assert!(matches!(result, Err(ResourcePoolError::ResourcePoolOutOfMemory(_))));
}

#[test]
fn a_system_without_memory_makes_an_allocation_fail() {
    let mut pool = ResourcePool::new(usize::MAX);
    let result = pool.allocate(usize::MAX);
    assert!(matches!(result, Err(ResourcePoolError::AllocationFailed)));
    assert_eq!(pool.current_size(), 0);
    assert!(pool.in_use.is_empty());
    assert!(pool.wait_list_empty());

    let result = pool.hand_out_fresh_block(0, Vec::new());
    assert!(matches!(result, Err(ResourcePoolError::AllocationFailed)));
}

#[test]
fn a_new_block_at_a_held_address_is_refused() {
    let mut pool = ResourcePool::new(1024);
    assert!(pool.hand_out_fresh_block(16, vec![1, 2, 3]).is_ok());
    let result = pool.hand_out_fresh_block(16, vec![4, 5]);
    assert!(matches!(result, Err(ResourcePoolError::AllocatedBlockAlreadyInUse)));
    assert_eq!(pool.amount_in_use, 3);

    pool.reclaim(16);
    let result = pool.hand_out_fresh_block(16, vec![4, 5]);
    assert!(matches!(result, Err(ResourcePoolError::AllocatedBlockAlreadyInUse)));
    assert_eq!(pool.reserve.remove(&16), Some((16, vec![1, 2, 3])));
}

#[test]
fn errors_have_texts() {
    let texts = [
        ResourcePoolError::AllocationFailed.message(),
        ResourcePoolError::ResourcePoolOutOfMemory(ResourceRequest::new(5)).message(),
        ResourcePoolError::ResourcesFoundButUnexpectedlyUnavailable.message(),
        ResourcePoolError::AllocatedBlockAlreadyInUse.message(),
        ResourcePoolError::UnallocatedMemoryUnexpectedlyInOrderingMap.message(),
        ResourcePoolError::UnknownError.message(),
    ];
    assert_eq!(
        texts,
        [
            "Failed to allocate resources",
            "Resource pool has no more resources to allocate.",
            "Resource pool found a suitable block of memory but it was unexpectedly unavailable",
            "Allocated block of memory already in use.",
            "Pointer to memory was unexpectedly found in the ordering map.",
            "Error occured whilst allocating memory from the resource pool",
        ]
    );
}
