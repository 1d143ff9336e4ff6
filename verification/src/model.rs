//! What a pool is, as mathematics: its state, when that state is sound, and what each step of the
//! pool makes of it.

use crate::binary32;
use crate::blocks;
use crate::ordered_map;
use crate::ordered_map::SortKey;
use crate::resource::{
    Resource, ResourcePoolError, ResourceRequest, ResourceRequestState, ResourceResponse,
};
use crate::wait_queue;
use crate::weight;
use vstd::prelude::*;

verus! {

/// The state of a pool.
#[verifier::ext_equal]
pub struct PoolModel {
    /// The most bytes that the pool may hold.
    pub max_capacity: nat,
    /// The bytes that are handed out.
    pub amount_in_use: nat,
    /// The bytes that came back and are kept for another request.
    pub amount_in_reserve: nat,
    /// The bytes that callers wait for.
    pub amount_in_waiting: nat,
    /// How full a request must make a block to get it, as the encoding of a single.
    pub recycling_threshold: u32,
    /// The blocks that are handed out, by address.
    pub in_use: Map<usize, Seq<u8>>,
    /// The blocks that are kept, by address.
    pub reserve: Map<usize, Seq<u8>>,
    /// The blocks that are kept, by size and address.
    pub order: Map<Resource, ()>,
    /// The requests that wait, sorted by size, those of one size in the order in which they came.
    pub wait_queue: Seq<ResourceRequest>,
    /// Whether the pool was told to shut down.
    pub shut_down: bool,
}

/// The bytes of all blocks of a map.
pub open spec fn total_bytes(blocks: Map<usize, Seq<u8>>) -> nat {
    weight::weight(blocks, |ptr: usize, block: Seq<u8>| block.len())
}

/// The response that a request of `size` bytes waits with.
pub open spec fn waiting_response(size: usize) -> ResourceResponse {
    ResourceResponse {
        resource: Resource { size, ptr: 0 },
        state: ResourceRequestState::Waiting,
    }
}

/// The response that hands a resource out.
pub open spec fn filled_response(resource: Resource) -> ResourceResponse {
    ResourceResponse { resource, state: ResourceRequestState::Filled }
}

/// `r` is the smallest listed block that can hold `size` bytes, at the lowest address if there are
/// several, and `size` bytes fill it up to the threshold.
pub open spec fn is_suitable(
    order: Map<Resource, ()>,
    size: usize,
    threshold: u32,
    r: Resource,
) -> bool {
    &&& ordered_map::is_first_at_least(order, (Resource { size, ptr: 0 }), r)
    &&& binary32::fills(size as nat, r.size as nat, threshold)
}

/// The listed block that a request for `size` bytes gets, if there is one.
pub open spec fn suitable(order: Map<Resource, ()>, size: usize, threshold: u32) -> Option<
    Resource,
> {
    if exists|r: Resource| is_suitable(order, size, threshold, r) {
        Some(choose|r: Resource| is_suitable(order, size, threshold, r))
    } else {
        None
    }
}

/// The place `i` is that of the oldest among the largest waiting requests that fit into a block of
/// `size` bytes, and its request fills the block up to the threshold.
pub open spec fn is_match(
    queue: Seq<ResourceRequest>,
    size: usize,
    threshold: u32,
    i: int,
) -> bool {
    &&& wait_queue::is_oldest_of_largest(queue, size, i)
    &&& binary32::fills(queue[i].size as nat, size as nat, threshold)
}

/// The place in the queue that a block of `size` bytes goes to, if there is one.
pub open spec fn matching(
    queue: Seq<ResourceRequest>,
    size: usize,
    threshold: u32,
) -> Option<int> {
    if exists|i: int| is_match(queue, size, threshold, i) {
        Some(choose|i: int| is_match(queue, size, threshold, i))
    } else {
        None
    }
}

impl PoolModel {
    /// A pool that has nothing yet.
    pub open spec fn empty(max_capacity: nat, recycling_threshold: u32) -> PoolModel {
        PoolModel {
            max_capacity,
            amount_in_use: 0,
            amount_in_reserve: 0,
            amount_in_waiting: 0,
            recycling_threshold,
            in_use: Map::empty(),
            reserve: Map::empty(),
            order: Map::empty(),
            wait_queue: Seq::empty(),
            shut_down: false,
        }
    }

    /// The bytes that the pool holds, handed out or kept.
    pub open spec fn current_size(self) -> nat {
        self.amount_in_use + self.amount_in_reserve
    }

    /// The pool stays within its capacity, its amounts are those of its blocks, no block is both
    /// handed out and kept, no block lies at the null address, what is listed is what is kept, and
    /// the queue is sorted, and the bytes that its requests ask for are counted.
    pub open spec fn wf(self) -> bool {
        &&& self.max_capacity <= usize::MAX
        &&& self.amount_in_waiting <= usize::MAX
        &&& self.current_size() <= self.max_capacity
        &&& self.in_use.dom().finite()
        &&& self.reserve.dom().finite()
        &&& self.amount_in_use == total_bytes(self.in_use)
        &&& self.amount_in_reserve == total_bytes(self.reserve)
        &&& self.amount_in_waiting == wait_queue::total_requested(self.wait_queue)
        &&& forall|ptr: usize|
            !(#[trigger] self.in_use.contains_key(ptr) && self.reserve.contains_key(ptr))
        &&& !self.in_use.contains_key(0)
        &&& !self.reserve.contains_key(0)
        &&& forall|r: Resource| #[trigger]
            self.order.contains_key(r) <==> self.reserve.contains_key(r.ptr)
                && self.reserve[r.ptr].len() == r.size
        &&& wait_queue::is_sorted(self.wait_queue)
    }

    /// Whether a new block of `size` bytes stays within the capacity.
    pub open spec fn has_room(self, size: nat) -> bool {
        self.current_size() + size <= self.max_capacity
    }

    /// The kept block that a request for `size` bytes gets.
    pub open spec fn reusable(self, size: usize) -> Option<Resource> {
        suitable(self.order, size, self.recycling_threshold)
    }

    /// Whether a request for `size` bytes has to wait: no kept block suits it, and there is no
    /// room for a new one.
    pub open spec fn must_wait(self, size: usize) -> bool {
        self.reusable(size) is None && !self.has_room(size as nat)
    }

    /// The pool after the kept block `r` was handed out again.
    pub open spec fn after_reuse(self, r: Resource) -> PoolModel {
        PoolModel {
            amount_in_use: self.amount_in_use + r.size as nat,
            amount_in_reserve: (self.amount_in_reserve - r.size) as nat,
            in_use: self.in_use.insert(r.ptr, self.reserve[r.ptr]),
            reserve: self.reserve.remove(r.ptr),
            order: self.order.remove(r),
            ..self
        }
    }

    /// Why the block `r` cannot be handed out again, if it cannot: it is not kept, it is kept but
    /// not listed, or its address is handed out already.
    pub open spec fn reuse_error(self, r: Resource) -> Option<ResourcePoolError> {
        if !self.reserve.contains_key(r.ptr) {
            Some(ResourcePoolError::ResourcesFoundButUnexpectedlyUnavailable)
        } else if !self.order.contains_key(r) {
            Some(ResourcePoolError::UnallocatedMemoryUnexpectedlyInOrderingMap)
        } else if self.in_use.contains_key(r.ptr) {
            Some(ResourcePoolError::AllocatedBlockAlreadyInUse)
        } else {
            None
        }
    }

    /// The pool after an attempt to hand the block `r` out again. An attempt that fails has taken
    /// the block out of the maps that it went through, and has left the amounts alone.
    pub open spec fn after_reuse_attempt(self, r: Resource) -> PoolModel {
        match self.reuse_error(r) {
            None => self.after_reuse(r),
            Some(ResourcePoolError::ResourcesFoundButUnexpectedlyUnavailable) => self,
            Some(ResourcePoolError::UnallocatedMemoryUnexpectedlyInOrderingMap) => PoolModel {
                reserve: self.reserve.remove(r.ptr),
                ..self
            },
            Some(_) => PoolModel {
                in_use: self.in_use.insert(r.ptr, self.reserve[r.ptr]),
                reserve: self.reserve.remove(r.ptr),
                order: self.order.remove(r),
                ..self
            },
        }
    }

    /// Why a new block at `ptr` cannot be handed out, if it cannot: there is none, or the pool
    /// holds a block at that address already.
    pub open spec fn fresh_error(self, ptr: usize) -> Option<ResourcePoolError> {
        if ptr == 0 {
            Some(ResourcePoolError::AllocationFailed)
        } else if self.in_use.contains_key(ptr) || self.reserve.contains_key(ptr) {
            Some(ResourcePoolError::AllocatedBlockAlreadyInUse)
        } else {
            None
        }
    }

    /// The pool after a new block was handed out.
    pub open spec fn after_fresh(self, ptr: usize, block: Seq<u8>) -> PoolModel {
        PoolModel {
            amount_in_use: self.amount_in_use + block.len(),
            in_use: self.in_use.insert(ptr, block),
            ..self
        }
    }

    /// The pool after a request for `size` bytes was put into the queue, behind all that ask for as
    /// much or less.
    pub open spec fn after_enqueue(self, size: usize) -> PoolModel {
        PoolModel {
            amount_in_waiting: self.amount_in_waiting + size as nat,
            wait_queue: self.wait_queue.insert(
                wait_queue::end_of(self.wait_queue, size) as int,
                ResourceRequest { size },
            ),
            ..self
        }
    }

    /// The pool after a request for `size` bytes, where `answer` is the address that the system
    /// gives a new block, should one be asked for, and null if it has none.
    pub open spec fn after_allocate(self, size: usize, answer: usize) -> PoolModel {
        match self.reusable(size) {
            Some(r) => self.after_reuse(r),
            None => if self.must_wait(size) {
                self.after_enqueue(size)
            } else if self.fresh_error(answer) is None {
                self.after_fresh(answer, blocks::zeros(size as nat))
            } else {
                self
            },
        }
    }

    /// The place in the queue whose request gets the block at `ptr` when that block comes back.
    pub open spec fn next_owner(self, ptr: usize) -> Option<int> {
        if self.in_use.contains_key(ptr) {
            matching(self.wait_queue, self.in_use[ptr].len() as usize, self.recycling_threshold)
        } else {
            None
        }
    }

    /// The pool after the block at `ptr` came back. A block that nobody holds does not come back.
    /// One that suits a waiting request goes to that request, which leaves the queue; any other is
    /// kept.
    pub open spec fn after_reclaim(self, ptr: usize) -> PoolModel {
        if !self.in_use.contains_key(ptr) {
            self
        } else {
            match self.next_owner(ptr) {
                Some(i) => PoolModel {
                    amount_in_waiting: (self.amount_in_waiting - self.wait_queue[i].size) as nat,
                    wait_queue: self.wait_queue.remove(i),
                    ..self
                },
                None => {
                    let block = self.in_use[ptr];
                    PoolModel {
                        amount_in_use: (self.amount_in_use - block.len()) as nat,
                        amount_in_reserve: self.amount_in_reserve + block.len(),
                        in_use: self.in_use.remove(ptr),
                        reserve: self.reserve.insert(ptr, block),
                        order: self.order.insert(Resource { size: block.len() as usize, ptr }, ()),
                        ..self
                    }
                },
            }
        }
    }

    /// The resource that a waiting request is answered with when the block at `ptr` comes back: the
    /// block, under the size that was asked for.
    pub open spec fn reclaim_reply(self, ptr: usize) -> Option<Resource> {
        match self.next_owner(ptr) {
            Some(i) => Some(Resource { size: self.wait_queue[i].size, ptr }),
            None => None,
        }
    }
}

/// At most one block is suitable, so `suitable` is it.
pub proof fn lemma_suitable(order: Map<Resource, ()>, size: usize, threshold: u32, r: Resource)
    requires
        is_suitable(order, size, threshold, r),
    ensures
        suitable(order, size, threshold) == Some(r),
{
    let c = choose|c: Resource| is_suitable(order, size, threshold, c);
    assert(is_suitable(order, size, threshold, c));
    assert(order.contains_key(r) && order.contains_key(c));
    Resource::rank_is_injective(r, c);
}

/// If the smallest block that is large enough is not filled far enough, none is suitable.
pub proof fn lemma_not_suitable(
    order: Map<Resource, ()>,
    size: usize,
    threshold: u32,
    nearest: Resource,
)
    requires
        ordered_map::is_first_at_least(order, (Resource { size, ptr: 0 }), nearest),
        !binary32::fills(size as nat, nearest.size as nat, threshold),
    ensures
        suitable(order, size, threshold) is None,
{
    assert forall|r: Resource| !is_suitable(order, size, threshold, r) by {
        if is_suitable(order, size, threshold, r) {
            assert(order.contains_key(r) && order.contains_key(nearest));
            Resource::rank_is_injective(r, nearest);
        }
    }
}

/// At most one place matches, so `matching` is it.
pub proof fn lemma_matching(
    queue: Seq<ResourceRequest>,
    size: usize,
    threshold: u32,
    i: int,
)
    requires
        is_match(queue, size, threshold, i),
    ensures
        matching(queue, size, threshold) == Some(i),
{
    let c = choose|c: int| is_match(queue, size, threshold, c);
    assert(is_match(queue, size, threshold, c));
    assert(queue[i].size == queue[c].size);
}

/// If the largest request that fits does not fill the block far enough, no place matches.
pub proof fn lemma_no_match(
    queue: Seq<ResourceRequest>,
    size: usize,
    threshold: u32,
    nearest: int,
)
    requires
        wait_queue::is_oldest_of_largest(queue, size, nearest),
        !binary32::fills(queue[nearest].size as nat, size as nat, threshold),
    ensures
        matching(queue, size, threshold) is None,
{
    assert forall|i: int| !is_match(queue, size, threshold, i) by {
        if is_match(queue, size, threshold, i) {
            assert(queue[i].size == queue[nearest].size);
        }
    }
}

} // verus!
