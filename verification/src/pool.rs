//! The pool itself: it hands memory blocks out, takes them back, and keeps them for reuse.

use crate::binary32;
use crate::blocks;
use crate::blocks::BlockMap;
use crate::laws;
use crate::model;
use crate::model::PoolModel;
use crate::observability;
use crate::ordered_map::OrderedMap;
use crate::resource::{Resource, ResourcePoolError, ResourceRequest, ResourceResponse};
use crate::wait_queue::WaitQueue;
use vstd::prelude::*;

verus! {

/// A pool of memory blocks whose total size never exceeds a capacity.
///
/// A block that comes back is kept, and handed out again to a request that fills it well enough. A
/// request that finds neither a kept block nor room for a new one waits until a block comes back
/// that suits it.
pub struct ResourcePool {
    /// The most bytes that the pool may hold.
    pub max_capacity: usize,
    /// The bytes that are handed out.
    pub amount_in_use: usize,
    /// The bytes that came back and are kept for another request.
    pub amount_in_reserve: usize,
    /// The bytes that callers wait for.
    pub amount_in_waiting: usize,
    /// How full a request must make a block to get it: the encoding of a single, which should lie
    /// between 0 and 1. It is wasteful to hand a block of 1024 bytes out for a request of 64.
    pub recycling_threshold: u32,
    /// The blocks that are handed out, by address.
    pub in_use: BlockMap,
    /// The blocks that are kept, by address.
    pub reserve: BlockMap,
    /// The blocks that are kept, sorted by size and address.
    pub order: OrderedMap<Resource, ()>,
    /// The requests that wait, sorted by size, those of one size in the order in which they came.
    pub wait_queue: WaitQueue,
    /// Whether the pool was told to shut down.
    pub shutdown_signal: bool,
}

impl View for ResourcePool {
    type V = PoolModel;

    open spec fn view(&self) -> PoolModel {
        PoolModel {
            max_capacity: self.max_capacity as nat,
            amount_in_use: self.amount_in_use as nat,
            amount_in_reserve: self.amount_in_reserve as nat,
            amount_in_waiting: self.amount_in_waiting as nat,
            recycling_threshold: self.recycling_threshold,
            in_use: self.in_use@,
            reserve: self.reserve@,
            order: self.order@,
            wait_queue: self.wait_queue@,
            shut_down: self.shutdown_signal,
        }
    }
}

impl ResourcePool {
    /// The maps are sorted, and the state that they stand for is sound.
    pub open spec fn wf(self) -> bool {
        &&& self.order.wf()
        &&& self.wait_queue.wf()
        &&& self@.wf()
    }

    /// A pool that may hold `max_capacity` bytes, holds nothing yet, and reuses a block for
    /// requests that fill four fifths of it.
    pub fn new(max_capacity: usize) -> (pool: Self)
        ensures
            pool.wf(),
            pool@ == PoolModel::empty(max_capacity as nat, binary32::FOUR_FIFTHS),
            pool.max_capacity == max_capacity,
            pool.recycling_threshold == 0x3f4c_cccd,
            pool.amount_in_use == 0 && pool.amount_in_reserve == 0 && pool.amount_in_waiting == 0,
            !pool.shutdown_signal,
            pool.wait_queue@.len() == 0,
            forall|ptr: usize|
                !(#[trigger] pool.in_use@.contains_key(ptr)) && !pool.reserve@.contains_key(ptr),
            forall|r: Resource| !(#[trigger] pool.order@.contains_key(r)),
    {
        Self::with_threshold(max_capacity, binary32::FOUR_FIFTHS)
    }

    /// A pool that reuses a block for requests that fill it up to `recycling_threshold`, which is
    /// given as the encoding of a single.
    pub fn with_threshold(max_capacity: usize, recycling_threshold: u32) -> (pool: Self)
        ensures
            pool.wf(),
            pool@ == PoolModel::empty(max_capacity as nat, recycling_threshold),
            pool.max_capacity == max_capacity,
            pool.recycling_threshold == recycling_threshold,
            pool.amount_in_use == 0 && pool.amount_in_reserve == 0 && pool.amount_in_waiting == 0,
            !pool.shutdown_signal,
            pool.wait_queue@.len() == 0,
            forall|ptr: usize|
                !(#[trigger] pool.in_use@.contains_key(ptr)) && !pool.reserve@.contains_key(ptr),
            forall|r: Resource| !(#[trigger] pool.order@.contains_key(r)),
    {
        let pool: Self = ResourcePool {
            max_capacity,
            amount_in_use: 0,
            amount_in_reserve: 0,
            amount_in_waiting: 0,
            recycling_threshold,
            in_use: BlockMap::new(),
            reserve: BlockMap::new(),
            order: OrderedMap::new(),
            wait_queue: WaitQueue::new(),
            shutdown_signal: false,
        };
        proof {
            laws::law_empty_pool_is_sound(max_capacity, recycling_threshold);
        }
        pool
    }

    /// Takes the block at `ptr` back. A block that the pool has not handed out is left alone.
    ///
    /// The block goes to the largest waiting request that fits into it, the oldest if there are
    /// several of that size, provided that the request fills it up to the threshold: the request
    /// leaves the queue, the whole block stays in use, and the result is the resource that the
    /// response to the request is to be filled with: of the responses that wait for that size, the
    /// oldest. If the request does not fill the block far enough, no smaller one does, so the search
    /// ends there. Otherwise the block is kept for later requests.
    pub fn reclaim(&mut self, ptr: usize) -> (reply: Option<Resource>)
        requires
            old(self).wf(),
        ensures
            final(self).wf(),
            final(self)@ == old(self)@.after_reclaim(ptr),
            reply == old(self)@.reclaim_reply(ptr),
            !old(self).in_use@.contains_key(ptr) ==> reply is None && final(self)@ == old(self)@,
            reply matches Some(resource) ==> {
                &&& resource.ptr == ptr
                &&& old(self).in_use@.contains_key(ptr)
                &&& resource.size <= old(self).in_use@[ptr].len()
                &&& binary32::fills(
                    resource.size as nat,
                    old(self).in_use@[ptr].len(),
                    old(self).recycling_threshold,
                )
                &&& exists|place: int|
                    {
                        &&& 0 <= place < old(self).wait_queue@.len()
                        &&& old(self).wait_queue@[place].size == resource.size
                        &&& final(self).wait_queue@ == #[trigger] old(self).wait_queue@.remove(place)
                    }
                &&& final(self).amount_in_waiting == old(self).amount_in_waiting - resource.size
                &&& final(self).in_use@ == old(self).in_use@
                &&& final(self).reserve@ == old(self).reserve@
                &&& final(self).order@ == old(self).order@
                &&& final(self).amount_in_use == old(self).amount_in_use
                &&& final(self).amount_in_reserve == old(self).amount_in_reserve
            },
            old(self).in_use@.contains_key(ptr) && reply is None ==> {
                let block = old(self).in_use@[ptr];
                &&& final(self).in_use@ == old(self).in_use@.remove(ptr)
                &&& final(self).reserve@ == old(self).reserve@.insert(ptr, block)
                &&& final(self).order@ == old(self).order@.insert(
                    (Resource { size: block.len() as usize, ptr }),
                    (),
                )
                &&& final(self).amount_in_use == old(self).amount_in_use - block.len()
                &&& final(self).amount_in_reserve == old(self).amount_in_reserve + block.len()
                &&& final(self).amount_in_waiting == old(self).amount_in_waiting
                &&& final(self).wait_queue@ == old(self).wait_queue@
                &&& forall|i: int|
                    0 <= i < old(self).wait_queue@.len() && (
                    #[trigger] old(self).wait_queue@[i]).size <= block.len() ==> !binary32::fills(
                        old(self).wait_queue@[i].size as nat,
                        block.len(),
                        old(self).recycling_threshold,
                    )
            },
            final(self).max_capacity == old(self).max_capacity,
            final(self).recycling_threshold == old(self).recycling_threshold,
            final(self).shutdown_signal == old(self).shutdown_signal,
    {
        let ghost before = self@;
        proof {
            laws::law_reclaim_keeps_soundness(before, ptr);
            if before.in_use.contains_key(ptr) {
                laws::law_used_blocks_are_counted(before, ptr);
                laws::law_one_look_at_the_queue_suffices(before, ptr);
            }
            if before.next_owner(ptr) is Some {
                laws::law_matched_request_is_served(before, ptr);
                assert(before.after_reclaim(ptr).wait_queue == before.wait_queue.remove(
                    before.next_owner(ptr)->0,
                ));
            }
        }
        match self.in_use.remove(&ptr) {
            None => {
                assert(self@ =~= before);
                None
            },
            Some((_, block)) => {
                let size: usize = block.len();
                let owner: Option<usize> = self.find_waiting_request(size);
                match owner {
                    Some(place) => {
                        proof {
                            laws::law_next_owner_waits(before, ptr);
                        }
                        let request: ResourceRequest = self.wait_queue.remove(place);
                        self.amount_in_waiting = self.amount_in_waiting - request.size;
                        self.in_use.insert(ptr, block);
                        assert(self@.in_use =~= before.in_use);
                        Some(Resource::new(ptr, request.size))
                    },
                    None => {
                        self.amount_in_use = self.amount_in_use - size;
                        self.amount_in_reserve = self.amount_in_reserve + size;
                        self.order.insert(Resource::new(ptr, size), ());
                        self.reserve.insert(ptr, block);
                        None
                    },
                }
            },
        }
    }

    /// The place in the queue that a block of `size` bytes goes to: that of the oldest among the
    /// largest requests that fit, if its request fills the block up to the threshold.
    pub fn find_waiting_request(&self, size: usize) -> (found: Option<usize>)
        requires
            self.wait_queue.wf(),
        ensures
            model::matching(self@.wait_queue, size, self@.recycling_threshold) == (match found {
                Some(place) => Some(place as int),
                None => None,
            }),
            found matches Some(place) ==> {
                &&& place < self.wait_queue@.len()
                &&& self.wait_queue@[place as int].size <= size
                &&& binary32::fills(
                    self.wait_queue@[place as int].size as nat,
                    size as nat,
                    self.recycling_threshold,
                )
                &&& forall|j: int|
                    0 <= j < self.wait_queue@.len() && (#[trigger] self.wait_queue@[j]).size <= size
                        ==> self.wait_queue@[j].size <= self.wait_queue@[place as int].size
                &&& forall|j: int|
                    0 <= j < place ==> (#[trigger] self.wait_queue@[j]).size
                        < self.wait_queue@[place as int].size
            },
            found is None ==> forall|j: int|
                0 <= j < self.wait_queue@.len() && (#[trigger] self.wait_queue@[j]).size <= size
                    ==> !binary32::fills(
                    self.wait_queue@[j].size as nat,
                    size as nat,
                    self.recycling_threshold,
                ),
    {
        match self.wait_queue.largest_up_to(size) {
            Some(place) => if binary32::meets_threshold(
                self.wait_queue.request_at(place).size,
                size,
                self.recycling_threshold,
            ) {
                proof {
                    model::lemma_matching(
                        self@.wait_queue,
                        size,
                        self@.recycling_threshold,
                        place as int,
                    );
                }
                Some(place)
            } else {
                proof {
                    model::lemma_no_match(
                        self@.wait_queue,
                        size,
                        self@.recycling_threshold,
                        place as int,
                    );
                    assert forall|j: int|
                        0 <= j < self.wait_queue@.len() && (#[trigger] self.wait_queue@[j]).size
                            <= size implies !binary32::fills(
                        self.wait_queue@[j].size as nat,
                        size as nat,
                        self.recycling_threshold,
                    ) by {
                        if binary32::fills(
                            self.wait_queue@[j].size as nat,
                            size as nat,
                            self.recycling_threshold,
                        ) {
                            binary32::law_fills_grows_with_request(
                                self.wait_queue@[j].size as nat,
                                self.wait_queue@[place as int].size as nat,
                                size as nat,
                                self.recycling_threshold,
                            );
                        }
                    }
                }
                None
            },
            None => None,
        }
    }

    /// Gets `requested_buffer_size` bytes.
    ///
    /// A kept block that suits the request is handed out again. Without one, a new block is
    /// obtained from the system if the pool has room for it. Without room, the request is put into
    /// the queue, and the response says that it waits.
    ///
    /// Whether the system gives a new block, and where, is up to the system:
    /// `hand_out_fresh_block` says what comes of each of its answers.
    pub fn allocate(&mut self, requested_buffer_size: usize) -> (result: Result<
        ResourceResponse,
        ResourcePoolError,
    >)
        requires
            old(self).wf(),
            old(self)@.must_wait(requested_buffer_size) ==> old(self)@.amount_in_waiting
                + requested_buffer_size <= usize::MAX,
        ensures
            final(self).wf(),
            old(self)@.reusable(requested_buffer_size) matches Some(resource) ==> {
                &&& result == Ok::<_, ResourcePoolError>(model::filled_response(resource))
                &&& final(self)@ == old(self)@.after_reuse(resource)
            },
            old(self)@.must_wait(requested_buffer_size) ==> {
                &&& result == Ok::<_, ResourcePoolError>(
                    model::waiting_response(requested_buffer_size),
                )
                &&& final(self)@ == old(self)@.after_enqueue(requested_buffer_size)
            },
            old(self)@.reusable(requested_buffer_size) is None && !old(self)@.must_wait(
                requested_buffer_size,
            ) ==> fresh_outcome(old(self)@, requested_buffer_size, final(self)@, result),
            exists|answer: usize|
                final(self)@ == #[trigger] old(self)@.after_allocate(requested_buffer_size, answer),
            result matches Ok(response) ==> response.state is Filled ==> {
                let ptr = response.resource.ptr;
                let size = response.resource.size;
                &&& ptr != 0
                &&& !old(self).in_use@.contains_key(ptr)
                &&& final(self).in_use@.contains_key(ptr)
                &&& final(self).in_use@[ptr].len() == size
                &&& requested_buffer_size <= size
                &&& final(self).in_use@ == old(self).in_use@.insert(ptr, final(self).in_use@[ptr])
                &&& final(self).amount_in_use == old(self).amount_in_use + size
                &&& final(self).amount_in_waiting == old(self).amount_in_waiting
                &&& final(self).wait_queue@ == old(self).wait_queue@
                &&& old(self).reserve@.contains_key(ptr) ==> {
                    &&& final(self).in_use@[ptr] == old(self).reserve@[ptr]
                    &&& final(self).reserve@ == old(self).reserve@.remove(ptr)
                    &&& final(self).order@ == old(self).order@.remove(response.resource)
                    &&& final(self).amount_in_reserve == old(self).amount_in_reserve - size
                    &&& binary32::fills(
                        requested_buffer_size as nat,
                        size as nat,
                        old(self).recycling_threshold,
                    )
                }
                &&& !old(self).reserve@.contains_key(ptr) ==> {
                    &&& size == requested_buffer_size
                    &&& forall|i: int|
                        0 <= i < size ==> #[trigger] final(self).in_use@[ptr][i] == 0
                    &&& final(self).reserve@ == old(self).reserve@
                    &&& final(self).order@ == old(self).order@
                    &&& final(self).amount_in_reserve == old(self).amount_in_reserve
                }
            },
            result matches Ok(response) ==> response.state is Waiting ==> {
                &&& response.resource.ptr == 0
                &&& response.resource.size == requested_buffer_size
                &&& old(self).amount_in_use + old(self).amount_in_reserve + requested_buffer_size
                    > old(self).max_capacity
                &&& final(self).in_use@ == old(self).in_use@
                &&& final(self).reserve@ == old(self).reserve@
                &&& final(self).order@ == old(self).order@
                &&& final(self).amount_in_use == old(self).amount_in_use
                &&& final(self).amount_in_reserve == old(self).amount_in_reserve
                &&& final(self).amount_in_waiting == old(self).amount_in_waiting
                    + requested_buffer_size
                &&& final(self).wait_queue@.len() == old(self).wait_queue@.len() + 1
            },
            result is Err ==> {
                &&& old(self).amount_in_use + old(self).amount_in_reserve + requested_buffer_size
                    <= old(self).max_capacity
                &&& final(self)@ == old(self)@
            },
            old(self)@.reusable(requested_buffer_size) is None && old(self).amount_in_use + old(
                self,
            ).amount_in_reserve + requested_buffer_size <= old(self).max_capacity
                ==> exists|obtained: (usize, Vec<u8>)|
                {
                    &&& #[trigger] call_ensures(
                        blocks::obtain_block,
                        (requested_buffer_size,),
                        obtained,
                    )
                    &&& result is Ok <==> obtained.0 != 0 && !old(self).in_use@.contains_key(
                        obtained.0,
                    ) && !old(self).reserve@.contains_key(obtained.0)
                    &&& result matches Ok(response) ==> response.state is Filled
                        && response.resource.ptr == obtained.0
                    &&& result matches Err(error) ==> if obtained.0 == 0 {
                        error is AllocationFailed
                    } else {
                        error is AllocatedBlockAlreadyInUse
                    }
                },
            final(self).amount_in_use + final(self).amount_in_reserve <= final(self).max_capacity,
            final(self).max_capacity == old(self).max_capacity,
            final(self).recycling_threshold == old(self).recycling_threshold,
            final(self).shutdown_signal == old(self).shutdown_signal,
    {
        let resource_request: ResourceRequest = ResourceRequest::new(requested_buffer_size);
        let ghost before = self@;
        match self.check_for_existing_resources(resource_request) {
            Some(resource) => {
                proof {
                    laws::law_reusable_is_kept(before, requested_buffer_size);
                    laws::law_reuse_keeps_soundness(before, resource);
                }
                let result = self.reuse_pool_memory(resource);
                assert(self@ == before.after_allocate(requested_buffer_size, 0));
                result
            },
            None => match self.allocate_fresh_memory(resource_request) {
                Err(ResourcePoolError::ResourcePoolOutOfMemory(request)) => {
                    proof {
                        laws::law_enqueue_keeps_soundness(before, requested_buffer_size);
                    }
                    let response: ResourceResponse = self.enqueue(request);
                    assert(self@ == before.after_allocate(requested_buffer_size, 0));
                    Ok(response)
                },
                outcome => {
                    proof {
                        let answer = if outcome is Ok {
                            outcome->Ok_0.resource.ptr
                        } else {
                            0
                        };
                        if outcome is Ok {
                            laws::law_fresh_keeps_soundness(
                                before,
                                answer,
                                blocks::zeros(requested_buffer_size as nat),
                            );
                        }
                        assert(self@ == before.after_allocate(requested_buffer_size, answer));
                    }
                    outcome
                },
            },
        }
    }

    /// Whether a request for `size` bytes has to wait: no kept block suits it, and there is no room
    /// for a new one.
    pub fn would_wait(&self, size: usize) -> (waits: bool)
        requires
            self.order.wf(),
            self@.current_size() <= usize::MAX,
        ensures
            waits == self@.must_wait(size),
            waits ==> self.amount_in_use + self.amount_in_reserve + size > self.max_capacity,
            self.amount_in_use + self.amount_in_reserve + size > self.max_capacity && !waits
                ==> exists|r: Resource| #[trigger]
                self.order@.contains_key(r) && size <= r.size && binary32::fills(
                    size as nat,
                    r.size as nat,
                    self.recycling_threshold,
                ),
    {
        self.check_for_existing_resources(ResourceRequest::new(size)).is_none() && !self.has_room(
            size,
        )
    }

    /// Whether a new block of `size` bytes stays within the capacity.
    fn has_room(&self, size: usize) -> (room: bool)
        requires
            self@.current_size() <= usize::MAX,
        ensures
            room == self@.has_room(size as nat),
            room == (self.amount_in_use + self.amount_in_reserve + size <= self.max_capacity),
    {
        let current_size: usize = self.current_size();
        current_size <= self.max_capacity && size <= self.max_capacity - current_size
    }

    /// Finds the smallest kept block that can hold a request, and gives it if the request fills it
    /// up to the threshold.
    pub fn check_for_existing_resources(&self, resource_request: ResourceRequest) -> (found: Option<
        Resource,
    >)
        requires
            self.order.wf(),
        ensures
            found == self@.reusable(resource_request.size),
            found matches Some(r) ==> {
                &&& self.order@.contains_key(r)
                &&& resource_request.size <= r.size
                &&& binary32::fills(
                    resource_request.size as nat,
                    r.size as nat,
                    self.recycling_threshold,
                )
                &&& forall|o: Resource| #[trigger]
                    self.order@.contains_key(o) && resource_request.size <= o.size ==> r.size
                        < o.size || (r.size == o.size && r.ptr <= o.ptr)
            },
            found is None ==> forall|r: Resource| #[trigger]
                self.order@.contains_key(r) && resource_request.size <= r.size ==> {
                    ||| !binary32::fills(
                        resource_request.size as nat,
                        r.size as nat,
                        self.recycling_threshold,
                    )
                    ||| resource_request.size == 0 && exists|o: Resource| #[trigger]
                        self.order@.contains_key(o) && o.size == 0
                },
    {
        let size: usize = resource_request.size;
        let nearest: Option<Resource> = self.order.first_at_least(&Resource::new(0, size));
        match nearest {
            Some(resource) => if binary32::meets_threshold(
                size,
                resource.size,
                self.recycling_threshold,
            ) {
                proof {
                    model::lemma_suitable(self@.order, size, self@.recycling_threshold, resource);
                }
                Some(resource)
            } else {
                proof {
                    model::lemma_not_suitable(
                        self@.order,
                        size,
                        self@.recycling_threshold,
                        resource,
                    );
                    assert forall|r: Resource| #[trigger]
                        self.order@.contains_key(r) && size <= r.size && binary32::fills(
                            size as nat,
                            r.size as nat,
                            self.recycling_threshold,
                        ) implies resource.size == 0 by {
                        if resource.size > 0 {
                            binary32::law_fills_shrinks_with_block(
                                size as nat,
                                resource.size as nat,
                                r.size as nat,
                                self.recycling_threshold,
                            );
                        }
                    }
                }
                None
            },
            None => None,
        }
    }

    /// Hands a kept block out again, as a whole, however much smaller the request is.
    pub fn reuse_pool_memory(&mut self, resource: Resource) -> (result: Result<
        ResourceResponse,
        ResourcePoolError,
    >)
        requires
            old(self).order.wf(),
            old(self)@.reuse_error(resource) is None ==> {
                &&& old(self)@.amount_in_use + resource.size <= usize::MAX
                &&& resource.size <= old(self)@.amount_in_reserve
            },
        ensures
            final(self).order.wf(),
            final(self).wait_queue == old(self).wait_queue,
            final(self)@ == old(self)@.after_reuse_attempt(resource),
            result == (match old(self)@.reuse_error(resource) {
                None => Ok(model::filled_response(resource)),
                Some(error) => Err(error),
            }),
            result is Ok <==> old(self).reserve@.contains_key(resource.ptr) && old(
                self,
            ).order@.contains_key(resource) && !old(self).in_use@.contains_key(resource.ptr),
            result matches Ok(response) ==> {
                &&& response.state is Filled
                &&& response.resource.ptr == resource.ptr
                &&& response.resource.size == resource.size
                &&& final(self).in_use@ == old(self).in_use@.insert(
                    resource.ptr,
                    old(self).reserve@[resource.ptr],
                )
                &&& final(self).reserve@ == old(self).reserve@.remove(resource.ptr)
                &&& final(self).order@ == old(self).order@.remove(resource)
                &&& final(self).amount_in_use == old(self).amount_in_use + resource.size
                &&& final(self).amount_in_reserve == old(self).amount_in_reserve - resource.size
            },
            result matches Err(error) ==> {
                &&& error is ResourcesFoundButUnexpectedlyUnavailable <==> !old(
                    self,
                ).reserve@.contains_key(resource.ptr)
                &&& error is UnallocatedMemoryUnexpectedlyInOrderingMap <==> old(
                    self,
                ).reserve@.contains_key(resource.ptr) && !old(self).order@.contains_key(resource)
                &&& error is AllocatedBlockAlreadyInUse <==> old(self).reserve@.contains_key(
                    resource.ptr,
                ) && old(self).order@.contains_key(resource) && old(self).in_use@.contains_key(
                    resource.ptr,
                )
                &&& final(self).reserve@ == old(self).reserve@.remove(resource.ptr)
                &&& final(self).order@ == (if error is AllocatedBlockAlreadyInUse {
                    old(self).order@.remove(resource)
                } else {
                    old(self).order@
                })
                &&& final(self).in_use@ == (if error is AllocatedBlockAlreadyInUse {
                    old(self).in_use@.insert(resource.ptr, old(self).reserve@[resource.ptr])
                } else {
                    old(self).in_use@
                })
                &&& final(self).amount_in_use == old(self).amount_in_use
                &&& final(self).amount_in_reserve == old(self).amount_in_reserve
            },
            final(self).amount_in_waiting == old(self).amount_in_waiting,
            final(self).max_capacity == old(self).max_capacity,
            final(self).recycling_threshold == old(self).recycling_threshold,
            final(self).shutdown_signal == old(self).shutdown_signal,
    {
        let (ptr, block): (usize, Vec<u8>) = match self.reserve.remove(&resource.ptr) {
            None => {
                assert(self@ =~= old(self)@);
                return Err(ResourcePoolError::ResourcesFoundButUnexpectedlyUnavailable);
            },
            Some(entry) => entry,
        };
        // A block that is handed out must not be found for another request.
        if self.order.remove(&resource).is_none() {
            assert(self@ =~= old(self)@.after_reuse_attempt(resource));
            return Err(ResourcePoolError::UnallocatedMemoryUnexpectedlyInOrderingMap);
        }
        if self.in_use.insert(ptr, block).is_some() {
            return Err(ResourcePoolError::AllocatedBlockAlreadyInUse);
        }
        self.amount_in_use = self.amount_in_use + resource.size;
        self.amount_in_reserve = self.amount_in_reserve - resource.size;
        Ok(ResourceResponse::new_filled(resource))
    }

    /// Obtains a new block from the system and hands it out, if the pool has room for it.
    pub fn allocate_fresh_memory(&mut self, resource_request: ResourceRequest) -> (result: Result<
        ResourceResponse,
        ResourcePoolError,
    >)
        requires
            old(self)@.current_size() <= usize::MAX,
        ensures
            final(self).order == old(self).order,
            final(self).wait_queue == old(self).wait_queue,
            !old(self)@.has_room(resource_request.size as nat) ==> {
                &&& result == Err::<ResourceResponse, _>(
                    ResourcePoolError::ResourcePoolOutOfMemory(resource_request),
                )
                &&& *final(self) == *old(self)
            },
            old(self)@.has_room(resource_request.size as nat) ==> fresh_outcome(
                old(self)@,
                resource_request.size,
                final(self)@,
                result,
            ),
            old(self).amount_in_use + old(self).amount_in_reserve + resource_request.size > old(
                self,
            ).max_capacity <==> (result matches Err(
                ResourcePoolError::ResourcePoolOutOfMemory(request),
            ) && request.size == resource_request.size),
            result matches Ok(response) ==> {
                let ptr = response.resource.ptr;
                &&& response.state is Filled
                &&& ptr != 0
                &&& response.resource.size == resource_request.size
                &&& !old(self).in_use@.contains_key(ptr) && !old(self).reserve@.contains_key(ptr)
                &&& final(self).in_use@.contains_key(ptr)
                &&& final(self).in_use@[ptr].len() == resource_request.size
                &&& forall|i: int|
                    0 <= i < resource_request.size ==> #[trigger] final(self).in_use@[ptr][i] == 0
                &&& final(self).in_use@ == old(self).in_use@.insert(ptr, final(self).in_use@[ptr])
                &&& final(self).amount_in_use == old(self).amount_in_use + resource_request.size
            },
            result is Err ==> final(self).in_use@ == old(self).in_use@ && final(self).amount_in_use
                == old(self).amount_in_use,
            old(self).amount_in_use + old(self).amount_in_reserve + resource_request.size <= old(
                self,
            ).max_capacity ==> exists|obtained: (usize, Vec<u8>)|
                {
                    &&& #[trigger] call_ensures(
                        blocks::obtain_block,
                        (resource_request.size,),
                        obtained,
                    )
                    &&& result is Ok <==> obtained.0 != 0 && !old(self).in_use@.contains_key(
                        obtained.0,
                    ) && !old(self).reserve@.contains_key(obtained.0)
                    &&& result matches Ok(response) ==> response.resource.ptr == obtained.0
                    &&& result matches Err(error) ==> if obtained.0 == 0 {
                        error is AllocationFailed
                    } else {
                        error is AllocatedBlockAlreadyInUse
                    }
                },
            final(self).reserve@ == old(self).reserve@,
            final(self).amount_in_reserve == old(self).amount_in_reserve,
            final(self).amount_in_waiting == old(self).amount_in_waiting,
            final(self).max_capacity == old(self).max_capacity,
            final(self).recycling_threshold == old(self).recycling_threshold,
            final(self).shutdown_signal == old(self).shutdown_signal,
    {
        let size: usize = resource_request.size;
        if self.has_room(size) {
            let (ptr, block): (usize, Vec<u8>) = blocks::obtain_block(size);
            self.hand_out_fresh_block(ptr, block)
        } else {
            Err(ResourcePoolError::ResourcePoolOutOfMemory(resource_request))
        }
    }

    /// Hands out the new block that the system gave: `block`, which lies at `ptr`. The null address
    /// means that the system had nothing to give. The system does not give memory a second time
    /// that it has not got back; an address that the pool holds already is refused.
    pub fn hand_out_fresh_block(&mut self, ptr: usize, block: Vec<u8>) -> (result: Result<
        ResourceResponse,
        ResourcePoolError,
    >)
        requires
            old(self)@.amount_in_use + block@.len() <= usize::MAX,
        ensures
            final(self).order == old(self).order,
            final(self).wait_queue == old(self).wait_queue,
            match old(self)@.fresh_error(ptr) {
                None => {
                    &&& result == Ok::<_, ResourcePoolError>(
                        model::filled_response(Resource { size: block@.len() as usize, ptr }),
                    )
                    &&& final(self)@ == old(self)@.after_fresh(ptr, block@)
                },
                Some(error) => {
                    &&& result == Err::<ResourceResponse, _>(error)
                    &&& *final(self) == *old(self)
                },
            },
            result is Ok <==> ptr != 0 && !old(self).in_use@.contains_key(ptr) && !old(
                self,
            ).reserve@.contains_key(ptr),
            result matches Ok(response) ==> {
                &&& response.state is Filled
                &&& response.resource.ptr == ptr
                &&& response.resource.size == block@.len()
                &&& final(self).in_use@ == old(self).in_use@.insert(ptr, block@)
                &&& final(self).amount_in_use == old(self).amount_in_use + block@.len()
            },
            result matches Err(error) ==> {
                &&& error is AllocationFailed <==> ptr == 0
                &&& error is AllocatedBlockAlreadyInUse <==> ptr != 0
                &&& final(self).in_use@ == old(self).in_use@
                &&& final(self).amount_in_use == old(self).amount_in_use
            },
            final(self).reserve@ == old(self).reserve@,
            final(self).amount_in_reserve == old(self).amount_in_reserve,
            final(self).amount_in_waiting == old(self).amount_in_waiting,
            final(self).max_capacity == old(self).max_capacity,
            final(self).recycling_threshold == old(self).recycling_threshold,
            final(self).shutdown_signal == old(self).shutdown_signal,
    {
        if ptr == 0 {
            return Err(ResourcePoolError::AllocationFailed);
        }
        if self.in_use.contains_key(&ptr) || self.reserve.contains_key(&ptr) {
            return Err(ResourcePoolError::AllocatedBlockAlreadyInUse);
        }
        let size: usize = block.len();
        self.amount_in_use = self.amount_in_use + size;
        self.in_use.insert(ptr, block);
        Ok(ResourceResponse::new_filled(Resource::new(ptr, size)))
    }

    /// Puts a request into the queue, behind all that ask for as much or less. Nobody loses a
    /// place by that.
    pub fn enqueue(&mut self, resource_request: ResourceRequest) -> (response: ResourceResponse)
        requires
            old(self).wait_queue.wf(),
            old(self)@.amount_in_waiting + resource_request.size <= usize::MAX,
        ensures
            final(self).wait_queue.wf(),
            final(self).order == old(self).order,
            final(self)@ == old(self)@.after_enqueue(resource_request.size),
            response == model::waiting_response(resource_request.size),
            response.state is Waiting,
            response.resource.ptr == 0,
            response.resource.size == resource_request.size,
            final(self).amount_in_waiting == old(self).amount_in_waiting + resource_request.size,
            exists|place: int|
                {
                    &&& 0 <= place <= old(self).wait_queue@.len()
                    &&& final(self).wait_queue@ == #[trigger] old(self).wait_queue@.insert(
                        place,
                        resource_request,
                    )
                    &&& forall|i: int|
                        0 <= i < place ==> (#[trigger] old(self).wait_queue@[i]).size
                            <= resource_request.size
                    &&& forall|i: int|
                        place <= i < old(self).wait_queue@.len() ==> (
                        #[trigger] old(self).wait_queue@[i]).size > resource_request.size
                },
            final(self).in_use@ == old(self).in_use@,
            final(self).reserve@ == old(self).reserve@,
            final(self).amount_in_use == old(self).amount_in_use,
            final(self).amount_in_reserve == old(self).amount_in_reserve,
            final(self).max_capacity == old(self).max_capacity,
            final(self).recycling_threshold == old(self).recycling_threshold,
            final(self).shutdown_signal == old(self).shutdown_signal,
    {
        self.amount_in_waiting = self.amount_in_waiting + resource_request.size;
        self.wait_queue.insert(resource_request);
        ResourceResponse::new_waiting(Resource::new(0, resource_request.size))
    }

    /// The bytes that the pool holds, handed out or kept.
    pub fn current_size(&self) -> (size: usize)
        requires
            self@.current_size() <= usize::MAX,
        ensures
            size == self@.current_size(),
            size == self.amount_in_use + self.amount_in_reserve,
    {
        self.amount_in_use + self.amount_in_reserve
    }

    /// The part of the pool that is handed out, as the encoding of a single; zero for a pool that
    /// holds nothing.
    pub fn calculate_efficiency(&self) -> (bits: u32)
        requires
            self@.current_size() <= usize::MAX,
        ensures
            self@.current_size() == 0 ==> bits == 0,
            self@.current_size() > 0 ==> binary32::value_of(bits) == binary32::ratio_value(
                self@.amount_in_use,
                self@.current_size(),
            ),
            bits <= binary32::ONE,
            self.amount_in_use == 0 <==> bits == 0,
            self.amount_in_use > 0 && self.amount_in_reserve == 0 ==> bits == 0x3f80_0000,
    {
        let size: usize = self.current_size();
        if size == 0 {
            0
        } else {
            let bits: u32 = binary32::ratio(self.amount_in_use, size);
            proof {
                binary32::law_ratio_is_the_nearest_single(
                    self.amount_in_use as nat,
                    size as nat,
                    bits,
                    (bits / 0x80_0000) as nat,
                    (bits % 0x80_0000) as nat,
                );
            }
            bits
        }
    }

    /// Whether no request waits.
    pub fn wait_list_empty(&self) -> (empty: bool)
        ensures
            empty == (self@.wait_queue.len() == 0),
            empty == (self.wait_queue@.len() == 0),
    {
        self.wait_queue.is_empty()
    }

    /// The number of requests that wait.
    pub fn wait_list_size(&self) -> (n: usize)
        ensures
            n == self@.wait_queue.len(),
            n == self.wait_queue@.len(),
    {
        self.wait_queue.len()
    }

    /// Tells the pool to shut down. Whoever sleeps on the signal is woken afterwards.
    pub fn shutdown(&mut self)
        ensures
            final(self).order == old(self).order,
            final(self).wait_queue == old(self).wait_queue,
            final(self)@ == (PoolModel { shut_down: true, ..old(self)@ }),
            old(self).wf() ==> final(self).wf(),
            *final(self) == (ResourcePool { shutdown_signal: true, ..*old(self) }),
    {
        self.shutdown_signal = true;
    }

    /// The URL that the pool reports to, in its normal form, or nothing if the configured address
    /// does not give one.
    pub fn url(&self, configured: Option<String>) -> (url: Option<String>)
        ensures
            url is Some <==> observability::parsed_url(
                observability::server_address(configured) + "/resource_pool"@,
            ) is Some,
            url matches Some(form) ==> observability::parsed_url(
                observability::server_address(configured) + "/resource_pool"@,
            ) == Some(form@),
            configured matches Some(given) ==> (url is Some <==> observability::parsed_url(
                given@ + "/resource_pool"@,
            ) is Some) && (url matches Some(form) ==> observability::parsed_url(
                given@ + "/resource_pool"@,
            ) == Some(form@)),
            configured is None ==> (url is Some <==> observability::parsed_url(
                "http://127.0.0.1:5000"@ + "/resource_pool"@,
            ) is Some) && (url matches Some(form) ==> observability::parsed_url(
                "http://127.0.0.1:5000"@ + "/resource_pool"@,
            ) == Some(form@)),
    {
        observability::build_url_from_str(configured, "/resource_pool")
    }
}

/// What comes of asking the system for a new block of `size` bytes: it is handed out, filled with
/// zeros, at an address that is not null and was not held before; or nothing changes, and the error
/// is the one that the address calls for. The address is the one that `obtain_block` was given.
pub open spec fn fresh_outcome(
    before: PoolModel,
    size: usize,
    after: PoolModel,
    result: Result<ResourceResponse, ResourcePoolError>,
) -> bool {
    &&& match result {
        Ok(response) => {
            let ptr = response.resource.ptr;
            &&& response == model::filled_response(Resource { size, ptr })
            &&& before.fresh_error(ptr) is None
            &&& after == before.after_fresh(ptr, blocks::zeros(size as nat))
        },
        Err(error) => {
            &&& exists|ptr: usize| #[trigger] before.fresh_error(ptr) == Some(error)
            &&& after == before
        },
    }
    &&& exists|obtained: (usize, Vec<u8>)| #[trigger]
        call_ensures(blocks::obtain_block, (size,), obtained) && match before.fresh_error(
            obtained.0,
        ) {
            None => result matches Ok(response) && response.resource.ptr == obtained.0 && after
                == before.after_fresh(obtained.0, obtained.1@),
            Some(error) => result == Err::<ResourceResponse, _>(error),
        }
}

} // verus!
