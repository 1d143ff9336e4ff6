//! The values that travel between the pool and its callers: memory blocks, requests for memory,
//! the responses to them, and errors.

use std::cmp::Ordering;
use vstd::prelude::*;

verus! {

/// Whether a request has its memory yet.
#[derive(Debug, Clone, Copy, PartialEq, Eq, Structural)]
pub enum ResourceRequestState {
    Filled,
    Waiting,
}

/// A block of memory: how many bytes it has and at which address it starts. The address 0 is the
/// null pointer, which no block has.
///
/// Resources are ordered by size, and by address where the sizes are equal.
#[derive(Debug, Clone, Copy, PartialEq, Eq, Structural, Ord)]
pub struct Resource {
    pub size: usize,
    pub ptr: usize,
}

/// How two resources compare: by size first, then by address.
pub open spec fn resource_order(a: Resource, b: Resource) -> Ordering {
    if a.size < b.size {
        Ordering::Less
    } else if a.size > b.size {
        Ordering::Greater
    } else if a.ptr < b.ptr {
        Ordering::Less
    } else if a.ptr > b.ptr {
        Ordering::Greater
    } else {
        Ordering::Equal
    }
}

impl Resource {
    pub fn new(ptr: usize, size: usize) -> (resource: Self)
        ensures
            resource.ptr == ptr,
            resource.size == size,
    {
        Self { size, ptr }
    }

    /// Compares by size, and by address where the sizes are equal.
    pub fn cmp(&self, other: &Self) -> (order: Ordering)
        ensures
            order == resource_order(*self, *other),
            order is Less <==> self.size < other.size || (self.size == other.size && self.ptr
                < other.ptr),
            order is Equal <==> self.size == other.size && self.ptr == other.ptr,
    {
        if self.size < other.size {
            Ordering::Less
        } else if self.size > other.size {
            Ordering::Greater
        } else if self.ptr < other.ptr {
            Ordering::Less
        } else if self.ptr > other.ptr {
            Ordering::Greater
        } else {
            Ordering::Equal
        }
    }
}

impl PartialOrd for Resource {
    fn partial_cmp(&self, other: &Self) -> (order: Option<Ordering>) {
        Some(self.cmp(other))
    }
}

impl vstd::std_specs::cmp::PartialOrdSpecImpl for Resource {
    open spec fn obeys_partial_cmp_spec() -> bool {
        true
    }

    open spec fn partial_cmp_spec(&self, other: &Self) -> Option<Ordering> {
        Some(resource_order(*self, *other))
    }
}

/// A request for a number of bytes. Requests are ordered by size.
#[derive(Debug, Clone, Copy, PartialEq, Eq, Structural, Ord)]
pub struct ResourceRequest {
    pub size: usize,
}

impl ResourceRequest {
    pub fn new(size: usize) -> (request: Self)
        ensures
            request.size == size,
    {
        Self { size }
    }
}

/// How two requests compare: as their sizes do.
pub open spec fn request_order(a: ResourceRequest, b: ResourceRequest) -> Ordering {
    if a.size < b.size {
        Ordering::Less
    } else if a.size > b.size {
        Ordering::Greater
    } else {
        Ordering::Equal
    }
}

impl PartialOrd for ResourceRequest {
    fn partial_cmp(&self, other: &Self) -> (order: Option<Ordering>) {
        if self.size < other.size {
            Some(Ordering::Less)
        } else if self.size > other.size {
            Some(Ordering::Greater)
        } else {
            Some(Ordering::Equal)
        }
    }
}

impl vstd::std_specs::cmp::PartialOrdSpecImpl for ResourceRequest {
    open spec fn obeys_partial_cmp_spec() -> bool {
        true
    }

    open spec fn partial_cmp_spec(&self, other: &Self) -> Option<Ordering> {
        Some(request_order(*self, *other))
    }
}

/// What the holder of a response has to do next when it wants the memory.
#[derive(Debug, Clone, Copy, PartialEq, Eq, Structural)]
pub enum WaitStep {
    /// The memory is there.
    Proceed,
    /// Sleep until the response is announced as filled.
    Sleep,
}

/// The answer to a request: the memory, or a place in the queue for it.
///
/// There is one response to a request, and it cannot be copied: holders who share it share its
/// state. It compares, for equality and for order, by its resource alone.
#[derive(Debug, Eq)]
pub struct ResourceResponse {
    pub resource: Resource,
    pub state: ResourceRequestState,
}

/// What the holder of a response has to do next when it wants the memory: go on if the response is
/// filled, and sleep if it waits.
pub open spec fn next_step(response: ResourceResponse) -> WaitStep {
    match response.state {
        ResourceRequestState::Filled => WaitStep::Proceed,
        ResourceRequestState::Waiting => WaitStep::Sleep,
    }
}

/// A response after its memory was announced: filled, with the resource that it had.
pub open spec fn notified(response: ResourceResponse) -> ResourceResponse {
    ResourceResponse { state: ResourceRequestState::Filled, ..response }
}

/// A response after the memory at `ptr` was handed to it: filled, with the size that was asked for.
pub open spec fn filled_at(response: ResourceResponse, ptr: usize) -> ResourceResponse {
    notified(ResourceResponse { resource: Resource { ptr, ..response.resource }, ..response })
}

impl ResourceResponse {
    pub fn new_filled(resource: Resource) -> (response: Self)
        ensures
            response.resource == resource,
            response.state is Filled,
    {
        Self { resource, state: ResourceRequestState::Filled }
    }

    pub fn new_waiting(resource: Resource) -> (response: Self)
        ensures
            response.resource == resource,
            response.state is Waiting,
    {
        Self { resource, state: ResourceRequestState::Waiting }
    }

    /// Decides whether the holder has to sleep before it uses the memory.
    pub fn wait_until_filled(&self) -> (step: WaitStep)
        ensures
            step == next_step(*self),
            step is Proceed <==> self.state is Filled,
            step is Sleep <==> self.state is Waiting,
    {
        match self.state {
            ResourceRequestState::Filled => WaitStep::Proceed,
            ResourceRequestState::Waiting => WaitStep::Sleep,
        }
    }

    /// Records that the memory is there. Whoever sleeps on the response is woken afterwards.
    pub fn notify_filled(&mut self)
        ensures
            *final(self) == notified(*old(self)),
            final(self).state is Filled,
            final(self).resource == old(self).resource,
    {
        self.state = ResourceRequestState::Filled;
    }

    /// Hands the memory at `ptr` to the response. Whoever sleeps on it is woken afterwards.
    pub fn fill(&mut self, ptr: usize)
        ensures
            *final(self) == filled_at(*old(self), ptr),
            final(self).state is Filled,
            final(self).resource.ptr == ptr,
            final(self).resource.size == old(self).resource.size,
    {
        self.resource.ptr = ptr;
        self.notify_filled();
    }

    pub fn get_resource_ptr(&self) -> (ptr: usize)
        ensures
            ptr == self.resource.ptr,
    {
        self.resource.ptr
    }

    pub fn get_resource(&self) -> (resource: &Resource)
        ensures
            *resource == self.resource,
    {
        &self.resource
    }

    /// Compares by the resource alone.
    pub fn cmp(&self, other: &Self) -> (order: Ordering)
        ensures
            order == resource_order(self.resource, other.resource),
            order is Less <==> self.resource.size < other.resource.size || (self.resource.size
                == other.resource.size && self.resource.ptr < other.resource.ptr),
            order is Equal <==> self.resource.size == other.resource.size && self.resource.ptr
                == other.resource.ptr,
    {
        self.resource.cmp(&other.resource)
    }
}

impl PartialEq for ResourceResponse {
    fn eq(&self, other: &Self) -> (same: bool) {
        self.resource == other.resource
    }
}

impl vstd::std_specs::cmp::PartialEqSpecImpl for ResourceResponse {
    open spec fn obeys_eq_spec() -> bool {
        true
    }

    open spec fn eq_spec(&self, other: &Self) -> bool {
        self.resource == other.resource
    }
}

impl PartialOrd for ResourceResponse {
    fn partial_cmp(&self, other: &Self) -> (order: Option<Ordering>) {
        Some(self.cmp(other))
    }
}

impl vstd::std_specs::cmp::PartialOrdSpecImpl for ResourceResponse {
    open spec fn obeys_partial_cmp_spec() -> bool {
        true
    }

    open spec fn partial_cmp_spec(&self, other: &Self) -> Option<Ordering> {
        Some(resource_order(self.resource, other.resource))
    }
}

/// Why the pool could not serve a request.
#[derive(Debug)]
pub enum ResourcePoolError {
    /// The system had no memory to give.
    AllocationFailed,
    /// The request does not fit into what is left of the pool's capacity.
    ResourcePoolOutOfMemory(ResourceRequest),
    /// A block that is listed as available is not in the reserve.
    ResourcesFoundButUnexpectedlyUnavailable,
    /// A block that is about to be handed out is in use already.
    AllocatedBlockAlreadyInUse,
    /// A block of the reserve is not listed as available.
    UnallocatedMemoryUnexpectedlyInOrderingMap,
    UnknownError,
}

/// The text of an error.
pub open spec fn error_text(error: ResourcePoolError) -> Seq<char> {
    match error {
        ResourcePoolError::AllocationFailed => "Failed to allocate resources"@,
        ResourcePoolError::ResourcePoolOutOfMemory(_) =>
            "Resource pool has no more resources to allocate."@,
        ResourcePoolError::ResourcesFoundButUnexpectedlyUnavailable =>
            "Resource pool found a suitable block of memory but it was unexpectedly unavailable"@,
        ResourcePoolError::AllocatedBlockAlreadyInUse =>
            "Allocated block of memory already in use."@,
        ResourcePoolError::UnallocatedMemoryUnexpectedlyInOrderingMap =>
            "Pointer to memory was unexpectedly found in the ordering map."@,
        ResourcePoolError::UnknownError =>
            "Error occured whilst allocating memory from the resource pool"@,
    }
}

impl ResourcePoolError {
    /// The error as a text for people.
    pub fn message(&self) -> (text: &'static str)
        ensures
            text@ == error_text(*self),
            *self is AllocationFailed ==> text@ == "Failed to allocate resources"@,
            *self is ResourcePoolOutOfMemory ==> text@
                == "Resource pool has no more resources to allocate."@,
            *self is ResourcesFoundButUnexpectedlyUnavailable ==> text@
                == "Resource pool found a suitable block of memory but it was unexpectedly unavailable"@,
            *self is AllocatedBlockAlreadyInUse ==> text@
                == "Allocated block of memory already in use."@,
            *self is UnallocatedMemoryUnexpectedlyInOrderingMap ==> text@
                == "Pointer to memory was unexpectedly found in the ordering map."@,
            *self is UnknownError ==> text@
                == "Error occured whilst allocating memory from the resource pool"@,
    {
        match self {
            ResourcePoolError::AllocationFailed => "Failed to allocate resources",
            ResourcePoolError::ResourcePoolOutOfMemory(_) =>
                "Resource pool has no more resources to allocate.",
            ResourcePoolError::ResourcesFoundButUnexpectedlyUnavailable =>
                "Resource pool found a suitable block of memory but it was unexpectedly unavailable",
            ResourcePoolError::AllocatedBlockAlreadyInUse =>
                "Allocated block of memory already in use.",
            ResourcePoolError::UnallocatedMemoryUnexpectedlyInOrderingMap =>
                "Pointer to memory was unexpectedly found in the ordering map.",
            ResourcePoolError::UnknownError =>
                "Error occured whilst allocating memory from the resource pool",
        }
    }
}

} // verus!
