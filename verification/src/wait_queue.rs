//! The queue of requests that wait for memory. Every request has a place of its own. The queue is
//! sorted by size, and requests of one size stand in the order in which they came.

use crate::resource::ResourceRequest;
use vstd::prelude::*;

verus! {

/// The requests that wait, viewed as the sequence of their places. The response to a request is
/// with the one who asked; the queue holds what is needed to tell who is served next.
pub struct WaitQueue {
    places: Vec<ResourceRequest>,
}

impl View for WaitQueue {
    type V = Seq<ResourceRequest>;

    closed spec fn view(&self) -> Seq<ResourceRequest> {
        self.places@
    }
}

/// No place asks for more than a later one.
pub open spec fn is_sorted(queue: Seq<ResourceRequest>) -> bool {
    forall|i: int, j: int|
        0 <= i < j < queue.len() ==> (#[trigger] queue[i]).size <= (#[trigger] queue[j]).size
}

/// Where the places of a sorted queue end that ask for at most `size` bytes.
pub open spec fn end_of(queue: Seq<ResourceRequest>, size: usize) -> nat
    decreases queue.len(),
{
    if queue.len() == 0 || queue.last().size <= size {
        queue.len()
    } else {
        end_of(queue.drop_last(), size)
    }
}

/// The place `i` is the first of those that ask for the most among all that fit into `size` bytes.
pub open spec fn is_oldest_of_largest(
    queue: Seq<ResourceRequest>,
    size: usize,
    i: int,
) -> bool {
    &&& 0 <= i < queue.len()
    &&& queue[i].size <= size
    &&& forall|j: int|
        0 <= j < queue.len() && (#[trigger] queue[j]).size <= size ==> queue[j].size
            <= queue[i].size
    &&& forall|j: int| 0 <= j < i ==> (#[trigger] queue[j]).size != queue[i].size
}

/// The bytes that all places of a queue ask for.
pub open spec fn total_requested(queue: Seq<ResourceRequest>) -> nat
    decreases queue.len(),
{
    if queue.len() == 0 {
        0
    } else {
        total_requested(queue.drop_last()) + queue.last().size as nat
    }
}

/// The end of the places that ask for at most `size` bytes parts them from those that ask for more.
pub proof fn lemma_end_of(queue: Seq<ResourceRequest>, size: usize)
    requires
        is_sorted(queue),
    ensures
        end_of(queue, size) <= queue.len(),
        forall|i: int| 0 <= i < end_of(queue, size) ==> (#[trigger] queue[i]).size <= size,
        forall|i: int|
            end_of(queue, size) <= i < queue.len() ==> (#[trigger] queue[i]).size > size,
    decreases queue.len(),
{
    if queue.len() > 0 && queue.last().size > size {
        let front = queue.drop_last();
        lemma_end_of(front, size);
        assert forall|i: int| 0 <= i < end_of(queue, size) implies (#[trigger] queue[i]).size
            <= size by {
            assert(front[i] == queue[i]);
        }
        assert forall|i: int| end_of(queue, size) <= i < queue.len() implies (
        #[trigger] queue[i]).size > size by {
            if i < front.len() {
                assert(front[i] == queue[i]);
            }
        }
    }
}

/// A place that is given up takes its bytes out of the sum.
pub proof fn lemma_total_remove(queue: Seq<ResourceRequest>, i: int)
    requires
        0 <= i < queue.len(),
    ensures
        total_requested(queue) == total_requested(queue.remove(i)) + queue[i].size,
    decreases queue.len(),
{
    if i == queue.len() - 1 {
        assert(queue.remove(i) =~= queue.drop_last());
    } else {
        lemma_total_remove(queue.drop_last(), i);
        assert(queue.remove(i).drop_last() =~= queue.drop_last().remove(i));
    }
}

/// A new place brings its bytes into the sum.
pub proof fn lemma_total_insert(
    queue: Seq<ResourceRequest>,
    i: int,
    place: ResourceRequest,
)
    requires
        0 <= i <= queue.len(),
    ensures
        total_requested(queue.insert(i, place)) == total_requested(queue) + place.size,
{
    lemma_total_remove(queue.insert(i, place), i);
    assert(queue.insert(i, place).remove(i) =~= queue);
}

impl WaitQueue {
    /// The places are sorted by size.
    pub open spec fn wf(self) -> bool {
        is_sorted(self@)
    }

    pub fn new() -> (queue: Self)
        ensures
            queue.wf(),
            queue@ == Seq::<ResourceRequest>::empty(),
    {
        WaitQueue { places: Vec::new() }
    }

    /// The number of places that ask for at most `size` bytes.
    fn count_up_to(&self, size: usize) -> (count: usize)
        requires
            self.wf(),
        ensures
            count == end_of(self@, size),
    {
        let mut lo: usize = 0;
        let mut hi: usize = self.places.len();
        while lo < hi
            invariant
                self.wf(),
                lo <= hi <= self@.len(),
                forall|i: int| 0 <= i < lo ==> (#[trigger] self@[i]).size <= size,
                forall|i: int| hi <= i < self@.len() ==> (#[trigger] self@[i]).size > size,
            decreases hi - lo,
        {
            let mid: usize = lo + (hi - lo) / 2;
            let asked: usize = self.places[mid].size;
            assert(asked == self@[mid as int].size);
            if asked <= size {
                lo = mid + 1;
            } else {
                hi = mid;
            }
        }
        proof {
            lemma_end_of(self@, size);
            if lo < end_of(self@, size) {
                assert(self@[lo as int].size > size);
            }
            if end_of(self@, size) < lo {
                assert(self@[end_of(self@, size) as int].size <= size);
            }
        }
        lo
    }

    /// Gives a request a place behind all that ask for as much or less.
    pub fn insert(&mut self, request: ResourceRequest)
        requires
            old(self).wf(),
        ensures
            final(self).wf(),
            final(self)@ == old(self)@.insert(end_of(old(self)@, request.size) as int, request),
            exists|place: int|
                {
                    &&& 0 <= place <= old(self)@.len()
                    &&& final(self)@ == #[trigger] old(self)@.insert(place, request)
                    &&& forall|i: int|
                        0 <= i < place ==> (#[trigger] old(self)@[i]).size <= request.size
                    &&& forall|i: int|
                        place <= i < old(self)@.len() ==> (#[trigger] old(self)@[i]).size
                            > request.size
                },
    {
        let end: usize = self.count_up_to(request.size);
        proof {
            lemma_end_of(self@, request.size);
            lemma_insert_keeps_order(self@, request);
        }
        self.places.insert(end, request);
    }

    /// Takes a place out of the queue.
    pub fn remove(&mut self, place: usize) -> (removed: ResourceRequest)
        requires
            old(self).wf(),
            place < old(self)@.len(),
        ensures
            final(self).wf(),
            final(self)@ == old(self)@.remove(place as int),
            removed == old(self)@[place as int],
    {
        proof {
            lemma_remove_keeps_order(self@, place as int);
        }
        self.places.remove(place)
    }

    /// The place of the oldest request among those that ask for the most and fit into `size` bytes.
    pub fn largest_up_to(&self, size: usize) -> (place: Option<usize>)
        requires
            self.wf(),
        ensures
            match place {
                Some(i) => {
                    &&& is_oldest_of_largest(self@, size, i as int)
                    &&& i < self@.len()
                    &&& self@[i as int].size <= size
                    &&& forall|j: int|
                        0 <= j < self@.len() && (#[trigger] self@[j]).size <= size ==> self@[j].size
                            <= self@[i as int].size
                    &&& forall|j: int|
                        0 <= j < i ==> (#[trigger] self@[j]).size < self@[i as int].size
                },
                None => forall|j: int| 0 <= j < self@.len() ==> (#[trigger] self@[j]).size > size,
            },
    {
        let end: usize = self.count_up_to(size);
        proof {
            lemma_end_of(self@, size);
        }
        if end == 0 {
            return None;
        }
        let largest: usize = self.places[end - 1].size;
        assert(largest == self@[end - 1].size);
        Some(self.first_of(largest))
    }

    /// The request at a place.
    pub fn request_at(&self, place: usize) -> (request: ResourceRequest)
        requires
            place < self@.len(),
        ensures
            request == self@[place as int],
    {
        self.places[place]
    }

    /// The first place that asks for at least `size` bytes.
    fn first_of(&self, size: usize) -> (place: usize)
        requires
            self.wf(),
        ensures
            place <= self@.len(),
            forall|j: int| 0 <= j < place ==> (#[trigger] self@[j]).size < size,
            forall|j: int| place <= j < self@.len() ==> (#[trigger] self@[j]).size >= size,
    {
        if size == 0 {
            0
        } else {
            proof {
                lemma_end_of(self@, (size - 1) as usize);
            }
            self.count_up_to(size - 1)
        }
    }

    /// The number of places.
    pub fn len(&self) -> (n: usize)
        ensures
            n == self@.len(),
    {
        self.places.len()
    }

    pub fn is_empty(&self) -> (empty: bool)
        ensures
            empty == (self@.len() == 0),
    {
        self.places.len() == 0
    }
}

/// A sorted queue stays sorted when a request gets a place behind all that ask for as much or less.
pub proof fn lemma_insert_keeps_order(
    queue: Seq<ResourceRequest>,
    place: ResourceRequest,
)
    requires
        is_sorted(queue),
    ensures
        is_sorted(queue.insert(end_of(queue, place.size) as int, place)),
{
    let end = end_of(queue, place.size) as int;
    let after = queue.insert(end, place);
    lemma_end_of(queue, place.size);
    assert forall|i: int, j: int| 0 <= i < j < after.len() implies (#[trigger] after[i]).size <= (
    #[trigger] after[j]).size by {
        assert(after[i] == (if i < end {
            queue[i]
        } else if i == end {
            place
        } else {
            queue[i - 1]
        }));
        assert(after[j] == (if j < end {
            queue[j]
        } else if j == end {
            place
        } else {
            queue[j - 1]
        }));
    }
}

/// A sorted queue stays sorted when a place is given up.
pub proof fn lemma_remove_keeps_order(queue: Seq<ResourceRequest>, i: int)
    requires
        is_sorted(queue),
        0 <= i < queue.len(),
    ensures
        is_sorted(queue.remove(i)),
{
    let after = queue.remove(i);
    assert forall|a: int, b: int| 0 <= a < b < after.len() implies (#[trigger] after[a]).size <= (
    #[trigger] after[b]).size by {
        assert(after[a] == queue[if a < i { a } else { a + 1 }]);
        assert(after[b] == queue[if b < i { b } else { b + 1 }]);
    }
}

} // verus!
