//! What holds of every pool, whatever its blocks and requests are.

use crate::binary32;
use crate::blocks;
use crate::model;
use crate::model::PoolModel;
use crate::ordered_map;
use crate::ordered_map::SortKey;
use crate::pool;
use crate::resource;
use crate::resource::{Resource, ResourcePoolError, ResourceRequest, ResourceResponse};
use crate::wait_queue;
use crate::weight;
use std::collections::TryReserveError;
use vstd::prelude::*;
use vstd::std_specs::cmp::{PartialEqSpec, PartialOrdSpec};

verus! {

/// A pool that holds nothing is sound, whatever its capacity and threshold.
pub proof fn law_empty_pool_is_sound(max_capacity: usize, recycling_threshold: u32)
    ensures
        PoolModel::empty(max_capacity as nat, recycling_threshold).wf(),
{
}

/// A kept block is listed under its size, and every listed block is within the capacity.
pub proof fn law_kept_blocks_are_listed(m: PoolModel, ptr: usize)
    requires
        m.wf(),
        m.reserve.contains_key(ptr),
    ensures
        m.reserve[ptr].len() <= m.amount_in_reserve <= m.max_capacity,
        m.order.contains_key(Resource { size: m.reserve[ptr].len() as usize, ptr }),
{
    weight::lemma_weight_remove(m.reserve, |ptr: usize, block: Seq<u8>| block.len(), ptr);
    assert(m.order.contains_key(Resource { size: m.reserve[ptr].len() as usize, ptr }));
}

/// A block that is handed out is within the capacity.
pub proof fn law_used_blocks_are_counted(m: PoolModel, ptr: usize)
    requires
        m.wf(),
        m.in_use.contains_key(ptr),
    ensures
        m.in_use[ptr].len() <= m.amount_in_use <= m.max_capacity,
{
    weight::lemma_weight_remove(m.in_use, |ptr: usize, block: Seq<u8>| block.len(), ptr);
}

/// Handing a kept block out again keeps a sound pool sound.
pub proof fn law_reuse_keeps_soundness(m: PoolModel, r: Resource)
    requires
        m.wf(),
        m.order.contains_key(r),
    ensures
        m.after_reuse(r).wf(),
        r.size <= m.amount_in_reserve,
{
    let after = m.after_reuse(r);
    let bytes = |ptr: usize, block: Seq<u8>| block.len();
    weight::lemma_weight_remove(m.reserve, bytes, r.ptr);
    weight::lemma_weight_insert(m.in_use, bytes, r.ptr, m.reserve[r.ptr]);
    assert forall|o: Resource| #[trigger]
        after.order.contains_key(o) <==> after.reserve.contains_key(o.ptr)
            && after.reserve[o.ptr].len() == o.size by {
        assert(m.order.contains_key(o) <==> m.reserve.contains_key(o.ptr)
            && m.reserve[o.ptr].len() == o.size);
    }
    assert forall|ptr: usize|
        !(#[trigger] after.in_use.contains_key(ptr) && after.reserve.contains_key(ptr)) by {
        assert(!(m.in_use.contains_key(ptr) && m.reserve.contains_key(ptr)));
    }
}

/// The kept block that a request gets is listed, kept in full, large enough for the request, and
/// filled by it up to the threshold.
pub proof fn law_reusable_is_kept(m: PoolModel, size: usize)
    requires
        m.wf(),
        m.reusable(size) is Some,
    ensures
        m.order.contains_key(m.reusable(size)->0),
        m.reuse_error(m.reusable(size)->0) is None,
        m.reserve[m.reusable(size)->0.ptr].len() == m.reusable(size)->0.size,
        size <= m.reusable(size)->0.size,
        binary32::fills(size as nat, m.reusable(size)->0.size as nat, m.recycling_threshold),
{
    let r = m.reusable(size)->0;
    assert(model::is_suitable(m.order, size, m.recycling_threshold, r));
    assert(m.order.contains_key(r));
}

/// Handing out a new block that fits keeps a sound pool sound.
pub proof fn law_fresh_keeps_soundness(m: PoolModel, ptr: usize, block: Seq<u8>)
    requires
        m.wf(),
        m.has_room(block.len()),
        ptr != 0,
        !m.in_use.contains_key(ptr),
        !m.reserve.contains_key(ptr),
    ensures
        m.after_fresh(ptr, block).wf(),
{
    let after = m.after_fresh(ptr, block);
    weight::lemma_weight_insert(m.in_use, |ptr: usize, block: Seq<u8>| block.len(), ptr, block);
    assert forall|p: usize|
        !(#[trigger] after.in_use.contains_key(p) && after.reserve.contains_key(p)) by {
        assert(!(m.in_use.contains_key(p) && m.reserve.contains_key(p)));
    }
}

/// Putting a request into the queue keeps a sound pool sound.
pub proof fn law_enqueue_keeps_soundness(m: PoolModel, size: usize)
    requires
        m.wf(),
        m.amount_in_waiting + size <= usize::MAX,
    ensures
        m.after_enqueue(size).wf(),
{
    let request = ResourceRequest { size };
    let end = wait_queue::end_of(m.wait_queue, size) as int;
    wait_queue::lemma_end_of(m.wait_queue, size);
    wait_queue::lemma_total_insert(m.wait_queue, end, request);
    wait_queue::lemma_insert_keeps_order(m.wait_queue, request);
}

/// Taking a block back keeps a sound pool sound, whether a waiting request gets it or not.
pub proof fn law_reclaim_keeps_soundness(m: PoolModel, ptr: usize)
    requires
        m.wf(),
    ensures
        m.after_reclaim(ptr).wf(),
{
    let after = m.after_reclaim(ptr);
    if m.in_use.contains_key(ptr) {
        law_used_blocks_are_counted(m, ptr);
        let block = m.in_use[ptr];
        match m.next_owner(ptr) {
            Some(place) => {
                law_next_owner_waits(m, ptr);
                wait_queue::lemma_total_remove(m.wait_queue, place);
                wait_queue::lemma_remove_keeps_order(m.wait_queue, place);
            },
            None => {
                let bytes = |ptr: usize, block: Seq<u8>| block.len();
                weight::lemma_weight_remove(m.in_use, bytes, ptr);
                weight::lemma_weight_insert(m.reserve, bytes, ptr, block);
                assert(!m.reserve.contains_key(ptr));
                assert forall|o: Resource| #[trigger]
                    after.order.contains_key(o) <==> after.reserve.contains_key(o.ptr)
                        && after.reserve[o.ptr].len() == o.size by {
                    assert(m.order.contains_key(o) <==> m.reserve.contains_key(o.ptr)
                        && m.reserve[o.ptr].len() == o.size);
                }
                assert forall|p: usize|
                    !(#[trigger] after.in_use.contains_key(p) && after.reserve.contains_key(p)) by {
                    assert(!(m.in_use.contains_key(p) && m.reserve.contains_key(p)));
                }
            },
        }
    }
}

/// The request that gets a block that comes back has a place in the queue, fits into the block,
/// and fills it up to the threshold.
pub proof fn law_next_owner_waits(m: PoolModel, ptr: usize)
    requires
        m.wf(),
        m.next_owner(ptr) is Some,
    ensures
        m.in_use.contains_key(ptr),
        m.in_use[ptr].len() <= usize::MAX,
        model::is_match(
            m.wait_queue,
            m.in_use[ptr].len() as usize,
            m.recycling_threshold,
            m.next_owner(ptr)->0,
        ),
        0 <= m.next_owner(ptr)->0 < m.wait_queue.len(),
        m.wait_queue[m.next_owner(ptr)->0].size <= m.in_use[ptr].len(),
        m.wait_queue[m.next_owner(ptr)->0].size <= m.amount_in_waiting,
{
    law_used_blocks_are_counted(m, ptr);
    let place = m.next_owner(ptr)->0;
    let size = m.in_use[ptr].len() as usize;
    assert(exists|i: int| model::is_match(m.wait_queue, size, m.recycling_threshold, i));
    wait_queue::lemma_total_remove(m.wait_queue, place);
}

/// The memory that a pool holds: every block, handed out or kept, by address.
pub open spec fn held(m: PoolModel) -> Map<usize, Seq<u8>> {
    m.in_use.union_prefer_right(m.reserve)
}

/// Handing a kept block out again moves memory about, and neither gains nor loses any: the pool
/// holds the same blocks with the same bytes, its size stays, and nobody stops waiting.
pub proof fn law_reuse_conserves_memory(m: PoolModel, r: Resource)
    requires
        m.wf(),
        m.order.contains_key(r),
    ensures
        held(m.after_reuse(r)) == held(m),
        m.after_reuse(r).current_size() == m.current_size(),
        m.after_reuse(r).wait_queue == m.wait_queue,
        m.after_reuse(r).amount_in_waiting == m.amount_in_waiting,
        m.after_reuse(r).in_use.contains_key(r.ptr),
        !m.after_reuse(r).reserve.contains_key(r.ptr),
        m.after_reuse(r).in_use[r.ptr] == m.reserve[r.ptr],
        m.after_reuse(r).in_use[r.ptr].len() == r.size,
        m.after_reuse(r).amount_in_use == m.amount_in_use + r.size,
        m.after_reuse(r).amount_in_reserve + r.size == m.amount_in_reserve,
        forall|p: usize| #[trigger]
            m.after_reuse(r).reserve.contains_key(p) <==> m.reserve.contains_key(p) && p != r.ptr,
{
    law_reuse_keeps_soundness(m, r);
    assert(m.reserve.contains_key(r.ptr));
    assert forall|p: usize| m.in_use.contains_key(p) implies !m.reserve.contains_key(p) by {}
    assert(held(m.after_reuse(r)) =~= held(m));
}

/// Taking a block back conserves memory in the same way, whether a waiting request gets the block
/// or not.
pub proof fn law_reclaim_conserves_memory(m: PoolModel, ptr: usize)
    requires
        m.wf(),
    ensures
        held(m.after_reclaim(ptr)) == held(m),
        m.after_reclaim(ptr).current_size() == m.current_size(),
{
    if m.in_use.contains_key(ptr) {
        law_used_blocks_are_counted(m, ptr);
    }
    assert(held(m.after_reclaim(ptr)) =~= held(m));
}

/// A new block is added to what the pool holds, disturbs no block that is there, and makes the
/// pool larger by its own size, within the capacity.
pub proof fn law_fresh_adds_memory(m: PoolModel, ptr: usize, block: Seq<u8>)
    requires
        m.wf(),
        m.has_room(block.len()),
        m.fresh_error(ptr) is None,
    ensures
        held(m.after_fresh(ptr, block)) == held(m).insert(ptr, block),
        !held(m).contains_key(ptr),
        m.after_fresh(ptr, block).current_size() == m.current_size() + block.len(),
        m.after_fresh(ptr, block).current_size() <= m.max_capacity,
        m.after_fresh(ptr, block).in_use.contains_key(ptr),
        m.after_fresh(ptr, block).in_use[ptr] == block,
        m.after_fresh(ptr, block).amount_in_use == m.amount_in_use + block.len(),
        m.after_fresh(ptr, block).amount_in_reserve == m.amount_in_reserve,
        m.after_fresh(ptr, block).reserve == m.reserve,
        m.after_fresh(ptr, block).wait_queue == m.wait_queue,
        m.after_fresh(ptr, block).amount_in_waiting == m.amount_in_waiting,
{
    assert(held(m.after_fresh(ptr, block)) =~= held(m).insert(ptr, block));
}

/// A request that is put into the queue moves no memory.
pub proof fn law_enqueue_moves_no_memory(m: PoolModel, size: usize)
    ensures
        held(m.after_enqueue(size)) == held(m),
        m.after_enqueue(size).in_use == m.in_use,
        m.after_enqueue(size).reserve == m.reserve,
        m.after_enqueue(size).current_size() == m.current_size(),
{
}

/// A block that is handed out again and comes straight back, with no waiting request to take it,
/// leaves the pool as it was.
pub proof fn law_reclaim_undoes_reuse(m: PoolModel, r: Resource)
    requires
        m.wf(),
        m.order.contains_key(r),
        m.after_reuse(r).next_owner(r.ptr) is None,
    ensures
        m.after_reuse(r).after_reclaim(r.ptr) == m,
{
    law_reuse_keeps_soundness(m, r);
    let back = m.after_reuse(r).after_reclaim(r.ptr);
    assert(m.reserve.contains_key(r.ptr));
    assert(!m.in_use.contains_key(r.ptr));
    assert(back.in_use =~= m.in_use);
    assert(back.reserve =~= m.reserve);
    assert(back.order =~= m.order);
}

/// A block that comes back, with no waiting request to take it, and is handed out again leaves the
/// pool as it was.
pub proof fn law_reuse_undoes_reclaim(m: PoolModel, ptr: usize)
    requires
        m.wf(),
        m.in_use.contains_key(ptr),
        m.next_owner(ptr) is None,
    ensures
        m.after_reclaim(ptr).after_reuse(
            Resource { size: m.in_use[ptr].len() as usize, ptr },
        ) == m,
{
    law_used_blocks_are_counted(m, ptr);
    let r = Resource { size: m.in_use[ptr].len() as usize, ptr };
    let back = m.after_reclaim(ptr).after_reuse(r);
    assert(!m.reserve.contains_key(ptr));
    assert(!m.order.contains_key(r));
    assert(back.in_use =~= m.in_use);
    assert(back.reserve =~= m.reserve);
    assert(back.order =~= m.order);
}

/// A pointer that the pool has not handed out, the null pointer among them, changes nothing when
/// it comes back, and answers nobody.
pub proof fn law_unknown_pointer_is_ignored(m: PoolModel, ptr: usize)
    requires
        m.wf(),
        ptr == 0 || !m.in_use.contains_key(ptr),
    ensures
        m.after_reclaim(ptr) == m,
        m.reclaim_reply(ptr) is None,
{
}

/// A block comes back once: a second return of the same pointer, after the block was kept, changes
/// nothing.
pub proof fn law_second_return_is_ignored(m: PoolModel, ptr: usize)
    requires
        m.wf(),
        m.next_owner(ptr) is None,
    ensures
        m.after_reclaim(ptr).after_reclaim(ptr) == m.after_reclaim(ptr),
        m.after_reclaim(ptr).reclaim_reply(ptr) is None,
{
}

/// A block that suits a waiting request goes to it when it comes back: the request leaves the
/// queue and is no longer counted, it is answered with the block, and the block stays in use with
/// all of its bytes.
pub proof fn law_matched_request_is_served(m: PoolModel, ptr: usize)
    requires
        m.wf(),
        m.next_owner(ptr) is Some,
    ensures
        m.reclaim_reply(ptr) == Some(
            Resource { size: m.wait_queue[m.next_owner(ptr)->0].size, ptr },
        ),
        0 <= m.next_owner(ptr)->0 < m.wait_queue.len(),
        m.after_reclaim(ptr).wait_queue == m.wait_queue.remove(m.next_owner(ptr)->0),
        m.after_reclaim(ptr).amount_in_waiting + m.wait_queue[m.next_owner(ptr)->0].size
            == m.amount_in_waiting,
        m.after_reclaim(ptr).in_use == m.in_use,
        m.after_reclaim(ptr).reserve == m.reserve,
        m.after_reclaim(ptr).amount_in_use == m.amount_in_use,
        m.after_reclaim(ptr).amount_in_reserve == m.amount_in_reserve,
{
    law_next_owner_waits(m, ptr);
}

/// A block that suits no waiting request is kept when it comes back, listed under its size, and
/// the queue stays as it is.
pub proof fn law_unmatched_block_is_kept(m: PoolModel, ptr: usize)
    requires
        m.wf(),
        m.in_use.contains_key(ptr),
        m.next_owner(ptr) is None,
    ensures
        m.reclaim_reply(ptr) is None,
        !m.after_reclaim(ptr).in_use.contains_key(ptr),
        m.after_reclaim(ptr).reserve == m.reserve.insert(ptr, m.in_use[ptr]),
        m.after_reclaim(ptr).order.contains_key(
            Resource { size: m.in_use[ptr].len() as usize, ptr },
        ),
        m.after_reclaim(ptr).amount_in_use + m.in_use[ptr].len() == m.amount_in_use,
        m.after_reclaim(ptr).amount_in_reserve == m.amount_in_reserve + m.in_use[ptr].len(),
        m.after_reclaim(ptr).wait_queue == m.wait_queue,
{
    law_used_blocks_are_counted(m, ptr);
}

/// No kept block that can hold the request is smaller than the one that is handed out for it, and
/// none of the same size lies at a lower address.
pub proof fn law_smallest_block_is_reused(m: PoolModel, size: usize, ptr: usize)
    requires
        m.wf(),
        m.reusable(size) is Some,
        m.reserve.contains_key(ptr),
        size <= m.reserve[ptr].len(),
    ensures
        m.reusable(size)->0.size <= m.reserve[ptr].len(),
        m.reusable(size)->0.size == m.reserve[ptr].len() ==> m.reusable(size)->0.ptr <= ptr,
{
    let r = m.reusable(size)->0;
    assert(model::is_suitable(m.order, size, m.recycling_threshold, r));
    law_kept_blocks_are_listed(m, ptr);
    assert(m.order.contains_key(Resource { size: m.reserve[ptr].len() as usize, ptr }));
}

/// Whether a kept block of no bytes hides other kept blocks from a request for no bytes: it is the
/// smallest that can hold the request and never counts as filled, while a block with bytes would,
/// against a threshold that nothing is enough for.
pub open spec fn empty_block_hides_others(m: PoolModel, size: usize) -> bool {
    &&& size == 0
    &&& binary32::reaches(0, m.recycling_threshold)
    &&& exists|ptr: usize| #[trigger] m.reserve.contains_key(ptr) && m.reserve[ptr].len() == 0
    &&& exists|ptr: usize| #[trigger] m.reserve.contains_key(ptr) && m.reserve[ptr].len() > 0
}

/// Nothing is hidden from a request for any bytes, nor where the threshold is above zero or no
/// number, nor where no block of no bytes is kept.
pub proof fn law_little_is_hidden(m: PoolModel, size: usize)
    ensures
        size > 0 ==> !empty_block_hides_others(m, size),
        0 < m.recycling_threshold < 0x8000_0000 || m.recycling_threshold > 0xff80_0000
            ==> !empty_block_hides_others(m, size),
        (forall|ptr: usize| #[trigger]
            m.reserve.contains_key(ptr) ==> m.reserve[ptr].len() > 0) ==> !empty_block_hides_others(
            m,
            size,
        ),
{
    if 0 < m.recycling_threshold < 0x8000_0000 || m.recycling_threshold > 0xff80_0000 {
        binary32::law_thresholds_at_the_edges(0, 1, m.recycling_threshold);
    }
}

/// It is enough to look at the smallest kept block that can hold a request: a request gets no kept
/// block just when it fills none of those that can hold it up to the threshold, unless a block of
/// no bytes hides the others from it.
pub proof fn law_one_look_at_the_reserve_suffices(m: PoolModel, size: usize)
    requires
        m.wf(),
        !empty_block_hides_others(m, size),
    ensures
        m.reusable(size) is None <==> forall|ptr: usize| #[trigger]
            m.reserve.contains_key(ptr) && size <= m.reserve[ptr].len() ==> !binary32::fills(
                size as nat,
                m.reserve[ptr].len(),
                m.recycling_threshold,
            ),
{
    if m.reusable(size) is Some {
        law_reusable_is_kept(m, size);
        let r = m.reusable(size)->0;
        assert(m.reserve.contains_key(r.ptr));
    } else {
        assert forall|ptr: usize| #[trigger]
            m.reserve.contains_key(ptr) && size <= m.reserve[ptr].len() implies !binary32::fills(
            size as nat,
            m.reserve[ptr].len(),
            m.recycling_threshold,
        ) by {
            law_kept_blocks_are_listed(m, ptr);
            let bound = Resource { size, ptr: 0 };
            let kept = Resource { size: m.reserve[ptr].len() as usize, ptr };
            let nearest = lemma_nearest_listed(m, bound, kept);
            assert(m.order.contains_key(nearest));
            assert(m.reserve.contains_key(nearest.ptr));
            assert(!model::is_suitable(m.order, size, m.recycling_threshold, nearest));
            if binary32::fills(size as nat, m.reserve[ptr].len(), m.recycling_threshold)
                && nearest.size > 0 {
                binary32::law_fills_shrinks_with_block(
                    size as nat,
                    nearest.size as nat,
                    kept.size as nat,
                    m.recycling_threshold,
                );
            }
        }
    }
}

/// If a listed block does not sort before `bound`, there is a least one among those that do not.
proof fn lemma_nearest_listed(m: PoolModel, bound: Resource, kept: Resource) -> (nearest: Resource)
    requires
        m.order.contains_key(kept),
        !ordered_map::before(kept.rank(), bound.rank()),
    ensures
        ordered_map::is_first_at_least(m.order, bound, nearest),
        nearest.size <= kept.size,
    decreases kept.size, kept.ptr,
{
    if ordered_map::is_first_at_least(m.order, bound, kept) {
        kept
    } else {
        let closer = choose|o: Resource| #[trigger]
            m.order.contains_key(o) && !ordered_map::before(o.rank(), bound.rank())
                && ordered_map::before(o.rank(), kept.rank());
        lemma_nearest_listed(m, bound, closer)
    }
}

/// It is enough to look at the largest waiting request that fits: a block that comes back goes to
/// nobody just when no waiting request that fits into it fills it up to the threshold.
pub proof fn law_one_look_at_the_queue_suffices(m: PoolModel, ptr: usize)
    requires
        m.wf(),
        m.in_use.contains_key(ptr),
    ensures
        m.next_owner(ptr) is None <==> forall|i: int|
            0 <= i < m.wait_queue.len() && (#[trigger] m.wait_queue[i]).size
                <= m.in_use[ptr].len() ==> !binary32::fills(
                m.wait_queue[i].size as nat,
                m.in_use[ptr].len(),
                m.recycling_threshold,
            ),
{
    law_used_blocks_are_counted(m, ptr);
    let size = m.in_use[ptr].len() as usize;
    if m.next_owner(ptr) is Some {
        law_next_owner_waits(m, ptr);
    } else {
        assert forall|i: int|
            0 <= i < m.wait_queue.len() && (#[trigger] m.wait_queue[i]).size
                <= m.in_use[ptr].len() implies !binary32::fills(
            m.wait_queue[i].size as nat,
            m.in_use[ptr].len(),
            m.recycling_threshold,
        ) by {
            let nearest = lemma_nearest_waiting(m, size, i);
            assert(!model::is_match(m.wait_queue, size, m.recycling_threshold, nearest));
            if binary32::fills(
                m.wait_queue[i].size as nat,
                size as nat,
                m.recycling_threshold,
            ) {
                binary32::law_fills_grows_with_request(
                    m.wait_queue[i].size as nat,
                    m.wait_queue[nearest].size as nat,
                    size as nat,
                    m.recycling_threshold,
                );
            }
        }
    }
}

/// If a waiting request fits into `size` bytes, there is an oldest among the largest that do.
proof fn lemma_nearest_waiting(m: PoolModel, size: usize, i: int) -> (nearest: int)
    requires
        0 <= i < m.wait_queue.len(),
        m.wait_queue[i].size <= size,
    ensures
        wait_queue::is_oldest_of_largest(m.wait_queue, size, nearest),
        m.wait_queue[i].size <= m.wait_queue[nearest].size <= size,
    decreases size - m.wait_queue[i].size, i,
{
    let queue = m.wait_queue;
    if wait_queue::is_oldest_of_largest(queue, size, i) {
        i
    } else if exists|j: int|
        0 <= j < queue.len() && (#[trigger] queue[j]).size <= size && queue[j].size
            > queue[i].size {
        let closer = choose|j: int|
            0 <= j < queue.len() && (#[trigger] queue[j]).size <= size && queue[j].size
                > queue[i].size;
        lemma_nearest_waiting(m, size, closer)
    } else {
        let closer = choose|j: int|
            0 <= j < i && (#[trigger] queue[j]).size == queue[i].size;
        lemma_nearest_waiting(m, size, closer)
    }
}

/// Of the waiting requests that fit into a block that comes back, none is larger than the one that
/// gets it, and none of its size came earlier.
pub proof fn law_largest_and_oldest_request_is_served(m: PoolModel, ptr: usize, i: int)
    requires
        m.wf(),
        m.next_owner(ptr) is Some,
        0 <= i < m.wait_queue.len(),
        m.wait_queue[i].size <= m.in_use[ptr].len(),
    ensures
        m.wait_queue[i].size <= m.wait_queue[m.next_owner(ptr)->0].size,
        m.wait_queue[i].size == m.wait_queue[m.next_owner(ptr)->0].size ==> m.next_owner(ptr)->0
            <= i,
{
    law_next_owner_waits(m, ptr);
}

/// A request that is put into the queue takes nobody's place: all others are there as before, in
/// the same order, and those that ask for as much stand before it.
pub proof fn law_enqueue_removes_nobody(m: PoolModel, size: usize)
    requires
        m.wf(),
    ensures
        m.after_enqueue(size).wait_queue.len() == m.wait_queue.len() + 1,
        exists|place: int|
            {
                &&& 0 <= place <= m.wait_queue.len()
                &&& #[trigger] m.after_enqueue(size).wait_queue.remove(place) == m.wait_queue
                &&& m.after_enqueue(size).wait_queue[place] == (ResourceRequest { size })
                &&& forall|j: int|
                    place < j < m.after_enqueue(size).wait_queue.len() ==> (
                    #[trigger] m.after_enqueue(size).wait_queue[j]).size > size
            },
        m.after_enqueue(size).amount_in_waiting == m.amount_in_waiting + size,
{
    let end = wait_queue::end_of(m.wait_queue, size) as int;
    let after = m.after_enqueue(size).wait_queue;
    wait_queue::lemma_end_of(m.wait_queue, size);
    assert(after.remove(end) =~= m.wait_queue);
    assert forall|j: int| end < j < after.len() implies (#[trigger] after[j]).size > size by {
        assert(after[j] == m.wait_queue[j - 1]);
    }
}

/// Every waiting request keeps its place until it is served: a call leaves the queue as it is,
/// adds a place to it, or takes out the place of the one request that it answers with memory.
pub proof fn law_requests_wait_until_served(m: PoolModel, step: Step)
    requires
        m.wf(),
    ensures
        ({
            let queue = m.wait_queue;
            let after = after_step(m, step).wait_queue;
            ||| after == queue
            ||| exists|place: int|
                0 <= place <= queue.len() && after.len() == queue.len() + 1
                    && #[trigger] after.remove(place) == queue
            ||| exists|ptr: usize, place: int|
                step == (Step::Reclaim { ptr }) && 0 <= place < queue.len()
                    && after == #[trigger] queue.remove(place) && #[trigger] m.reclaim_reply(ptr)
                    == Some(Resource { size: queue[place].size, ptr })
        }),
{
    match step {
        Step::Allocate { size, answer } => {
            law_enqueue_removes_nobody(m, size);
        },
        Step::Reclaim { ptr } => {
            if m.next_owner(ptr) is Some {
                law_matched_request_is_served(m, ptr);
                let place = m.next_owner(ptr)->0;
                assert(after_step(m, step).wait_queue == m.wait_queue.remove(place));
            }
        },
        Step::Shutdown => {},
    }
}

/// Bytes are waited for only while somebody waits for them.
pub proof fn law_empty_queue_waits_for_nothing(m: PoolModel)
    requires
        m.wf(),
        m.wait_queue.len() == 0,
    ensures
        m.amount_in_waiting == 0,
{
}

/// A kept block of exactly the size of a request is handed out for it, whatever other blocks are
/// kept, as long as the threshold is not above 1.0.
pub proof fn law_exact_match_is_reused(m: PoolModel, ptr: usize)
    requires
        m.wf(),
        m.reserve.contains_key(ptr),
        m.reserve[ptr].len() > 0,
        binary32::is_number(m.recycling_threshold),
        m.recycling_threshold >= 0x8000_0000 || m.recycling_threshold <= binary32::ONE,
    ensures
        m.reusable(m.reserve[ptr].len() as usize) is Some,
        m.reusable(m.reserve[ptr].len() as usize)->0.size == m.reserve[ptr].len(),
        m.reusable(m.reserve[ptr].len() as usize)->0.ptr <= ptr,
{
    law_kept_blocks_are_listed(m, ptr);
    let size = m.reserve[ptr].len() as usize;
    let kept = Resource { size, ptr };
    let nearest = lemma_nearest_listed(m, Resource { size, ptr: 0 }, kept);
    binary32::law_exact_size_fills(size as nat, m.recycling_threshold);
    model::lemma_suitable(m.order, size, m.recycling_threshold, nearest);
    assert(!ordered_map::before(kept.rank(), nearest.rank()));
}

/// A block that came back and was kept serves the next request of its size, as long as the
/// threshold is not above 1.0: the request gets a kept block of exactly that size, and gets this
/// one if no other of that size is kept.
pub proof fn law_returned_block_is_reused(m: PoolModel, ptr: usize)
    requires
        m.wf(),
        m.in_use.contains_key(ptr),
        m.in_use[ptr].len() > 0,
        m.next_owner(ptr) is None,
        binary32::is_number(m.recycling_threshold),
        m.recycling_threshold >= 0x8000_0000 || m.recycling_threshold <= binary32::ONE,
    ensures
        m.after_reclaim(ptr).reusable(m.in_use[ptr].len() as usize) matches Some(r) && r.size
            == m.in_use[ptr].len(),
        (forall|p: usize| #[trigger]
            m.reserve.contains_key(p) ==> m.reserve[p].len() != m.in_use[ptr].len())
            ==> m.after_reclaim(ptr).reusable(m.in_use[ptr].len() as usize) == Some(
            Resource { size: m.in_use[ptr].len() as usize, ptr },
        ),
{
    law_reclaim_keeps_soundness(m, ptr);
    law_used_blocks_are_counted(m, ptr);
    let after = m.after_reclaim(ptr);
    let size = m.in_use[ptr].len() as usize;
    law_exact_match_is_reused(after, ptr);
    law_reusable_is_kept(after, size);
    let r = after.reusable(size)->0;
    assert(after.reserve.contains_key(r.ptr));
    assert(r.ptr != ptr ==> m.reserve.contains_key(r.ptr));
}

/// Against a threshold of zero, a block that comes back goes to a waiting request whenever one
/// fits into it.
pub proof fn law_zero_threshold_serves_any_request(m: PoolModel, ptr: usize, i: int)
    requires
        m.wf(),
        m.recycling_threshold == 0,
        m.in_use.contains_key(ptr),
        m.in_use[ptr].len() > 0,
        0 <= i < m.wait_queue.len(),
        m.wait_queue[i].size <= m.in_use[ptr].len(),
    ensures
        m.next_owner(ptr) is Some,
{
    law_one_look_at_the_queue_suffices(m, ptr);
    binary32::law_zero_threshold_admits_all(m.wait_queue[i].size as nat, m.in_use[ptr].len());
}

/// A request is told the truth about what it gets. One that gets a kept block is told where the
/// block lies and how large it is, which is at least what was asked for, and the block is in use
/// afterwards. One that gets a new block gets as many bytes as it asked for, all of them zero, and
/// they are counted. One that has to wait is told so, with the null pointer, and has a place in the
/// queue. Where the system has nothing to give, nothing changes.
pub proof fn law_requests_are_told_what_they_get(m: PoolModel, size: usize, answer: usize)
    requires
        m.wf(),
    ensures
        m.reusable(size) matches Some(r) ==> ({
            let response = model::filled_response(r);
            let ptr = response.resource.ptr;
            let after = m.after_allocate(size, answer);
            &&& response.state is Filled
            &&& ptr != 0
            &&& m.reserve.contains_key(ptr)
            &&& !m.in_use.contains_key(ptr)
            &&& after.in_use.contains_key(ptr)
            &&& after.in_use[ptr] == m.reserve[ptr]
            &&& after.in_use[ptr].len() == response.resource.size
            &&& size <= response.resource.size
            &&& after.amount_in_use == m.amount_in_use + response.resource.size
            &&& after.amount_in_reserve + response.resource.size == m.amount_in_reserve
        }),
        m.reusable(size) is None && m.amount_in_use + m.amount_in_reserve + size <= m.max_capacity
            && answer != 0 && !m.in_use.contains_key(answer) && !m.reserve.contains_key(answer)
            ==> ({
            let response = model::filled_response(Resource { size, ptr: answer });
            let after = m.after_allocate(size, answer);
            &&& response.state is Filled
            &&& response.resource.ptr == answer
            &&& response.resource.size == size
            &&& after.in_use.contains_key(answer)
            &&& after.in_use[answer].len() == size
            &&& forall|i: int| 0 <= i < size ==> #[trigger] after.in_use[answer][i] == 0
            &&& after.amount_in_use == m.amount_in_use + size
            &&& after.amount_in_reserve == m.amount_in_reserve
        }),
        m.reusable(size) is None && m.amount_in_use + m.amount_in_reserve + size <= m.max_capacity
            && (answer == 0 || m.in_use.contains_key(answer) || m.reserve.contains_key(answer))
            ==> m.after_allocate(size, answer) == m,
        m.reusable(size) is None && m.amount_in_use + m.amount_in_reserve + size > m.max_capacity
            ==> ({
            let response = model::waiting_response(size);
            let after = m.after_allocate(size, answer);
            &&& response.state is Waiting
            &&& response.resource.ptr == 0
            &&& response.resource.size == size
            &&& after.wait_queue.len() == m.wait_queue.len() + 1
            &&& after.amount_in_waiting == m.amount_in_waiting + size
            &&& after.in_use == m.in_use
            &&& after.reserve == m.reserve
            &&& after.amount_in_use == m.amount_in_use
            &&& after.amount_in_reserve == m.amount_in_reserve
        }),
{
    if m.reusable(size) is Some {
        law_reusable_is_kept(m, size);
        law_reuse_conserves_memory(m, m.reusable(size)->0);
        assert(m.reserve.contains_key(m.reusable(size)->0.ptr));
    } else {
        law_new_block_is_all_zeros(size as nat);
        law_enqueue_removes_nobody(m, size);
    }
}

/// The response that hands memory out names exactly the memory: where it lies and how large it is.
/// It is filled, and never null in a pool that is sound.
pub proof fn law_filled_response_names_its_resource(r: Resource)
    ensures
        model::filled_response(r).state is Filled,
        model::filled_response(r).resource.ptr == r.ptr,
        model::filled_response(r).resource.size == r.size,
        resource::next_step(model::filled_response(r)) is Proceed,
{
}

/// The response that a request waits with carries the size that was asked for and the null pointer,
/// and its holder has to sleep.
pub proof fn law_waiting_response_says_so(size: usize)
    ensures
        model::waiting_response(size).state is Waiting,
        model::waiting_response(size).resource.ptr == 0,
        model::waiting_response(size).resource.size == size,
        resource::next_step(model::waiting_response(size)) is Sleep,
{
}

/// A new block has as many bytes as were asked for, and all of them are zero.
pub proof fn law_new_block_is_all_zeros(size: nat)
    ensures
        blocks::zeros(size).len() == size,
        forall|i: int| 0 <= i < size ==> #[trigger] blocks::zeros(size)[i] == 0,
{
}

/// A request for a new block fails only by the system's answer. The system is asked for as many
/// bytes as the block has, and for one byte where it has none. Where it refuses, the allocation has
/// failed. Where it gives the memory, the block is handed out at the address that it lies at, unless
/// the pool holds a block there already.
pub proof fn law_new_block_fails_only_by_the_system(
    before: PoolModel,
    size: usize,
    after: PoolModel,
    result: Result<ResourceResponse, ResourcePoolError>,
)
    requires
        pool::fresh_outcome(before, size, after, result),
    ensures
        exists|asked: &mut Vec<u8>, n: usize, answer: Result<(), TryReserveError>|
            {
                &&& n == (if size == 0 {
                    1
                } else {
                    size
                })
                &&& #[trigger] call_ensures(Vec::<u8>::try_reserve, (asked, n), answer)
                &&& answer is Err <==> (result matches Err(error) && error is AllocationFailed)
                &&& result matches Err(error) ==> answer is Ok ==> error
                    is AllocatedBlockAlreadyInUse
            },
        exists|obtained: (usize, Vec<u8>)|
            {
                &&& #[trigger] call_ensures(blocks::obtain_block, (size,), obtained)
                &&& result is Ok <==> obtained.0 != 0 && !before.in_use.contains_key(obtained.0)
                    && !before.reserve.contains_key(obtained.0)
                &&& result matches Ok(response) ==> {
                    &&& response.state is Filled
                    &&& response.resource.ptr == obtained.0
                    &&& response.resource.size == size
                    &&& after.in_use.contains_key(obtained.0)
                    &&& after.in_use[obtained.0].len() == size
                    &&& forall|i: int| 0 <= i < size ==> #[trigger] after.in_use[obtained.0][i] == 0
                    &&& after.amount_in_use == before.amount_in_use + size
                }
                &&& result is Err ==> after == before
            },
{
    law_new_block_is_all_zeros(size as nat);
    let obtained = choose|obtained: (usize, Vec<u8>)| #[trigger]
        call_ensures(blocks::obtain_block, (size,), obtained) && match before.fresh_error(
            obtained.0,
        ) {
            None => result matches Ok(response) && response.resource.ptr == obtained.0 && after
                == before.after_fresh(obtained.0, obtained.1@),
            Some(error) => result == Err::<ResourceResponse, _>(error),
        };
    assert(call_ensures(blocks::obtain_block, (size,), obtained));
}

/// A request has to wait just when it gets no kept block and would take the pool over its capacity.
pub proof fn law_requests_wait_for_want_of_room(m: PoolModel, size: usize)
    ensures
        m.must_wait(size) <==> m.reusable(size) is None && m.amount_in_use + m.amount_in_reserve
            + size > m.max_capacity,
        m.has_room(size as nat) <==> m.amount_in_use + m.amount_in_reserve + size
            <= m.max_capacity,
        m.current_size() == m.amount_in_use + m.amount_in_reserve,
{
}

/// A new pool holds nothing, waits for nothing, and has the capacity and threshold that it was made
/// with.
pub proof fn law_new_pool_is_empty(max_capacity: nat, recycling_threshold: u32)
    ensures
        ({
            let m = PoolModel::empty(max_capacity, recycling_threshold);
            &&& m.max_capacity == max_capacity
            &&& m.recycling_threshold == recycling_threshold
            &&& m.amount_in_use == 0
            &&& m.amount_in_reserve == 0
            &&& m.amount_in_waiting == 0
            &&& m.wait_queue.len() == 0
            &&& !m.shut_down
            &&& forall|ptr: usize|
                !(#[trigger] m.in_use.contains_key(ptr)) && !m.reserve.contains_key(ptr)
            &&& forall|r: Resource| !(#[trigger] m.order.contains_key(r))
        }),
{
}

/// What soundness means: the amounts are within the capacity, no block is both in use and kept or
/// lies at the null address, the list holds the kept blocks under their sizes and nothing else, and
/// the queue is sorted.
pub proof fn law_sound_pools_are_consistent(m: PoolModel)
    requires
        m.wf(),
    ensures
        m.amount_in_use + m.amount_in_reserve <= m.max_capacity,
        forall|ptr: usize| #[trigger]
            m.in_use.contains_key(ptr) ==> ptr != 0 && !m.reserve.contains_key(ptr)
                && m.in_use[ptr].len() <= m.amount_in_use,
        forall|ptr: usize| #[trigger]
            m.reserve.contains_key(ptr) ==> ptr != 0 && m.reserve[ptr].len() <= m.amount_in_reserve
                && m.order.contains_key(Resource { size: m.reserve[ptr].len() as usize, ptr }),
        forall|r: Resource| #[trigger]
            m.order.contains_key(r) ==> m.reserve.contains_key(r.ptr) && m.reserve[r.ptr].len()
                == r.size,
        forall|i: int, j: int|
            0 <= i < j < m.wait_queue.len() ==> (#[trigger] m.wait_queue[i]).size <= (
            #[trigger] m.wait_queue[j]).size,
        forall|i: int|
            0 <= i < m.wait_queue.len() ==> (#[trigger] m.wait_queue[i]).size
                <= m.amount_in_waiting,
{
    assert forall|ptr: usize| #[trigger] m.in_use.contains_key(ptr) implies ptr != 0
        && !m.reserve.contains_key(ptr) && m.in_use[ptr].len() <= m.amount_in_use by {
        law_used_blocks_are_counted(m, ptr);
    }
    assert forall|ptr: usize| #[trigger] m.reserve.contains_key(ptr) implies ptr != 0
        && m.reserve[ptr].len() <= m.amount_in_reserve && m.order.contains_key(
        Resource { size: m.reserve[ptr].len() as usize, ptr },
    ) by {
        law_kept_blocks_are_listed(m, ptr);
    }
    assert forall|i: int| 0 <= i < m.wait_queue.len() implies (#[trigger] m.wait_queue[i]).size
        <= m.amount_in_waiting by {
        wait_queue::lemma_total_remove(m.wait_queue, i);
    }
}

/// The operators on resources, requests and responses agree with one another: `==` and `<` of
/// resources go by size and then by address, those of requests by size, and those of responses by
/// the resource.
pub proof fn law_operators_compare_by_the_fields(
    a: Resource,
    b: Resource,
    x: ResourceResponse,
    y: ResourceResponse,
    p: ResourceRequest,
    q: ResourceRequest,
)
    ensures
        a.partial_cmp_spec(&b) == Some(resource::resource_order(a, b)),
        x.partial_cmp_spec(&y) == Some(resource::resource_order(x.resource, y.resource)),
        x.eq_spec(&y) <==> x.resource.size == y.resource.size && x.resource.ptr == y.resource.ptr,
        p.partial_cmp_spec(&q) == Some(resource::request_order(p, q)),
{
}

/// A request for more than the capacity always waits.
pub proof fn law_oversized_request_waits(m: PoolModel, size: usize)
    requires
        m.wf(),
        size > m.max_capacity,
    ensures
        m.must_wait(size),
{
    if m.reusable(size) is Some {
        law_reusable_is_kept(m, size);
        law_reuse_keeps_soundness(m, m.reusable(size)->0);
    }
}

/// A request that waits would not fit into what is left of the capacity.
pub proof fn law_waiting_means_full(m: PoolModel, size: usize)
    requires
        m.must_wait(size),
    ensures
        m.current_size() + size > m.max_capacity,
{
}

/// Once every block is back, nothing counts as in use, and all of the pool is in reserve.
pub proof fn law_all_memory_returned(m: PoolModel)
    requires
        m.wf(),
        m.in_use.dom() == Set::<usize>::empty(),
    ensures
        m.amount_in_use == 0,
        m.amount_in_reserve == m.current_size(),
{
}

/// Once the memory of a response was announced, its holder goes on at once, however often it is
/// announced, and the resource is the one that the response had.
pub proof fn law_announced_memory_is_there(response: ResourceResponse)
    ensures
        resource::next_step(resource::notified(response)) is Proceed,
        resource::notified(resource::notified(response)) == resource::notified(response),
        resource::notified(response).resource == response.resource,
{
}

/// The response that a request waits with, once it is filled with the memory that a returned block
/// brings, is the answer that the request would have had at once, and its holder goes on.
pub proof fn law_waiting_response_is_filled(m: PoolModel, ptr: usize)
    requires
        m.wf(),
        m.reclaim_reply(ptr) is Some,
    ensures
        resource::filled_at(model::waiting_response(m.reclaim_reply(ptr)->0.size), ptr)
            == model::filled_response(m.reclaim_reply(ptr)->0),
        resource::next_step(
            resource::filled_at(model::waiting_response(m.reclaim_reply(ptr)->0.size), ptr),
        ) is Proceed,
{
}

/// Requests order as their sizes do.
pub proof fn law_requests_order_by_size(a: ResourceRequest, b: ResourceRequest)
    ensures
        resource::request_order(a, b) is Less <==> a.size < b.size,
        resource::request_order(a, b) is Equal <==> a == b,
        resource::request_order(a, b) is Greater <==> b.size < a.size,
        a == b <==> a.size == b.size,
{
}

/// Resources are totally ordered, consistently with their equality, and a smaller size comes
/// before a larger one.
pub proof fn law_resource_order_is_total(a: Resource, b: Resource, c: Resource)
    ensures
        resource::resource_order(a, b) is Equal <==> a == b,
        resource::resource_order(a, b) is Less <==> resource::resource_order(b, a) is Greater,
        resource::resource_order(a, b) is Less && resource::resource_order(b, c) is Less
            ==> resource::resource_order(a, c) is Less,
        a.size < b.size ==> resource::resource_order(a, b) is Less,
        a.size == b.size && a.ptr < b.ptr ==> resource::resource_order(a, b) is Less,
{
}

/// A call that changes a pool. A request carries the address that the system gives a new block,
/// should one be asked for.
pub enum Step {
    Allocate { size: usize, answer: usize },
    Reclaim { ptr: usize },
    Shutdown,
}

/// The pool after a call. A request that would have to wait is not made where the bytes that are
/// waited for could no longer be counted.
pub open spec fn after_step(m: PoolModel, step: Step) -> PoolModel {
    match step {
        Step::Allocate { size, answer } => if m.must_wait(size) && m.amount_in_waiting + size
            > usize::MAX {
            m
        } else {
            m.after_allocate(size, answer)
        },
        Step::Reclaim { ptr } => m.after_reclaim(ptr),
        Step::Shutdown => PoolModel { shut_down: true, ..m },
    }
}

/// The pool after a sequence of calls.
pub open spec fn after_steps(m: PoolModel, steps: Seq<Step>) -> PoolModel
    decreases steps.len(),
{
    if steps.len() == 0 {
        m
    } else {
        after_step(after_steps(m, steps.drop_last()), steps.last())
    }
}

/// No call makes a sound pool unsound, nor changes its capacity or threshold.
pub proof fn law_step_keeps_soundness(m: PoolModel, step: Step)
    requires
        m.wf(),
    ensures
        after_step(m, step).wf(),
        after_step(m, step).max_capacity == m.max_capacity,
        after_step(m, step).recycling_threshold == m.recycling_threshold,
{
    match step {
        Step::Allocate { size, answer } => {
            if m.reusable(size) is Some {
                law_reusable_is_kept(m, size);
                law_reuse_keeps_soundness(m, m.reusable(size)->0);
            } else if !m.must_wait(size) {
                if m.fresh_error(answer) is None {
                    law_fresh_keeps_soundness(m, answer, blocks::zeros(size as nat));
                }
            } else if m.amount_in_waiting + size <= usize::MAX {
                law_enqueue_keeps_soundness(m, size);
            }
        },
        Step::Reclaim { ptr } => {
            law_reclaim_keeps_soundness(m, ptr);
        },
        Step::Shutdown => {},
    }
}

/// No sequence of calls makes a sound pool unsound, nor changes its capacity or threshold.
pub proof fn law_steps_keep_soundness(m: PoolModel, steps: Seq<Step>)
    requires
        m.wf(),
    ensures
        after_steps(m, steps).wf(),
        after_steps(m, steps).max_capacity == m.max_capacity,
        after_steps(m, steps).recycling_threshold == m.recycling_threshold,
    decreases steps.len(),
{
    if steps.len() > 0 {
        law_steps_keep_soundness(m, steps.drop_last());
        law_step_keeps_soundness(after_steps(m, steps.drop_last()), steps.last());
    }
}

/// However a new pool is used, it stays sound, never holds more than its capacity, and keeps the
/// capacity and the threshold that it was made with.
pub proof fn law_every_pool_stays_within_its_capacity(
    max_capacity: usize,
    recycling_threshold: u32,
    steps: Seq<Step>,
)
    ensures
        ({
            let after = after_steps(
                PoolModel::empty(max_capacity as nat, recycling_threshold),
                steps,
            );
            &&& after.wf()
            &&& after.current_size() <= max_capacity
            &&& after.max_capacity == max_capacity
            &&& after.recycling_threshold == recycling_threshold
        }),
{
    law_empty_pool_is_sound(max_capacity, recycling_threshold);
    law_steps_keep_soundness(PoolModel::empty(max_capacity as nat, recycling_threshold), steps);
}

/// No request is given a block that is in use: neither a kept one nor a new one lies at its
/// address.
pub proof fn law_block_in_use_is_not_handed_out(m: PoolModel, size: usize, ptr: usize)
    requires
        m.wf(),
        m.in_use.contains_key(ptr),
    ensures
        m.reusable(size) matches Some(r) ==> r.ptr != ptr,
        m.fresh_error(ptr) is Some,
{
    if m.reusable(size) is Some {
        law_reusable_is_kept(m, size);
    }
}

/// A block in use stays in use, with its bytes, through every call but its own return.
pub proof fn law_block_in_use_stays_in_use(m: PoolModel, step: Step, ptr: usize)
    requires
        m.wf(),
        m.in_use.contains_key(ptr),
        step != (Step::Reclaim { ptr }),
    ensures
        after_step(m, step).in_use.contains_key(ptr),
        after_step(m, step).in_use[ptr] == m.in_use[ptr],
{
    if let Step::Allocate { size, answer } = step {
        law_block_in_use_is_not_handed_out(m, size, ptr);
    }
}

/// A block in use stays in use, with its bytes, until it is returned, whatever else is called.
pub proof fn law_block_stays_in_use_until_returned(m: PoolModel, steps: Seq<Step>, ptr: usize)
    requires
        m.wf(),
        m.in_use.contains_key(ptr),
        forall|i: int| 0 <= i < steps.len() ==> #[trigger] steps[i] != (Step::Reclaim { ptr }),
    ensures
        after_steps(m, steps).in_use.contains_key(ptr),
        after_steps(m, steps).in_use[ptr] == m.in_use[ptr],
    decreases steps.len(),
{
    if steps.len() > 0 {
        let front = steps.drop_last();
        assert forall|i: int| 0 <= i < front.len() implies #[trigger] front[i] != (Step::Reclaim {
            ptr,
        }) by {
            assert(front[i] == steps[i]);
        }
        law_block_stays_in_use_until_returned(m, front, ptr);
        law_steps_keep_soundness(m, front);
        assert(steps[steps.len() - 1] != (Step::Reclaim { ptr }));
        law_block_in_use_stays_in_use(after_steps(m, front), steps.last(), ptr);
    }
}

} // verus!
