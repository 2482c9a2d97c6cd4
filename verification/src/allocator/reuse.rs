//! What holds of allocation and release on a free list, taken together:
//! which block a request gets, what a release puts back, and how the
//! two undo each other.

use crate::allocator::align::{
    lemma_align_up_bounds, lemma_align_up_of_aligned, lemma_aligned_to_multiple,
    lemma_pow2_positive,
};
use crate::allocator::free_list::{
    block_fits, can_widen, excess, first_fit, lemma_after_take_wf,
    lemma_first_fit_is_first, lemma_total_size_push_front, lemma_total_size_remove, lemma_widened,
    widened_align, widened_size, Block, HeapState, NODE_ALIGN, NODE_SIZE,
};
use crate::allocator::layout::Layout;
use vstd::prelude::*;

verus! {

/// An allocation keeps a well-formed state well-formed.
pub proof fn lemma_after_alloc_wf(state: HeapState, layout: Layout)
    requires
        state.wf(),
        layout.wf(),
    ensures
        state.after_alloc(layout).wf(),
{
    if can_widen(layout) {
        lemma_widened(layout);
        lemma_after_take_wf(state, widened_size(layout), widened_align(layout));
    }
}

/// The block that a request is answered with is aligned as the request
/// asks, lies in the heap, holds the requested size, shares no byte with
/// a block that is still free, and may be released again.
pub proof fn lemma_allocated_block(state: HeapState, layout: Layout, addr: int)
    requires
        state.wf(),
        layout.wf(),
        state.alloc_result(layout) == Some(addr),
    ensures
        addr % (layout.align as int) == 0,
        state.heap_start <= addr,
        addr + layout.size <= addr + widened_size(layout) <= state.heap_end,
        state.after_alloc(layout).can_release(addr, widened_size(layout)),
{
    let size = widened_size(layout);
    let align = widened_align(layout);
    lemma_widened(layout);
    lemma_after_take_wf(state, size, align);
    let i = first_fit(state.free, size, align).unwrap();
    let block = state.free[i];
    let left = excess(block, size, align);
    let rest = state.free.remove(i);
    let after = state.after_alloc(layout);
    let taken = Block { start: addr as usize, size: size as usize };
    assert(state.holds(block));
    lemma_pow2_positive(layout.align as int);
    lemma_aligned_to_multiple(addr, align, layout.align as int);
    lemma_aligned_to_multiple(addr, align, NODE_ALIGN as int);
    assert forall|k: int| 0 <= k < after.free.len() implies (#[trigger] after.free[k]).disjoint(
        taken,
    ) by {
        let shift = if left > 0 {
            1int
        } else {
            0int
        };
        if k >= shift {
            let ko = if k - shift < i {
                k - shift
            } else {
                k - shift + 1
            };
            assert(after.free[k] == rest[k - shift]);
            assert(rest[k - shift] == state.free[ko]);
            assert(state.free[ko].disjoint(block) || block.disjoint(state.free[ko]));
        }
    }
}

/// Two requests in a row are answered with blocks that share no byte.
pub proof fn lemma_allocations_disjoint(
    state: HeapState,
    first: Layout,
    second: Layout,
    a: int,
    b: int,
)
    requires
        state.wf(),
        first.wf(),
        second.wf(),
        state.alloc_result(first) == Some(a),
        state.after_alloc(first).alloc_result(second) == Some(b),
    ensures
        a + widened_size(first) <= b || b + widened_size(second) <= a,
{
    let between = state.after_alloc(first);
    lemma_allocated_block(state, first, a);
    lemma_after_alloc_wf(state, first);
    let size = widened_size(second);
    let align = widened_align(second);
    lemma_widened(second);
    lemma_after_take_wf(between, size, align);
    let i = first_fit(between.free, size, align).unwrap();
    assert(between.free[i].disjoint(
        Block { start: a as usize, size: widened_size(first) as usize },
    ));
}

/// LIFO reuse: a block that was just released is what the next request of
/// the same layout gets, and the free list is then as it was before the
/// release.
pub proof fn lemma_released_block_is_reused(state: HeapState, addr: int, layout: Layout)
    requires
        state.wf(),
        layout.wf(),
        can_widen(layout),
        state.can_release(addr, widened_size(layout)),
        addr % widened_align(layout) == 0,
    ensures
        state.after_dealloc(addr, layout).alloc_result(layout) == Some(addr),
        state.after_dealloc(addr, layout).after_alloc(layout) == state,
{
    let size = widened_size(layout);
    let align = widened_align(layout);
    lemma_widened(layout);
    let released = state.after_dealloc(addr, layout);
    let block = released.free[0];
    lemma_align_up_of_aligned(addr, align);
    assert(excess(block, size, align) == 0);
    assert(first_fit(released.free, size, align) == Some(0int));
    assert(released.free.remove(0) == state.free);
}

/// A block that is smaller than the size asked for does not serve the
/// request.
pub proof fn lemma_small_block_does_not_fit(block: Block, size: int, align: int)
    requires
        align > 0,
        block.size < size,
    ensures
        !block_fits(block, size, align),
{
    lemma_align_up_bounds(block.start as int, align);
}

/// No coalescing: two released blocks stay two blocks of the free list,
/// also where one ends at the address at which the other starts. A request
/// that is larger than each of them, and that no block that was free before
/// serves, fails although the two together would hold it.
pub proof fn lemma_release_does_not_coalesce(
    state: HeapState,
    first: Block,
    second: Block,
    layout: Layout,
)
    requires
        layout.wf(),
        first.end() == second.start,
        first.size < widened_size(layout),
        second.size < widened_size(layout),
        forall|i: int|
            0 <= i < state.free.len() ==> !block_fits(
                #[trigger] state.free[i],
                widened_size(layout),
                widened_align(layout),
            ),
    ensures
        state.after_release(first.start as int, first.size as int).after_release(
            second.start as int,
            second.size as int,
        ).free == seq![second, first] + state.free,
        state.after_release(first.start as int, first.size as int).after_release(
            second.start as int,
            second.size as int,
        ).alloc_result(layout).is_none(),
{
    let size = widened_size(layout);
    let align = widened_align(layout);
    lemma_widened(layout);
    let after = state.after_release(first.start as int, first.size as int).after_release(
        second.start as int,
        second.size as int,
    );
    assert(after.free == seq![second, first] + state.free);
    lemma_small_block_does_not_fit(first, size, align);
    lemma_small_block_does_not_fit(second, size, align);
    lemma_first_fit_is_first(after.free, size, align);
    match first_fit(after.free, size, align) {
        Some(i) => {
            if i >= 2 {
                assert(after.free[i] == state.free[i - 2]);
            }
        },
        None => {},
    }
}

/// A block in which the request leaves a remainder that is too small for
/// a block header does not serve the request.
pub proof fn lemma_small_remainder_does_not_fit(block: Block, size: int, align: int)
    requires
        0 < excess(block, size, align) < NODE_SIZE,
    ensures
        !block_fits(block, size, align),
{
}

/// A block that the widened request fills up to its end leaves the free
/// list as a whole: no block is added, and the list is shorter by one.
/// Where the request leaves a remainder instead, the remainder holds a
/// block header and takes the first place of the list, which keeps its
/// length.
pub proof fn lemma_exact_fit_uses_block_up(state: HeapState, layout: Layout)
    requires
        layout.wf(),
        state.alloc_result(layout).is_some(),
    ensures
        ({
            let i = first_fit(state.free, widened_size(layout), widened_align(layout)).unwrap();
            let left = excess(state.free[i], widened_size(layout), widened_align(layout));
            let end = state.alloc_result(layout).unwrap() + widened_size(layout);
            &&& 0 <= i < state.free.len()
            &&& left == 0 ==> {
                &&& state.after_alloc(layout).free == state.free.remove(i)
                &&& state.after_alloc(layout).free.len() == state.free.len() - 1
            }
            &&& left != 0 ==> {
                &&& left >= NODE_SIZE
                &&& state.after_alloc(layout).free == seq![
                    Block { start: end as usize, size: left as usize },
                ] + state.free.remove(i)
                &&& state.after_alloc(layout).free.len() == state.free.len()
            }
        }),
{
    lemma_first_fit_is_first(state.free, widened_size(layout), widened_align(layout));
}

/// Round trip: where a request is answered with the very start of the
/// block that serves it, releasing the allocation at once brings the number
/// of free bytes back to what it was before the request.
pub proof fn lemma_round_trip_keeps_total(state: HeapState, layout: Layout, addr: int)
    requires
        state.wf(),
        layout.wf(),
        state.alloc_result(layout) == Some(addr),
        state.free[first_fit(
            state.free,
            widened_size(layout),
            widened_align(layout),
        ).unwrap()].start == addr,
    ensures
        state.after_alloc(layout).can_release(addr, widened_size(layout)),
        state.after_alloc(layout).after_dealloc(addr, layout).total_free() == state.total_free(),
{
    let size = widened_size(layout);
    let align = widened_align(layout);
    lemma_allocated_block(state, layout, addr);
    lemma_first_fit_is_first(state.free, size, align);
    let i = first_fit(state.free, size, align).unwrap();
    let block = state.free[i];
    let left = excess(block, size, align);
    let rest = state.free.remove(i);
    let taken = Block { start: addr as usize, size: size as usize };
    assert(state.holds(block));
    lemma_total_size_remove(state.free, i);
    if left > 0 {
        let tail = Block { start: (addr + size) as usize, size: left as usize };
        lemma_total_size_push_front(tail, rest);
        lemma_total_size_push_front(taken, seq![tail] + rest);
    } else {
        lemma_total_size_push_front(taken, rest);
    }
}

/// Round trip for requests whose alignment is at most that of a block
/// header: every free block starts at such an alignment, so the round
/// trip keeps the number of free bytes whichever block serves the request.
pub proof fn lemma_round_trip_at_header_alignment(state: HeapState, layout: Layout, addr: int)
    requires
        state.wf(),
        layout.wf(),
        layout.align <= NODE_ALIGN,
        state.alloc_result(layout) == Some(addr),
    ensures
        state.after_alloc(layout).can_release(addr, widened_size(layout)),
        state.after_alloc(layout).after_dealloc(addr, layout).total_free() == state.total_free(),
{
    let size = widened_size(layout);
    let align = widened_align(layout);
    lemma_first_fit_is_first(state.free, size, align);
    let i = first_fit(state.free, size, align).unwrap();
    assert(state.holds(state.free[i]));
    lemma_align_up_of_aligned(state.free[i].start as int, align);
    lemma_round_trip_keeps_total(state, layout, addr);
}

} // verus!
