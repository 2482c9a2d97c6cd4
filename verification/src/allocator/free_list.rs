//! The free list as mathematics: a sequence of blocks, the newest first,
//! with first-fit search, splitting and release, and what holds of them.

use crate::allocator::align::{
    align_up_spec, lemma_align_up_bounds, lemma_aligned_to_multiple, lemma_pow2_divides,
    lemma_pow2_positive,
};
use crate::allocator::layout::Layout;
use vstd::arithmetic::power2::is_pow2;
use vstd::prelude::*;

verus! {

/// The number of bytes that the header of a free block takes: two words,
/// the block's size and the address of the next free block.
pub const NODE_SIZE: usize = 16;

/// The alignment that the header of a free block needs.
pub const NODE_ALIGN: usize = 8;

/// A block of memory: the `size` bytes from address `start` on.
#[derive(Clone, Copy, Debug)]
pub struct Block {
    pub start: usize,
    pub size: usize,
}

impl Block {
    /// The first address behind the block.
    pub open spec fn end(self) -> int {
        self.start + self.size
    }

    /// The two blocks share no byte.
    pub open spec fn disjoint(self, other: Block) -> bool {
        self.end() <= other.start || other.end() <= self.start
    }
}

impl Block {
    /// Get the start address of the memory block.
    pub fn start_addr(&self) -> (addr: usize)
        ensures
            addr == self.start,
    {
        self.start
    }

    /// Get the end address of the memory block.
    pub fn end_addr(&self) -> (addr: usize)
        requires
            self.end() <= usize::MAX,
        ensures
            addr == self.end(),
    {
        self.start + self.size
    }
}

/// The alignment that a request is served at: its own, but at least that of
/// a block header.
pub open spec fn widened_align(layout: Layout) -> int {
    if layout.align >= NODE_ALIGN {
        layout.align as int
    } else {
        NODE_ALIGN as int
    }
}

/// Whether the size of a request, rounded up to the widened alignment,
/// still makes a layout.
pub open spec fn can_widen(layout: Layout) -> bool {
    align_up_spec(layout.size as int, widened_align(layout)) <= isize::MAX
}

/// The size that a request is served with: its own, rounded up to the
/// widened alignment, but at least that of a block header.
pub open spec fn widened_size(layout: Layout) -> int {
    let padded = align_up_spec(layout.size as int, widened_align(layout));
    if padded >= NODE_SIZE {
        padded
    } else {
        NODE_SIZE as int
    }
}

/// Where an allocation at alignment `align` starts in a block.
pub open spec fn alloc_start(block: Block, align: int) -> int {
    align_up_spec(block.start as int, align)
}

/// What is left of a block behind an allocation of `size` bytes at
/// alignment `align`; negative where the block is too small.
pub open spec fn excess(block: Block, size: int, align: int) -> int {
    block.end() - (alloc_start(block, align) + size)
}

/// A block serves a request when the aligned allocation ends inside it and
/// what is left behind is nothing or room enough for a block header.
pub open spec fn block_fits(block: Block, size: int, align: int) -> bool {
    excess(block, size, align) == 0 || excess(block, size, align) >= NODE_SIZE
}

/// The position of the first block of the list that serves the request.
pub open spec fn first_fit(free: Seq<Block>, size: int, align: int) -> Option<int>
    decreases free.len(),
{
    if free.len() == 0 {
        None
    } else if block_fits(free[0], size, align) {
        Some(0)
    } else {
        match first_fit(free.drop_first(), size, align) {
            Some(i) => Some(i + 1),
            None => None,
        }
    }
}

/// The sum of the sizes of the blocks.
pub open spec fn total_size(free: Seq<Block>) -> int
    decreases free.len(),
{
    if free.len() == 0 {
        0
    } else {
        free[0].size + total_size(free.drop_first())
    }
}

/// What a free-list allocator is, as plain values: the bounds of its heap
/// and its free blocks in list order, the head of the list first.
pub struct HeapState {
    /// First address of the heap.
    pub heap_start: int,
    /// First address behind the heap.
    pub heap_end: int,
    /// The free blocks, in the order in which a search meets them.
    pub free: Seq<Block>,
}

impl HeapState {
    /// A block that may stand in the free list: inside the heap, at a
    /// non-null address that a block header can stand at, and large enough
    /// to hold one.
    pub open spec fn holds(self, block: Block) -> bool {
        &&& block.start != 0
        &&& block.start % NODE_ALIGN == 0
        &&& block.size >= NODE_SIZE
        &&& self.heap_start <= block.start
        &&& block.end() <= self.heap_end
    }

    /// The heap ends at a representable address, every free block may stand
    /// in the list, and no two free blocks overlap.
    pub open spec fn wf(self) -> bool {
        &&& 0 <= self.heap_start <= self.heap_end <= usize::MAX
        &&& forall|i: int| 0 <= i < self.free.len() ==> self.holds(#[trigger] self.free[i])
        &&& forall|i: int, j: int|
            0 <= i < j < self.free.len() ==> (#[trigger] self.free[i]).disjoint(
                #[trigger] self.free[j],
            )
    }

    /// The number of free bytes.
    pub open spec fn total_free(self) -> int {
        total_size(self.free)
    }

    /// Whether the `size` bytes at `addr` may be given to the free list:
    /// they make a block that may stand in it, and share no byte with a
    /// block that is free already.
    pub open spec fn can_release(self, addr: int, size: int) -> bool {
        &&& 0 <= addr <= usize::MAX
        &&& 0 <= size <= usize::MAX
        &&& self.holds(Block { start: addr as usize, size: size as usize })
        &&& forall|i: int|
            0 <= i < self.free.len() ==> (#[trigger] self.free[i]).disjoint(
                Block { start: addr as usize, size: size as usize },
            )
    }

    /// The state after the `size` bytes at `addr` were released: they are
    /// the first block of the list, and the blocks that were free before
    /// follow as they were.
    pub open spec fn after_release(self, addr: int, size: int) -> HeapState {
        HeapState {
            free: seq![Block { start: addr as usize, size: size as usize }] + self.free,
            ..self
        }
    }

    /// The address that a search for `size` bytes at alignment `align`
    /// ends with: the aligned start of the first block that serves it.
    pub open spec fn take_result(self, size: int, align: int) -> Option<int> {
        match first_fit(self.free, size, align) {
            Some(i) => Some(alloc_start(self.free[i], align)),
            None => None,
        }
    }

    /// The state after `size` bytes at alignment `align` were taken: the
    /// first block that serves the request has left the list, and what is
    /// left of it behind the allocation has become the first block.
    pub open spec fn after_take(self, size: int, align: int) -> HeapState {
        match first_fit(self.free, size, align) {
            Some(i) => {
                let rest = self.free.remove(i);
                let left = excess(self.free[i], size, align);
                let end = alloc_start(self.free[i], align) + size;
                if left > 0 {
                    HeapState {
                        free: seq![Block { start: end as usize, size: left as usize }] + rest,
                        ..self
                    }
                } else {
                    HeapState { free: rest, ..self }
                }
            },
            None => self,
        }
    }

    /// The address that a request for `layout` is answered with, if any:
    /// that of a search with the widened size and alignment.
    pub open spec fn alloc_result(self, layout: Layout) -> Option<int> {
        if can_widen(layout) {
            self.take_result(widened_size(layout), widened_align(layout))
        } else {
            None
        }
    }

    /// The state after a request for `layout`.
    pub open spec fn after_alloc(self, layout: Layout) -> HeapState {
        if can_widen(layout) {
            self.after_take(widened_size(layout), widened_align(layout))
        } else {
            self
        }
    }

    /// The state after the block at `addr` that a request for `layout` was
    /// answered with has been released.
    pub open spec fn after_dealloc(self, addr: int, layout: Layout) -> HeapState {
        self.after_release(addr, widened_size(layout))
    }
}

/// The widened alignment is a power of two that both the alignment of the
/// request and that of a block header divide; the widened size is a
/// multiple of the header's alignment that holds a header and the request.
pub proof fn lemma_widened(layout: Layout)
    requires
        layout.wf(),
    ensures
        is_pow2(NODE_ALIGN as int),
        is_pow2(widened_align(layout)),
        widened_align(layout) >= NODE_ALIGN,
        widened_align(layout) % (NODE_ALIGN as int) == 0,
        widened_align(layout) % (layout.align as int) == 0,
        widened_size(layout) % (NODE_ALIGN as int) == 0,
        widened_size(layout) % widened_align(layout) == 0 || widened_size(layout) == NODE_SIZE,
        widened_size(layout) >= NODE_SIZE,
        widened_size(layout) >= layout.size,
{
    let wide = widened_align(layout);
    assert(is_pow2(8)) by {
        reveal_with_fuel(is_pow2, 4);
    }
    lemma_pow2_positive(layout.align as int);
    lemma_pow2_divides(NODE_ALIGN as int, wide);
    if layout.align >= NODE_ALIGN {
        lemma_pow2_divides(layout.align as int, wide);
    } else {
        lemma_pow2_divides(layout.align as int, NODE_ALIGN as int);
    }
    lemma_align_up_bounds(layout.size as int, wide);
    let padded = align_up_spec(layout.size as int, wide);
    if padded >= NODE_SIZE {
        lemma_aligned_to_multiple(padded, wide, NODE_ALIGN as int);
    }
}

/// A block that serves the request, with none before it that does, is the
/// first fit.
pub proof fn lemma_first_fit_found(free: Seq<Block>, size: int, align: int, i: int)
    requires
        0 <= i < free.len(),
        block_fits(free[i], size, align),
        forall|j: int| 0 <= j < i ==> !block_fits(#[trigger] free[j], size, align),
    ensures
        first_fit(free, size, align) == Some(i),
    decreases free.len(),
{
    if i > 0 {
        let tail = free.drop_first();
        assert forall|j: int| 0 <= j < i - 1 implies !block_fits(
            #[trigger] tail[j],
            size,
            align,
        ) by {
            assert(tail[j] == free[j + 1]);
        }
        lemma_first_fit_found(tail, size, align, i - 1);
    }
}

/// First fit: the position that the search gives is that of a block that
/// serves the request, and no block before it does; the search gives none
/// exactly when no block of the list serves the request.
pub proof fn lemma_first_fit_is_first(free: Seq<Block>, size: int, align: int)
    ensures
        match first_fit(free, size, align) {
            Some(i) => {
                &&& 0 <= i < free.len()
                &&& block_fits(free[i], size, align)
                &&& forall|j: int| 0 <= j < i ==> !block_fits(#[trigger] free[j], size, align)
            },
            None => forall|j: int|
                0 <= j < free.len() ==> !block_fits(#[trigger] free[j], size, align),
        },
    decreases free.len(),
{
    if free.len() > 0 && !block_fits(free[0], size, align) {
        let tail = free.drop_first();
        lemma_first_fit_is_first(tail, size, align);
        match first_fit(tail, size, align) {
            Some(i) => {
                assert(tail[i] == free[i + 1]);
                assert forall|j: int| 0 <= j < i + 1 implies !block_fits(
                    #[trigger] free[j],
                    size,
                    align,
                ) by {
                    if j > 0 {
                        assert(free[j] == tail[j - 1]);
                    }
                }
            },
            None => {
                assert forall|j: int| 0 <= j < free.len() implies !block_fits(
                    #[trigger] free[j],
                    size,
                    align,
                ) by {
                    if j > 0 {
                        assert(free[j] == tail[j - 1]);
                    }
                }
            },
        }
    }
}

/// A block put before a list adds its size to the total.
pub proof fn lemma_total_size_push_front(block: Block, free: Seq<Block>)
    ensures
        total_size(seq![block] + free) == block.size + total_size(free),
{
    assert((seq![block] + free).drop_first() == free);
}

/// A block taken out of a list takes its size off the total.
pub proof fn lemma_total_size_remove(free: Seq<Block>, i: int)
    requires
        0 <= i < free.len(),
    ensures
        total_size(free.remove(i)) == total_size(free) - free[i].size,
    decreases free.len(),
{
    if i == 0 {
        assert(free.remove(0) == free.drop_first());
    } else {
        lemma_total_size_remove(free.drop_first(), i - 1);
        assert(free.remove(i).drop_first() == free.drop_first().remove(i - 1));
    }
}

/// A release that is allowed keeps the state well-formed.
pub proof fn lemma_after_release_wf(state: HeapState, addr: int, size: int)
    requires
        state.wf(),
        state.can_release(addr, size),
    ensures
        state.after_release(addr, size).wf(),
{
    let after = state.after_release(addr, size);
    let block = Block { start: addr as usize, size: size as usize };
    assert forall|i: int| 0 <= i < after.free.len() implies after.holds(
        #[trigger] after.free[i],
    ) by {
        if i > 0 {
            assert(after.free[i] == state.free[i - 1]);
        }
    }
    assert forall|i: int, j: int| 0 <= i < j < after.free.len() implies (
    #[trigger] after.free[i]).disjoint(#[trigger] after.free[j]) by {
        assert(after.free[j] == state.free[j - 1]);
        if i > 0 {
            assert(after.free[i] == state.free[i - 1]);
        }
    }
}

/// A well-formed state stays well-formed without one of its free blocks.
pub proof fn lemma_after_remove_wf(state: HeapState, i: int)
    requires
        state.wf(),
        0 <= i < state.free.len(),
    ensures
        (HeapState { free: state.free.remove(i), ..state }).wf(),
{
    let rest = state.free.remove(i);
    let without = HeapState { free: rest, ..state };
    assert forall|k: int| 0 <= k < rest.len() implies without.holds(#[trigger] rest[k]) by {
        if k < i {
            assert(rest[k] == state.free[k]);
        } else {
            assert(rest[k] == state.free[k + 1]);
        }
    }
    assert forall|k: int, l: int| 0 <= k < l < rest.len() implies (#[trigger] rest[k]).disjoint(
        #[trigger] rest[l],
    ) by {
        let ko = if k < i {
            k
        } else {
            k + 1
        };
        let lo = if l < i {
            l
        } else {
            l + 1
        };
        assert(rest[k] == state.free[ko]);
        assert(rest[l] == state.free[lo]);
    }
}

/// Taking a block keeps the state well-formed, where size and alignment
/// are multiples of a header's alignment.
pub proof fn lemma_after_take_wf(state: HeapState, size: int, align: int)
    requires
        state.wf(),
        size >= 0,
        size % (NODE_ALIGN as int) == 0,
        align > 0,
        align % (NODE_ALIGN as int) == 0,
    ensures
        state.after_take(size, align).wf(),
        match first_fit(state.free, size, align) {
            Some(i) => {
                &&& 0 <= i < state.free.len()
                &&& state.free[i].start <= alloc_start(state.free[i], align)
                &&& alloc_start(state.free[i], align) % align == 0
                &&& alloc_start(state.free[i], align) + size + excess(state.free[i], size, align)
                    == state.free[i].end()
                &&& block_fits(state.free[i], size, align)
                &&& HeapState { free: state.free.remove(i), ..state }.wf()
                &&& excess(state.free[i], size, align) > 0 ==> HeapState {
                    free: state.free.remove(i),
                    ..state
                }.can_release(
                    alloc_start(state.free[i], align) + size,
                    excess(state.free[i], size, align),
                )
            },
            None => true,
        },
{
    lemma_first_fit_is_first(state.free, size, align);
    match first_fit(state.free, size, align) {
        Some(i) => {
            let block = state.free[i];
            let start = alloc_start(block, align);
            let left = excess(block, size, align);
            let rest = state.free.remove(i);
            let without = HeapState { free: rest, ..state };
            lemma_align_up_bounds(block.start as int, align);
            lemma_aligned_to_multiple(start, align, NODE_ALIGN as int);
            lemma_after_remove_wf(state, i);
            assert(without.wf());
            if left > 0 {
                let tail = Block { start: (start + size) as usize, size: left as usize };
                assert((start + size) % (NODE_ALIGN as int) == 0) by (nonlinear_arith)
                    requires
                        start % (NODE_ALIGN as int) == 0,
                        size % (NODE_ALIGN as int) == 0,
                ;
                assert forall|k: int| 0 <= k < rest.len() implies (#[trigger] rest[k]).disjoint(
                    tail,
                ) by {
                    let ko = if k < i {
                        k
                    } else {
                        k + 1
                    };
                    assert(rest[k] == state.free[ko]);
                    assert(state.free[ko].disjoint(block) || block.disjoint(state.free[ko]));
                }
                assert(without.can_release(start + size, left));
                lemma_after_release_wf(without, start + size, left);
                assert(state.after_take(size, align) == without.after_release(start + size, left));
            }
        },
        None => {},
    }
}

} // verus!
