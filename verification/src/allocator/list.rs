//! A free-list allocator: first-fit search over the free blocks of the
//! heap, splitting of the block that serves a request, and release of
//! blocks to the front of the list, without coalescing.

use crate::allocator::align::{
    align_up, align_up_spec, checked_align_up, lemma_align_up_bounds, lemma_align_up_is_least,
    lemma_aligned_to_multiple,
};
use crate::allocator::free_list::{
    alloc_start, block_fits, can_widen, first_fit, lemma_after_take_wf, lemma_first_fit_found,
    lemma_first_fit_is_first, lemma_widened, widened_align, widened_size, Block, HeapState,
    NODE_ALIGN, NODE_SIZE,
};
use crate::allocator::heap::{link_to, Heap};
use crate::allocator::layout::Layout;
use crate::allocator::reuse::lemma_allocated_block;
use vstd::prelude::*;

verus! {

/// A linked list allocator that uses a free list to manage memory.
pub struct LinkedListAllocator {
    heap: Heap,
}

impl View for LinkedListAllocator {
    type V = HeapState;

    closed spec fn view(&self) -> HeapState {
        self.heap@
    }
}

impl LinkedListAllocator {
    /// The free list is well-formed, and the bytes of the heap hold it.
    #[verifier::type_invariant]
    pub closed spec fn inv(&self) -> bool {
        self.heap.wf()
    }

    /// Create a new empty linked list allocator.
    pub fn new(heap_start: usize, heap_size: usize) -> (allocator: LinkedListAllocator)
        requires
            heap_start + heap_size <= usize::MAX,
        ensures
            allocator@.wf(),
            allocator@ == (HeapState {
                heap_start: heap_start as int,
                heap_end: heap_start + heap_size,
                free: Seq::empty(),
            }),
    {
        LinkedListAllocator { heap: Heap::new(heap_start, heap_size) }
    }

    /// Tells whether the allocator may be initialized: whether the whole
    /// heap may be added to the free list as one block.
    pub fn may_init(&self) -> (ok: bool)
        ensures
            ok == self@.can_release(self@.heap_start, self@.heap_end - self@.heap_start),
    {
        proof {
            use_type_invariant(self);
        }
        let heap_start = self.heap.start();
        let heap_end = self.heap.end();
        self.may_add_free_block(heap_start, heap_end - heap_start)
    }

    /// Initialize the allocator with the heap bounds given in the
    /// constructor: the whole heap becomes one free block.
    pub fn init(&mut self)
        requires
            old(self)@.can_release(
                old(self)@.heap_start,
                old(self)@.heap_end - old(self)@.heap_start,
            ),
        ensures
            final(self)@.wf(),
            final(self)@ == old(self)@.after_release(
                old(self)@.heap_start,
                old(self)@.heap_end - old(self)@.heap_start,
            ),
    {
        proof {
            use_type_invariant(&*self);
        }
        let heap_start = self.heap.start();
        let heap_end = self.heap.end();
        self.add_free_block(heap_start, heap_end - heap_start);
    }

    /// Initialize the allocator where it may be initialized, and leave it
    /// as it is where not. Tells whether it was initialized.
    pub fn checked_init(&mut self) -> (done: bool)
        ensures
            final(self)@.wf(),
            done == old(self)@.can_release(
                old(self)@.heap_start,
                old(self)@.heap_end - old(self)@.heap_start,
            ),
            final(self)@ == if done {
                old(self)@.after_release(
                    old(self)@.heap_start,
                    old(self)@.heap_end - old(self)@.heap_start,
                )
            } else {
                old(self)@
            },
    {
        proof {
            use_type_invariant(&*self);
        }
        if self.may_init() {
            self.init();
            true
        } else {
            false
        }
    }

    /// Adds the given free memory block 'addr' to the front of the free list.
    pub fn add_free_block(&mut self, addr: usize, size: usize)
        requires
            old(self)@.can_release(addr as int, size as int),
        ensures
            final(self)@.wf(),
            final(self)@ == old(self)@.after_release(addr as int, size as int),
    {
        proof {
            use_type_invariant(&*self);
        }
        self.heap.push_front(addr, size);
    }

    /// Tells whether the block of `size` bytes at `addr` may be added to
    /// the free list.
    pub fn may_add_free_block(&self, addr: usize, size: usize) -> (ok: bool)
        ensures
            ok == self@.can_release(addr as int, size as int),
    {
        proof {
            use_type_invariant(self);
        }
        let ghost state = self@;
        let ghost block = Block { start: addr, size };
        if addr == 0 || addr % NODE_ALIGN != 0 || size < NODE_SIZE || addr < self.heap.start() {
            return false;
        }
        let end: usize = match addr.checked_add(size) {
            Some(end) => end,
            None => {
                return false;
            },
        };
        if end > self.heap.end() {
            return false;
        }
        let mut current: Option<usize> = self.heap.first();
        let ghost mut i: int = 0;
        loop
            invariant
                self.heap.wf(),
                self.heap@ == state,
                state.holds(block),
                block == (Block { start: addr, size }),
                end == block.end(),
                0 <= i <= state.free.len(),
                current == link_to(state.free, i),
                forall|j: int| 0 <= j < i ==> (#[trigger] state.free[j]).disjoint(block),
            decreases state.free.len() - i,
        {
            match current {
                None => {
                    return true;
                },
                Some(at) => {
                    let node = self.heap.node_at(at, Ghost(i));
                    proof {
                        assert(state.holds(state.free[i]));
                    }
                    if !(at + node.size <= addr || end <= at) {
                        return false;
                    }
                    current = node.next;
                    proof {
                        i = i + 1;
                    }
                },
            }
        }
    }

    /// Search a free block with the given size and alignment and remove it from the list.
    pub fn find_free_block(&mut self, size: usize, align: usize) -> (found: Option<Block>)
        requires
            align > 0,
        ensures
            final(self)@.wf(),
            match first_fit(old(self)@.free, size as int, align as int) {
                Some(i) => {
                    &&& found == Some(old(self)@.free[i])
                    &&& final(self)@ == (HeapState {
                        free: old(self)@.free.remove(i),
                        ..old(self)@
                    })
                },
                None => found.is_none() && final(self)@ == old(self)@,
            },
    {
        proof {
            use_type_invariant(&*self);
        }
        let ghost state = self@;
        let mut prev: Option<usize> = None;
        // address of the current list node, updated for each iteration
        let mut current: Option<usize> = self.heap.first();
        let ghost mut i: int = 0;
        // look for a large enough memory block in linked list
        loop
            invariant
                self.heap.wf(),
                self.heap@ == state,
                state == old(self)@,
                align > 0,
                0 <= i <= state.free.len(),
                current == link_to(state.free, i),
                prev == link_to(state.free, i - 1),
                forall|j: int|
                    0 <= j < i ==> !block_fits(#[trigger] state.free[j], size as int, align as int),
            decreases state.free.len() - i,
        {
            match current {
                None => {
                    // no suitable block found
                    proof {
                        lemma_first_fit_is_first(state.free, size as int, align as int);
                    }
                    return None;
                },
                Some(addr) => {
                    let node = self.heap.node_at(addr, Ghost(i));
                    let block = Block { start: addr, size: node.size };
                    proof {
                        assert(state.holds(state.free[i]));
                    }
                    match Self::check_block_for_alloc(&block, size, align) {
                        Ok(_) => {
                            // block suitable for allocation -> remove node from list
                            proof {
                                lemma_first_fit_found(state.free, size as int, align as int, i);
                            }
                            self.heap.unlink(prev, node.next, Ghost(i));
                            return Some(block);
                        },
                        Err(_) => {
                            // block not suitable -> continue with next block
                            prev = current;
                            current = node.next;
                            proof {
                                i = i + 1;
                            }
                        },
                    }
                },
            }
        }
    }

    /// Check if the given block is large enough for an allocation with
    /// `size` and `align`, and where the allocation starts in it.
    pub fn check_block_for_alloc(block: &Block, size: usize, align: usize) -> (start: Result<
        usize,
        (),
    >)
        requires
            align > 0,
            block.end() <= usize::MAX,
        ensures
            start == if block_fits(*block, size as int, align as int) {
                Ok::<usize, ()>(alloc_start(*block, align as int) as usize)
            } else {
                Err::<usize, ()>(())
            },
    {
        proof {
            lemma_align_up_bounds(block.start as int, align as int);
        }
        let alloc_start: usize = match checked_align_up(block.start_addr(), align) {
            Some(start) => start,
            None => {
                return Err(());
            },
        };
        let alloc_end: usize = match alloc_start.checked_add(size) {
            Some(end) => end,
            None => {
                return Err(());
            },
        };
        if alloc_end > block.end_addr() {
            // block too small
            return Err(());
        }
        let excess_size: usize = block.end_addr() - alloc_end;
        if excess_size > 0 && excess_size < NODE_SIZE {
            // rest of block too small to hold a header (required because
            // the allocation splits the block in a used and a free part)
            return Err(());
        }
        // block suitable for allocation
        Ok(alloc_start)
    }


    /// Adjust the given layout so that the resulting allocated memory
    /// block is also capable of storing a `ListNode`: the widened size and
    /// alignment, or none where the size cannot be padded.
    pub fn size_align(layout: Layout) -> (widened: Option<(usize, usize)>)
        requires
            layout.wf(),
        ensures
            widened == if can_widen(layout) {
                Some((widened_size(layout) as usize, widened_align(layout) as usize))
            } else {
                None
            },
    {
        proof {
            lemma_widened(layout);
            let wide = widened_align(layout);
            lemma_align_up_bounds(layout.size as int, wide);
            lemma_aligned_to_multiple(
                align_up_spec(layout.size as int, wide),
                wide,
                NODE_ALIGN as int,
            );
            lemma_align_up_is_least(
                layout.size as int,
                NODE_ALIGN as int,
                align_up_spec(layout.size as int, wide),
            );
        }
        let padded = match layout.align_to(NODE_ALIGN) {
            Ok(aligned) => aligned.pad_to_align(),
            Err(_) => {
                return None;
            },
        };
        let size: usize = if padded.size() >= NODE_SIZE {
            padded.size()
        } else {
            NODE_SIZE
        };
        Some((size, padded.align()))
    }

    /// The free blocks in list order, for debugging purposes. The allocator
    /// stays as it is.
    pub fn dump_free_list(&mut self) -> (blocks: Vec<Block>)
        ensures
            final(self)@.wf(),
            final(self)@ == old(self)@,
            blocks@ == old(self)@.free,
    {
        proof {
            use_type_invariant(&*self);
        }
        let ghost state = self@;
        let mut blocks: Vec<Block> = Vec::new();
        let mut current: Option<usize> = self.heap.first();
        loop
            invariant
                self.heap.wf(),
                self.heap@ == state,
                state == old(self)@,
                blocks@.len() <= state.free.len(),
                blocks@ == state.free.take(blocks@.len() as int),
                current == link_to(state.free, blocks@.len() as int),
            decreases state.free.len() - blocks@.len(),
        {
            match current {
                None => {
                    assert(state.free.take(blocks@.len() as int) == state.free);
                    return blocks;
                },
                Some(addr) => {
                    let ghost i = blocks@.len() as int;
                    let node = self.heap.node_at(addr, Ghost(i));
                    blocks.push(Block { start: addr, size: node.size });
                    current = node.next;
                    assert(blocks@ == state.free.take(i + 1));
                },
            }
        }
    }

    /// Allocate memory of the given size and alignment: the aligned start
    /// of the first free block that serves the widened request. What is
    /// left of the block behind the allocation goes back to the front of
    /// the free list. `None` when no free block serves the request.
    pub fn allocate(&mut self, layout: Layout) -> (ptr: Option<usize>)
        requires
            layout.wf(),
        ensures
            final(self)@.wf(),
            final(self)@ == old(self)@.after_alloc(layout),
            match ptr {
                Some(addr) => {
                    &&& old(self)@.alloc_result(layout) == Some(addr as int)
                    &&& addr % layout.align == 0
                    &&& addr + layout.size <= old(self)@.heap_end
                    &&& final(self)@.can_release(addr as int, widened_size(layout))
                },
                None => old(self)@.alloc_result(layout).is_none(),
            },
    {
        proof {
            use_type_invariant(&*self);
            if let Some(addr) = self@.alloc_result(layout) {
                lemma_allocated_block(self@, layout, addr);
            }
        }
        // perform layout adjustments
        let (size, align) = match Self::size_align(layout) {
            Some(widened) => widened,
            None => {
                return None;
            },
        };
        proof {
            lemma_widened(layout);
            lemma_after_take_wf(self@, size as int, align as int);
        }
        match self.find_free_block(size, align) {
            Some(block) => {
                let alloc_start = align_up(block.start_addr(), align);
                let alloc_end = alloc_start + size;
                let excess_size = block.end_addr() - alloc_end;
                if excess_size > 0 {
                    self.add_free_block(alloc_end, excess_size);
                }
                Some(alloc_start)
            },
            None => None,
        }
    }

    /// Tells whether the block at `ptr` may be released with `layout`.
    pub fn may_dealloc(&self, ptr: usize, layout: Layout) -> (ok: bool)
        requires
            layout.wf(),
        ensures
            ok == (can_widen(layout) && self@.can_release(ptr as int, widened_size(layout))),
    {
        match Self::size_align(layout) {
            Some((size, _)) => self.may_add_free_block(ptr, size),
            None => false,
        }
    }

    /// Take back the block at `ptr` where it may be released with `layout`,
    /// and leave the free list as it is where not. Tells whether the block
    /// was taken.
    pub fn checked_dealloc(&mut self, ptr: usize, layout: Layout) -> (done: bool)
        requires
            layout.wf(),
        ensures
            final(self)@.wf(),
            done == (can_widen(layout) && old(self)@.can_release(
                ptr as int,
                widened_size(layout),
            )),
            final(self)@ == if done {
                old(self)@.after_dealloc(ptr as int, layout)
            } else {
                old(self)@
            },
    {
        proof {
            use_type_invariant(&*self);
        }
        if self.may_dealloc(ptr, layout) {
            self.dealloc(ptr, layout);
            true
        } else {
            false
        }
    }

    /// Take back the block at `ptr` that a request for `layout` was
    /// answered with: it becomes the first block of the free list.
    pub fn dealloc(&mut self, ptr: usize, layout: Layout)
        requires
            layout.wf(),
            can_widen(layout),
            old(self)@.can_release(ptr as int, widened_size(layout)),
        ensures
            final(self)@.wf(),
            final(self)@ == old(self)@.after_dealloc(ptr as int, layout),
    {
        match Self::size_align(layout) {
            Some((size, _)) => {
                self.add_free_block(ptr, size);
            },
            None => {},
        }
    }
}

} // verus!
