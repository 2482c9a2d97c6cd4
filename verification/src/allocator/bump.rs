//! A bump allocator: a cursor that only moves forward through the heap.
//! Memory that was handed out is never taken back.

use crate::allocator::align::{align_up_spec, checked_align_up, lemma_align_up_bounds};
use crate::allocator::layout::Layout;
use vstd::prelude::*;

verus! {

/// What a bump allocator is, as plain numbers.
pub struct BumpState {
    /// First address of the heap.
    pub heap_start: int,
    /// First address behind the heap.
    pub heap_end: int,
    /// The cursor: the first address that was not handed out yet.
    pub next: int,
    /// How many allocations succeeded so far.
    pub allocations: int,
}

impl BumpState {
    /// The cursor lies inside the heap, bounds included.
    pub open spec fn wf(self) -> bool {
        &&& 0 <= self.heap_start <= self.next <= self.heap_end
        &&& 0 <= self.allocations
    }

    /// Where a block of this layout would start: the cursor, rounded up to
    /// the layout's alignment.
    pub open spec fn alloc_start(self, layout: Layout) -> int {
        align_up_spec(self.next, layout.align as int)
    }

    /// Whether a block of this layout still fits behind the cursor.
    pub open spec fn fits(self, layout: Layout) -> bool {
        self.alloc_start(layout) + layout.size <= self.heap_end
    }

    /// The state after a request for `layout`: the cursor stands behind the
    /// new block if it fits, and nothing changes if it does not.
    pub open spec fn after_alloc(self, layout: Layout) -> BumpState {
        if self.fits(layout) {
            BumpState {
                next: self.alloc_start(layout) + layout.size,
                allocations: self.allocations + 1,
                ..self
            }
        } else {
            self
        }
    }

    /// The address that a request for `layout` is answered with, if any.
    pub open spec fn alloc_result(self, layout: Layout) -> Option<int> {
        if self.fits(layout) {
            Some(self.alloc_start(layout))
        } else {
            None
        }
    }

    /// The state after a series of requests, made one after the other.
    pub open spec fn after_allocs(self, requests: Seq<Layout>) -> BumpState
        decreases requests.len(),
    {
        if requests.len() == 0 {
            self
        } else {
            self.after_allocs(requests.drop_last()).after_alloc(requests.last())
        }
    }

    /// The answers to a series of requests, made one after the other.
    pub open spec fn alloc_results(self, requests: Seq<Layout>) -> Seq<Option<int>>
        decreases requests.len(),
    {
        if requests.len() == 0 {
            Seq::empty()
        } else {
            self.alloc_results(requests.drop_last()).push(
                self.after_allocs(requests.drop_last()).alloc_result(requests.last()),
            )
        }
    }
}

/// The numbers that the diagnostic dump of a bump allocator shows.
#[derive(Clone, Copy, Debug)]
pub struct BumpUsage {
    pub heap_start: usize,
    pub heap_end: usize,
    pub next: usize,
    pub used: usize,
    pub free: usize,
    pub total: usize,
    pub allocations: usize,
}

/// A simple bump allocator that allocates memory in a linear fashion.
pub struct BumpAllocator {
    heap_start: usize,
    heap_end: usize,
    next: usize,
    allocations: usize,
}

impl View for BumpAllocator {
    type V = BumpState;

    closed spec fn view(&self) -> BumpState {
        BumpState {
            heap_start: self.heap_start as int,
            heap_end: self.heap_end as int,
            next: self.next as int,
            allocations: self.allocations as int,
        }
    }
}

impl BumpAllocator {
    /// The cursor lies inside the heap, and the heap ends at a representable
    /// address.
    #[verifier::type_invariant]
    pub closed spec fn inv(&self) -> bool {
        self.heap_start <= self.next <= self.heap_end
    }

    /// Create a new empty bump allocator.
    pub fn new(heap_start: usize, heap_size: usize) -> (allocator: BumpAllocator)
        requires
            heap_start + heap_size <= usize::MAX,
        ensures
            allocator@ == (BumpState {
                heap_start: heap_start as int,
                heap_end: heap_start + heap_size,
                next: heap_start as int,
                allocations: 0,
            }),
            allocator@.wf(),
    {
        BumpAllocator { heap_start, heap_end: heap_start + heap_size, next: heap_start, allocations: 0 }
    }

    /// Initialize the bump allocator: there is nothing to set up.
    pub fn init(&mut self)
        ensures
            final(self)@ == old(self)@,
            final(self)@.wf(),
    {
        proof {
            use_type_invariant(&*self);
        }
    }

    /// The occupancy of the heap: used, free and total bytes, and the number
    /// of allocations. The allocator stays as it is.
    pub fn dump_free_list(&mut self) -> (usage: BumpUsage)
        ensures
            final(self)@ == old(self)@,
            final(self)@.wf(),
            usage.heap_start == old(self)@.heap_start,
            usage.heap_end == old(self)@.heap_end,
            usage.next == old(self)@.next,
            usage.used == old(self)@.next - old(self)@.heap_start,
            usage.free == old(self)@.heap_end - old(self)@.next,
            usage.total == old(self)@.heap_end - old(self)@.heap_start,
            usage.allocations == old(self)@.allocations,
    {
        proof {
            use_type_invariant(&*self);
        }
        BumpUsage {
            heap_start: self.heap_start,
            heap_end: self.heap_end,
            next: self.next,
            used: self.next - self.heap_start,
            free: self.heap_end - self.next,
            total: self.heap_end - self.heap_start,
            allocations: self.allocations,
        }
    }

    /// Allocate memory of the given size and alignment: the block starts at
    /// the cursor rounded up to the alignment, and the cursor moves behind
    /// it. `None` when the block would reach beyond the heap.
    pub fn allocate(&mut self, layout: Layout) -> (ptr: Option<usize>)
        requires
            layout.align > 0,
            old(self)@.allocations < usize::MAX,
        ensures
            final(self)@.wf(),
            final(self)@ == old(self)@.after_alloc(layout),
            match ptr {
                Some(addr) => old(self)@.alloc_result(layout) == Some(addr as int),
                None => old(self)@.alloc_result(layout).is_none(),
            },
    {
        proof {
            use_type_invariant(&*self);
            lemma_align_up_bounds(self.next as int, layout.align as int);
        }
        let alloc_start: usize = match checked_align_up(self.next, layout.align) {
            Some(start) => start,
            None => {
                return None;
            },
        };
        let alloc_end: usize = match alloc_start.checked_add(layout.size) {
            Some(end) => end,
            None => {
                return None;
            },
        };
        if alloc_end > self.heap_end {
            None
        } else {
            self.next = alloc_end;
            self.allocations = self.allocations + 1;
            Some(alloc_start)
        }
    }

    /// Allocate memory of the given size and alignment, as long as the
    /// allocation can still be counted: once as many allocations succeeded
    /// as the counter holds, every request fails and nothing changes.
    pub fn checked_allocate(&mut self, layout: Layout) -> (ptr: Option<usize>)
        requires
            layout.align > 0,
        ensures
            final(self)@.wf(),
            final(self)@ == if old(self)@.allocations < usize::MAX {
                old(self)@.after_alloc(layout)
            } else {
                old(self)@
            },
            match ptr {
                Some(addr) => {
                    &&& old(self)@.allocations < usize::MAX
                    &&& old(self)@.alloc_result(layout) == Some(addr as int)
                    &&& addr % layout.align == 0
                    &&& addr + layout.size <= old(self)@.heap_end <= usize::MAX
                },
                None => old(self)@.allocations >= usize::MAX || old(self)@.alloc_result(
                    layout,
                ).is_none(),
            },
    {
        proof {
            use_type_invariant(&*self);
            lemma_align_up_bounds(self.next as int, layout.align as int);
        }
        if self.allocations == usize::MAX {
            return None;
        }
        self.allocate(layout)
    }

    /// Deallocate memory: not supported, the block stays lost and the
    /// allocator stays as it is.
    pub fn dealloc(&mut self, ptr: usize, layout: Layout)
        ensures
            final(self)@ == old(self)@,
            final(self)@.wf(),
    {
        proof {
            use_type_invariant(&*self);
        }
    }
}

/// A series of requests gets one answer each.
pub proof fn lemma_alloc_results_len(state: BumpState, requests: Seq<Layout>)
    ensures
        state.alloc_results(requests).len() == requests.len(),
    decreases requests.len(),
{
    if requests.len() > 0 {
        lemma_alloc_results_len(state, requests.drop_last());
    }
}

/// The answer to the request at position `i` of a series is the answer that
/// the state after the first `i` requests gives to it.
pub proof fn lemma_alloc_results_index(state: BumpState, requests: Seq<Layout>, i: int)
    requires
        0 <= i < requests.len(),
    ensures
        state.alloc_results(requests).len() == requests.len(),
        state.alloc_results(requests)[i] == state.after_allocs(requests.take(i)).alloc_result(
            requests[i],
        ),
    decreases requests.len(),
{
    lemma_alloc_results_len(state, requests);
    lemma_alloc_results_len(state, requests.drop_last());
    if i == requests.len() - 1 {
        assert(requests.take(i) == requests.drop_last());
    } else {
        lemma_alloc_results_index(state, requests.drop_last(), i);
        assert(requests.drop_last().take(i) == requests.take(i));
    }
}

/// A series of requests keeps a well-formed state well-formed, moves the
/// cursor forward only, and leaves the heap's bounds alone.
pub proof fn lemma_after_allocs_advances(state: BumpState, requests: Seq<Layout>)
    requires
        state.wf(),
        forall|k: int| 0 <= k < requests.len() ==> (#[trigger] requests[k]).align > 0,
    ensures
        state.after_allocs(requests).wf(),
        state.next <= state.after_allocs(requests).next,
        state.after_allocs(requests).heap_start == state.heap_start,
        state.after_allocs(requests).heap_end == state.heap_end,
        state.allocations <= state.after_allocs(requests).allocations,
    decreases requests.len(),
{
    if requests.len() > 0 {
        lemma_after_allocs_advances(state, requests.drop_last());
        let before = state.after_allocs(requests.drop_last());
        lemma_align_up_bounds(before.next, requests.last().align as int);
    }
}

/// The cursor after a longer prefix of a series of requests is not below
/// the cursor after a shorter one.
pub proof fn lemma_cursor_monotonic(state: BumpState, requests: Seq<Layout>, i: int, j: int)
    requires
        state.wf(),
        forall|k: int| 0 <= k < requests.len() ==> (#[trigger] requests[k]).align > 0,
        0 <= i <= j <= requests.len(),
    ensures
        state.after_allocs(requests.take(i)).wf(),
        state.after_allocs(requests.take(i)).next <= state.after_allocs(requests.take(j)).next,
    decreases j - i,
{
    lemma_after_allocs_advances(state, requests.take(i));
    if i < j {
        lemma_cursor_monotonic(state, requests, i, j - 1);
        lemma_after_allocs_advances(state, requests.take(j - 1));
        assert(requests.take(j).drop_last() == requests.take(j - 1));
        lemma_align_up_bounds(
            state.after_allocs(requests.take(j - 1)).next,
            requests[j - 1].align as int,
        );
    }
}

/// Bump monotonicity: of two successful allocations in a series, the later
/// block starts at or behind the end of the earlier one, so the blocks do
/// not overlap and lie in the heap; where the earlier block is not empty,
/// the later address is strictly larger.
pub proof fn lemma_allocations_ordered(state: BumpState, requests: Seq<Layout>, i: int, j: int)
    requires
        state.wf(),
        forall|k: int| 0 <= k < requests.len() ==> (#[trigger] requests[k]).align > 0,
        0 <= i < j < requests.len(),
        state.alloc_results(requests)[i].is_some(),
        state.alloc_results(requests)[j].is_some(),
    ensures
        state.heap_start <= state.alloc_results(requests)[i].unwrap(),
        state.alloc_results(requests)[i].unwrap() + requests[i].size
            <= state.alloc_results(requests)[j].unwrap(),
        state.alloc_results(requests)[j].unwrap() + requests[j].size <= state.heap_end,
        requests[i].size > 0 ==> state.alloc_results(requests)[i].unwrap()
            < state.alloc_results(requests)[j].unwrap(),
{
    lemma_alloc_results_index(state, requests, i);
    lemma_alloc_results_index(state, requests, j);
    lemma_cursor_monotonic(state, requests, 0, i);
    lemma_cursor_monotonic(state, requests, i + 1, j);
    lemma_after_allocs_advances(state, requests.take(i));
    lemma_after_allocs_advances(state, requests.take(j));
    let before_i = state.after_allocs(requests.take(i));
    let before_j = state.after_allocs(requests.take(j));
    assert(requests.take(i + 1).drop_last() == requests.take(i));
    assert(state.after_allocs(requests.take(i + 1)) == before_i.after_alloc(requests[i]));
    lemma_align_up_bounds(before_i.next, requests[i].align as int);
    lemma_align_up_bounds(before_j.next, requests[j].align as int);
}

} // verus!
