//! The bytes of the heap and the free list that is threaded through them.
//! The free blocks form a singly linked list whose nodes live in the free
//! memory itself: the first two words of a free block hold its size and the
//! address of the next free block.

use crate::allocator::arena::{
    lemma_store_elsewhere, lemma_store_then_load, load_word, save_word, store_word, word_at,
};
use crate::allocator::free_list::{
    lemma_after_release_wf, lemma_after_remove_wf, Block, HeapState,
};
use vstd::prelude::*;

verus! {

/// Header of a free block in the list allocator.
pub(crate) struct ListNode {
    /// Size of the memory block.
    pub(crate) size: usize,
    /// Address of the next free block, if there is one.
    pub(crate) next: Option<usize>,
}

impl ListNode {
    /// Creates a new ListNode with the given size and no next node.
    pub(crate) fn new(size: usize) -> (node: ListNode)
        ensures
            node.size == size,
            node.next.is_none(),
        no_unwind
    {
        ListNode { size, next: None }
    }
}

/// The word that stands for a link: the address of the block it leads to,
/// and zero where it leads nowhere.
pub(crate) open spec fn link_word(next: Option<usize>) -> int {
    match next {
        Some(addr) => addr as int,
        None => 0,
    }
}

/// The link to the block at position `i` of the list, and none behind the
/// last block.
pub(crate) open spec fn link_to(free: Seq<Block>, i: int) -> Option<usize> {
    if 0 <= i < free.len() {
        Some(free[i].start)
    } else {
        None
    }
}

/// The header that the sixteen bytes from offset `off` on spell: the size
/// word and the link word.
pub(crate) open spec fn header_at(mem: Seq<u8>, off: int) -> (int, int) {
    (word_at(mem, off), word_at(mem, off + 8))
}

/// The first bytes of every block of the list hold its header: its size
/// and the link to the block behind it.
#[verifier::opaque]
pub(crate) open spec fn holds_list(mem: Seq<u8>, base: int, free: Seq<Block>) -> bool {
    forall|i: int|
        0 <= i < free.len() ==> header_at(mem, (#[trigger] free[i]).start - base) == (
            free[i].size as int,
            link_word(link_to(free, i + 1)),
        )
}

/// Reads the header at offset `off`.
fn load_node(mem: &Vec<u8>, off: usize) -> (words: (u64, u64))
    requires
        off + 16 <= mem.len(),
    ensures
        (words.0 as int, words.1 as int) == header_at(mem@, off as int),
{
    (load_word(mem, off), load_word(mem, off + 8))
}

/// Writes a header at offset `off`.
fn save_node(mem: &mut Vec<u8>, off: usize, size: u64, next: u64)
    requires
        off + 16 <= old(mem).len(),
    ensures
        final(mem)@ == store_word(
            store_word(old(mem)@, off as int, size as int),
            off + 8,
            next as int,
        ),
        final(mem)@.len() == old(mem)@.len(),
        header_at(final(mem)@, off as int) == (size as int, next as int),
    no_unwind
{
    save_word(mem, off, size);
    save_word(mem, off + 8, next);
    proof {
        let first = store_word(old(mem)@, off as int, size as int);
        lemma_store_then_load(old(mem)@, off as int, size as int);
        lemma_store_then_load(first, off + 8, next as int);
        lemma_store_elsewhere(first, off + 8, next as int, off as int);
    }
}

/// A header that is written into a block that shares no byte with the
/// blocks of a list, with a link to the list's first block, puts that block
/// at the front of the list.
proof fn lemma_push_front(mem: Seq<u8>, state: HeapState, block: Block)
    requires
        state.wf(),
        state.can_release(block.start as int, block.size as int),
        state.heap_start + mem.len() == state.heap_end,
        holds_list(mem, state.heap_start, state.free),
    ensures
        holds_list(
            store_word(
                store_word(mem, block.start - state.heap_start, block.size as int),
                block.start - state.heap_start + 8,
                link_word(link_to(state.free, 0)),
            ),
            state.heap_start,
            seq![block] + state.free,
        ),
{
    reveal(holds_list);
    let base = state.heap_start;
    let off = block.start - base;
    let next = link_word(link_to(state.free, 0));
    let first = store_word(mem, off, block.size as int);
    let after = store_word(first, off + 8, next);
    let list = seq![block] + state.free;
    lemma_store_then_load(mem, off, block.size as int);
    lemma_store_then_load(first, off + 8, next);
    lemma_store_elsewhere(first, off + 8, next, off);
    assert forall|i: int| 0 <= i < list.len() implies header_at(
        after,
        (#[trigger] list[i]).start - base,
    ) == (list[i].size as int, link_word(link_to(list, i + 1))) by {
        if i > 0 {
            let old_block = state.free[i - 1];
            assert(list[i] == old_block);
            assert(state.holds(old_block));
            assert(old_block.disjoint(block));
            let at = old_block.start - base;
            lemma_store_elsewhere(mem, off, block.size as int, at);
            lemma_store_elsewhere(mem, off, block.size as int, at + 8);
            lemma_store_elsewhere(first, off + 8, next, at);
            lemma_store_elsewhere(first, off + 8, next, at + 8);
            assert(link_to(list, i + 1) == link_to(state.free, i));
        } else {
            assert(link_to(list, 1) == link_to(state.free, 0));
        }
    }
}

/// A link that is made to lead past the block at position `i` takes that
/// block out of the list.
proof fn lemma_unlink(mem: Seq<u8>, state: HeapState, i: int)
    requires
        state.wf(),
        0 <= i < state.free.len(),
        state.heap_start + mem.len() == state.heap_end,
        holds_list(mem, state.heap_start, state.free),
    ensures
        holds_list(
            if i > 0 {
                store_word(
                    mem,
                    state.free[i - 1].start - state.heap_start + 8,
                    link_word(link_to(state.free, i + 1)),
                )
            } else {
                mem
            },
            state.heap_start,
            state.free.remove(i),
        ),
{
    reveal(holds_list);
    let base = state.heap_start;
    let free = state.free;
    let rest = free.remove(i);
    let next = link_word(link_to(free, i + 1));
    let after = if i > 0 {
        store_word(mem, free[i - 1].start - base + 8, next)
    } else {
        mem
    };
    assert forall|k: int| 0 <= k < rest.len() implies header_at(
        after,
        (#[trigger] rest[k]).start - base,
    ) == (rest[k].size as int, link_word(link_to(rest, k + 1))) by {
        let ko = if k < i {
            k
        } else {
            k + 1
        };
        assert(rest[k] == free[ko]);
        assert(state.holds(free[ko]));
        let at = free[ko].start - base;
        if k + 1 < rest.len() {
            let lo = if k + 1 < i {
                k + 1
            } else {
                k + 2
            };
            assert(rest[k + 1] == free[lo]);
        }
        if i > 0 {
            let before = free[i - 1];
            assert(state.holds(before));
            let link_at = before.start - base + 8;
            if ko == i - 1 {
                lemma_store_elsewhere(mem, link_at, next, at);
                lemma_store_then_load(mem, link_at, next);
            } else {
                assert(free[ko].disjoint(before) || before.disjoint(free[ko]));
                lemma_store_elsewhere(mem, link_at, next, at);
                lemma_store_elsewhere(mem, link_at, next, at + 8);
            }
        }
    }
}

/// The heap region of a free-list allocator: its bounds, its bytes, and
/// the head of the free list.
pub(crate) struct Heap {
    head: ListNode,
    heap_start: usize,
    heap_end: usize,
    memory: Vec<u8>,
    free: Ghost<Seq<Block>>,
}

impl View for Heap {
    type V = HeapState;

    closed spec fn view(&self) -> HeapState {
        HeapState {
            heap_start: self.heap_start as int,
            heap_end: self.heap_end as int,
            free: self.free@,
        }
    }
}

impl Heap {
    /// The bytes of the heap hold the free list: the head leads to the
    /// first free block, and every free block starts with its header.
    pub(crate) closed spec fn inv(&self) -> bool {
        &&& self.heap_start + self.memory@.len() == self.heap_end
        &&& self.head.size == self.heap_end - self.heap_start
        &&& self.head.next == link_to(self.free@, 0)
        &&& holds_list(self.memory@, self.heap_start as int, self.free@)
    }

    /// The free list is well-formed, and the heap's bytes hold it.
    pub(crate) open spec fn wf(&self) -> bool {
        self@.wf() && self.inv()
    }

    /// The heap of `heap_size` bytes at `heap_start`, with an empty free
    /// list.
    pub(crate) fn new(heap_start: usize, heap_size: usize) -> (heap: Heap)
        requires
            heap_start + heap_size <= usize::MAX,
        ensures
            heap.wf(),
            heap@ == (HeapState {
                heap_start: heap_start as int,
                heap_end: heap_start + heap_size,
                free: Seq::empty(),
            }),
    {
        proof {
            reveal(holds_list);
        }
        Heap {
            head: ListNode::new(heap_size),
            heap_start,
            heap_end: heap_start + heap_size,
            memory: vec![0u8; heap_size],
            free: Ghost(Seq::empty()),
        }
    }

    /// The first address of the heap.
    pub(crate) fn start(&self) -> (addr: usize)
        ensures
            addr == self@.heap_start,
    {
        self.heap_start
    }

    /// The first address behind the heap.
    pub(crate) fn end(&self) -> (addr: usize)
        ensures
            addr == self@.heap_end,
    {
        self.heap_end
    }

    /// The link of the head: the address of the first free block.
    pub(crate) fn first(&self) -> (next: Option<usize>)
        requires
            self.wf(),
        ensures
            next == link_to(self@.free, 0),
    {
        self.head.next
    }

    /// Reads the header of the free block at `addr`, which stands at
    /// position `i` of the list.
    pub(crate) fn node_at(&self, addr: usize, Ghost(i): Ghost<int>) -> (node: ListNode)
        requires
            self.wf(),
            0 <= i < self@.free.len(),
            addr == self@.free[i].start,
        ensures
            node.size == self@.free[i].size,
            node.next == link_to(self@.free, i + 1),
    {
        proof {
            reveal(holds_list);
            assert(self@.holds(self@.free[i]));
            if i + 1 < self@.free.len() {
                assert(self@.holds(self@.free[i + 1]));
            }
        }
        let words = load_node(&self.memory, addr - self.heap_start);
        ListNode {
            size: words.0 as usize,
            next: if words.1 == 0 {
                None
            } else {
                Some(words.1 as usize)
            },
        }
    }

    /// Takes the block at position `i` out of the list: the link that led
    /// to it, from the block at `prev` or from the head, now leads to
    /// `next`, the block behind it.
    pub(crate) fn unlink(&mut self, prev: Option<usize>, next: Option<usize>, Ghost(i): Ghost<int>)
        requires
            old(self).wf(),
            0 <= i < old(self)@.free.len(),
            prev == link_to(old(self)@.free, i - 1),
            next == link_to(old(self)@.free, i + 1),
        ensures
            final(self).wf(),
            final(self)@ == (HeapState { free: old(self)@.free.remove(i), ..old(self)@ }),
        no_unwind
    {
        let ghost state = self@;
        proof {
            lemma_unlink(self.memory@, state, i);
            lemma_after_remove_wf(state, i);
            if i > 0 {
                assert(state.holds(state.free[i - 1]));
            }
            if i + 1 < state.free.len() {
                assert(state.free.remove(i)[0] == state.free[if i == 0 { 1int } else { 0int }]);
            }
        }
        match prev {
            Some(before) => {
                let word: u64 = match next {
                    Some(addr) => addr as u64,
                    None => 0,
                };
                save_word(&mut self.memory, before - self.heap_start + 8, word);
            },
            None => {
                self.head.next = next;
            },
        }
        self.free = Ghost(state.free.remove(i));
    }

    /// Puts the block of `size` bytes at `addr` at the front of the list:
    /// its header is written into its first bytes, with a link to the block
    /// that was first, and the head is made to lead to it.
    pub(crate) fn push_front(&mut self, addr: usize, size: usize)
        requires
            old(self).wf(),
            old(self)@.can_release(addr as int, size as int),
        ensures
            final(self).wf(),
            final(self)@ == old(self)@.after_release(addr as int, size as int),
        no_unwind
    {
        let ghost before = self@;
        let ghost bytes = self.memory@;
        let mut node = ListNode::new(size);
        node.next = self.head.next;
        let link: u64 = match node.next {
            Some(first) => first as u64,
            None => 0,
        };
        proof {
            lemma_push_front(bytes, before, Block { start: addr, size });
            lemma_after_release_wf(before, addr as int, size as int);
        }
        save_node(&mut self.memory, addr - self.heap_start, node.size as u64, link);
        self.head.next = Some(addr);
        self.free = Ghost(seq![Block { start: addr, size }] + before.free);
    }
}

} // verus!
