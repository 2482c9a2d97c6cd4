//! Exclusive access to an allocator: a spin lock around it, taken for the
//! whole of each operation and given back when the operation ends.

use crate::allocator::bump::{BumpAllocator, BumpUsage};
use crate::allocator::free_list::{
    can_widen, widened_size, Block, NODE_ALIGN, NODE_SIZE,
};
use crate::allocator::layout::Layout;
use crate::allocator::list::LinkedListAllocator;
use vstd::prelude::*;

verus! {

/// `spin::mutex::Mutex`, a spin lock around a value, opaque here.
#[verifier::external_type_specification]
#[verifier::external_body]
#[verifier::reject_recursive_types(T)]
#[verifier::reject_recursive_types(R)]
pub struct ExMutex<T: ?Sized, R>(spin::mutex::Mutex<T, R>);

/// `spin::relax::Spin`, the busy loop in which a `spin::mutex::Mutex` waits.
#[verifier::external_type_specification]
#[verifier::external_body]
pub struct ExSpin(spin::relax::Spin);

/// `spin::mutex::MutexGuard`, which holds a `spin::mutex::Mutex` locked
/// for as long as it lives.
#[verifier::external_type_specification]
#[verifier::external_body]
#[verifier::reject_recursive_types(T)]
pub struct ExMutexGuard<'a, T: 'a + ?Sized>(spin::mutex::MutexGuard<'a, T>);

/// `spin::mutex::Mutex::new`: a lock around `value`. Nothing is claimed
/// of the lock.
#[verifier::external_body]
fn mutex_new<T>(value: T) -> (mutex: spin::mutex::Mutex<T, spin::relax::Spin>) {
    spin::mutex::Mutex::new(value)
}

/// `spin::mutex::Mutex::lock`: spins until the lock is free, takes it, and
/// hands out the guard that gives it back when it is dropped. Nothing is
/// claimed of the value behind the lock: whoever held the lock before may
/// have changed it. The call does not come back while the lock is held, so
/// a caller must not hold a guard of the same lock.
#[verifier::external_body]
fn mutex_lock<T>(mutex: &spin::mutex::Mutex<T, spin::relax::Spin>) -> (guard:
    spin::mutex::MutexGuard<'_, T>) {
    mutex.lock()
}

/// `DerefMut::deref_mut` of `spin::mutex::MutexGuard`: the value behind the
/// lock that the guard holds. Nothing is claimed of the value.
#[verifier::external_body]
fn guard_mut<'a, 'b, T>(guard: &'a mut spin::mutex::MutexGuard<'b, T>) -> (value: &'a mut T) {
    core::ops::DerefMut::deref_mut(guard)
}

/// A wrapper around a spin lock, through which every operation on the
/// allocator behind it goes.
#[verifier::reject_recursive_types(A)]
pub struct Locked<A> {
    inner: spin::mutex::Mutex<A, spin::relax::Spin>,
}

impl<A> Locked<A> {
    /// Puts `inner` behind a lock.
    pub fn new(inner: A) -> Locked<A> {
        Locked { inner: mutex_new(inner) }
    }
}

impl Locked<BumpAllocator> {
    /// One-time setup of the allocator behind the lock.
    pub fn init(&self) {
        let mut guard = mutex_lock(&self.inner);
        let allocator = guard_mut(&mut guard);
        allocator.init();
    }

    /// Allocates from the allocator behind the lock. Whatever state the
    /// allocator is in, an address that is handed out is aligned as the
    /// layout asks, and the block that starts there ends at a representable
    /// address. `None` also when the allocator has counted as many
    /// allocations as it can count.
    pub fn allocate(&self, layout: Layout) -> (ptr: Option<usize>)
        requires
            layout.align > 0,
        ensures
            match ptr {
                Some(addr) => {
                    &&& addr % layout.align == 0
                    &&& addr + layout.size <= usize::MAX
                },
                None => true,
            },
    {
        let mut guard = mutex_lock(&self.inner);
        let allocator = guard_mut(&mut guard);
        allocator.checked_allocate(layout)
    }

    /// Hands a block back to the allocator behind the lock, which does not
    /// take it: a bump allocator never takes memory back, so the block
    /// stays lost and the allocator stays as it is. The lock is taken all
    /// the same, so that the call waits for an operation that is under way
    /// on another path of execution.
    pub fn dealloc(&self, ptr: usize, layout: Layout) {
        let mut guard = mutex_lock(&self.inner);
        let allocator = guard_mut(&mut guard);
        allocator.dealloc(ptr, layout);
    }

    /// The occupancy of the allocator behind the lock at the time of the
    /// call. What the numbers are depends on the allocations that went
    /// before. Whatever they are, the cursor lies in the heap, and the
    /// byte counts are what the three addresses give: the used bytes lie
    /// below the cursor, the free bytes lie above it, and the two together
    /// make the heap. The count of allocations is the allocator's own, of
    /// which nothing is known here.
    pub fn dump_free_list(&self) -> (usage: BumpUsage)
        ensures
            usage.heap_start <= usage.next <= usage.heap_end,
            usage.used == usage.next - usage.heap_start,
            usage.free == usage.heap_end - usage.next,
            usage.total == usage.heap_end - usage.heap_start,
    {
        let mut guard = mutex_lock(&self.inner);
        let allocator = guard_mut(&mut guard);
        allocator.dump_free_list()
    }
}

impl Locked<LinkedListAllocator> {
    /// One-time setup of the allocator behind the lock: the whole heap
    /// becomes one free block, where the heap can be one and no block is
    /// free yet; nothing happens otherwise. Tells whether it was set up.
    pub fn init(&self) -> (done: bool) {
        let mut guard = mutex_lock(&self.inner);
        let allocator = guard_mut(&mut guard);
        allocator.checked_init()
    }

    /// Allocates from the allocator behind the lock: the answer is that of
    /// the allocator's own `allocate` in the state in which the lock is
    /// found, and the allocator is left in the state that `allocate` leaves
    /// it in. Which state that is depends on the operations that went
    /// before. A request that cannot be widened fails in every state.
    /// Whatever state the allocator is in, an address that is handed out is
    /// not null, is aligned as the layout asks and as a block header needs,
    /// and the block that starts there ends at a representable address.
    /// The lock is taken for the call and given back when the call ends.
    pub fn allocate(&self, layout: Layout) -> (ptr: Option<usize>)
        requires
            layout.wf(),
        ensures
            !can_widen(layout) ==> ptr.is_none(),
            match ptr {
                Some(addr) => {
                    &&& addr != 0
                    &&& addr % layout.align == 0
                    &&& addr % NODE_ALIGN == 0
                    &&& addr + layout.size <= usize::MAX
                },
                None => true,
            },
    {
        let mut guard = mutex_lock(&self.inner);
        let allocator = guard_mut(&mut guard);
        allocator.allocate(layout)
    }

    /// Hands a block back to the allocator behind the lock where the block
    /// may be released there, and tells whether it was taken. A block that
    /// is taken has a layout that can be widened and may hold a block header.
    pub fn dealloc(&self, ptr: usize, layout: Layout) -> (done: bool)
        requires
            layout.wf(),
        ensures
            done ==> can_widen(layout) && ptr != 0 && ptr % NODE_ALIGN == 0,
            done ==> ptr + widened_size(layout) <= usize::MAX,
    {
        let mut guard = mutex_lock(&self.inner);
        let allocator = guard_mut(&mut guard);
        allocator.checked_dealloc(ptr, layout)
    }

    /// The free blocks of the allocator behind the lock at the time of the
    /// call, in list order. Which blocks these are depends on the
    /// operations that went before. Whatever they are, each of them may
    /// hold a block header and starts where one may stand, and no two of
    /// them overlap.
    pub fn dump_free_list(&self) -> (blocks: Vec<Block>)
        ensures
            forall|i: int|
                0 <= i < blocks@.len() ==> {
                    &&& (#[trigger] blocks@[i]).start % NODE_ALIGN == 0
                    &&& blocks@[i].size >= NODE_SIZE
                    &&& blocks@[i].end() <= usize::MAX
                },
            forall|i: int, j: int|
                0 <= i < j < blocks@.len() ==> (#[trigger] blocks@[i]).disjoint(
                    #[trigger] blocks@[j],
                ),
    {
        let mut guard = mutex_lock(&self.inner);
        let allocator = guard_mut(&mut guard);
        let blocks = allocator.dump_free_list();
        proof {
            assert forall|i: int| 0 <= i < blocks@.len() implies {
                &&& (#[trigger] blocks@[i]).start % NODE_ALIGN == 0
                &&& blocks@[i].size >= NODE_SIZE
                &&& blocks@[i].end() <= usize::MAX
            } by {
                assert(allocator@.holds(allocator@.free[i]));
            }
        }
        blocks
    }
}

} // verus!
