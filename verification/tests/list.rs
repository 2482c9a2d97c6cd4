use os_kernel::allocator::free_list::{Block, NODE_ALIGN, NODE_SIZE};
use os_kernel::allocator::layout::Layout;
use os_kernel::allocator::list::LinkedListAllocator;

fn layout(size: usize, align: usize) -> Layout {
    Layout::from_size_align(size, align).unwrap()
}

fn fresh(heap_start: usize, heap_size: usize) -> LinkedListAllocator {
    let mut heap = LinkedListAllocator::new(heap_start, heap_size);
    assert!(heap.may_init());
    heap.init();
    heap
}

fn blocks(heap: &mut LinkedListAllocator) -> Vec<(usize, usize)> {
    heap.dump_free_list().iter().map(|b: &Block| (b.start, b.size)).collect()
}

fn total_free(heap: &mut LinkedListAllocator) -> usize {
    heap.dump_free_list().iter().map(|b: &Block| b.size).sum()
}

#[test]
fn node_header_takes_two_words() {
    assert_eq!(NODE_SIZE, 16);
    assert_eq!(NODE_ALIGN, 8);
}

#[test]
fn new_allocator_has_no_free_block() {
    let mut heap = LinkedListAllocator::new(0x1000, 0x1000);
    assert_eq!(blocks(&mut heap), vec![]);
    assert_eq!(heap.allocate(layout(16, 8)), None);
}

#[test]
fn init_makes_the_heap_one_free_block() {
    let mut heap = LinkedListAllocator::new(0x1000, 0x1000);
    assert!(heap.may_init());
    heap.init();
    assert_eq!(blocks(&mut heap), vec![(0x1000, 4096)]);
    assert!(!heap.may_init());
}

#[test]
fn init_needs_an_aligned_heap_that_holds_a_header() {
    assert!(!LinkedListAllocator::new(0x1004, 0x1000).may_init());
    assert!(!LinkedListAllocator::new(0x1000, 15).may_init());
    assert!(!LinkedListAllocator::new(0, 0x1000).may_init());
    assert!(LinkedListAllocator::new(0x1000, 16).may_init());
}

#[test]
fn first_fit_splits_the_fresh_heap() {
    let mut heap = fresh(0x1000, 0x1000);
    assert_eq!(heap.allocate(layout(16, 8)), Some(0x1000));
    assert_eq!(blocks(&mut heap), vec![(0x1010, 4080)]);
}

#[test]
fn released_block_is_reused_first() {
    let mut heap = fresh(0x1000, 0x1000);
    assert_eq!(heap.allocate(layout(16, 8)), Some(0x1000));
    assert!(heap.may_dealloc(0x1000, layout(16, 8)));
    heap.dealloc(0x1000, layout(16, 8));
    assert_eq!(blocks(&mut heap), vec![(0x1000, 16), (0x1010, 4080)]);
    assert_eq!(heap.allocate(layout(16, 8)), Some(0x1000));
    assert_eq!(blocks(&mut heap), vec![(0x1010, 4080)]);
}

#[test]
fn released_neighbours_are_not_merged() {
    let mut heap = fresh(0x1000, 64);
    assert_eq!(heap.allocate(layout(32, 8)), Some(0x1000));
    assert_eq!(heap.allocate(layout(32, 8)), Some(0x1020));
    assert_eq!(blocks(&mut heap), vec![]);
    heap.dealloc(0x1000, layout(32, 8));
    heap.dealloc(0x1020, layout(32, 8));
    assert_eq!(blocks(&mut heap), vec![(0x1020, 32), (0x1000, 32)]);
    assert_eq!(heap.allocate(layout(48, 8)), None);
    assert_eq!(heap.allocate(layout(64, 8)), None);
    assert_eq!(blocks(&mut heap), vec![(0x1020, 32), (0x1000, 32)]);
    assert_eq!(heap.allocate(layout(32, 8)), Some(0x1020));
}

#[test]
fn exact_fit_uses_the_block_up() {
    let mut heap = fresh(0x1000, 64);
    assert_eq!(heap.allocate(layout(16, 8)), Some(0x1000));
    assert_eq!(blocks(&mut heap), vec![(0x1010, 48)]);
    heap.dealloc(0x1000, layout(16, 8));
    assert_eq!(blocks(&mut heap).len(), 2);
    assert_eq!(heap.allocate(layout(48, 8)), Some(0x1010));
    assert_eq!(blocks(&mut heap), vec![(0x1000, 16)]);
    assert_eq!(heap.allocate(layout(16, 8)), Some(0x1000));
    assert_eq!(blocks(&mut heap), vec![]);
}

#[test]
fn block_with_too_small_a_remainder_is_passed_over() {
    let mut heap = fresh(0x1000, 64);
    assert_eq!(heap.allocate(layout(24, 8)), Some(0x1000));
    assert_eq!(heap.allocate(layout(40, 8)), Some(0x1018));
    heap.dealloc(0x1018, layout(40, 8));
    heap.dealloc(0x1000, layout(24, 8));
    assert_eq!(blocks(&mut heap), vec![(0x1000, 24), (0x1018, 40)]);
    // 16 of 24 bytes would leave 8, too few for a header: the second block serves
    assert_eq!(heap.allocate(layout(16, 8)), Some(0x1018));
    assert_eq!(blocks(&mut heap), vec![(0x1028, 24), (0x1000, 24)]);
    // 32 of 40 bytes would leave 8 as well: no block serves
    heap.dealloc(0x1018, layout(16, 8));
    assert_eq!(heap.allocate(layout(24, 8)), Some(0x1028));
    assert_eq!(heap.allocate(layout(24, 8)), Some(0x1000));
    assert_eq!(blocks(&mut heap), vec![(0x1018, 16)]);
    assert_eq!(heap.allocate(layout(9, 1)), Some(0x1018));
}

#[test]
fn search_takes_the_first_block_that_fits() {
    let mut heap = fresh(0x1000, 0x100);
    let a = heap.allocate(layout(64, 8)).unwrap();
    let b = heap.allocate(layout(32, 8)).unwrap();
    let c = heap.allocate(layout(64, 8)).unwrap();
    assert_eq!((a, b, c), (0x1000, 0x1040, 0x1060));
    heap.dealloc(a, layout(64, 8));
    heap.dealloc(c, layout(64, 8));
    heap.dealloc(b, layout(32, 8));
    assert_eq!(blocks(&mut heap), vec![(0x1040, 32), (0x1060, 64), (0x1000, 64), (0x10a0, 96)]);
    // the first block is too small, the second is the first that fits
    assert_eq!(heap.allocate(layout(64, 8)), Some(0x1060));
    assert_eq!(blocks(&mut heap), vec![(0x1040, 32), (0x1000, 64), (0x10a0, 96)]);
    // the remainder of a split goes to the front
    assert_eq!(heap.allocate(layout(48, 8)), Some(0x1000));
    assert_eq!(blocks(&mut heap), vec![(0x1030, 16), (0x1040, 32), (0x10a0, 96)]);
}

#[test]
fn small_requests_are_widened_to_a_header() {
    let mut heap = fresh(0x1000, 0x100);
    assert_eq!(heap.allocate(layout(1, 1)), Some(0x1000));
    assert_eq!(heap.allocate(layout(0, 1)), Some(0x1010));
    assert_eq!(heap.allocate(layout(17, 2)), Some(0x1020));
    assert_eq!(blocks(&mut heap), vec![(0x1038, 200)]);
    heap.dealloc(0x1000, layout(1, 1));
    assert_eq!(blocks(&mut heap), vec![(0x1000, 16), (0x1038, 200)]);
}

#[test]
fn size_align_widens_size_and_alignment() {
    assert_eq!(LinkedListAllocator::size_align(layout(1, 1)), Some((16, 8)));
    assert_eq!(LinkedListAllocator::size_align(layout(16, 8)), Some((16, 8)));
    assert_eq!(LinkedListAllocator::size_align(layout(17, 8)), Some((24, 8)));
    assert_eq!(LinkedListAllocator::size_align(layout(20, 32)), Some((32, 32)));
    assert_eq!(LinkedListAllocator::size_align(layout(4, 64)), Some((64, 64)));
    assert_eq!(LinkedListAllocator::size_align(layout(0, 1)), Some((16, 8)));
    assert_eq!(LinkedListAllocator::size_align(layout(isize::MAX as usize, 1)), None);
}

#[test]
fn request_that_cannot_be_widened_fails() {
    let mut heap = fresh(0x1000, 0x100);
    assert_eq!(heap.allocate(layout(isize::MAX as usize, 1)), None);
    assert_eq!(blocks(&mut heap), vec![(0x1000, 256)]);
    assert!(!heap.may_dealloc(0x1000, layout(isize::MAX as usize, 1)));
}

#[test]
fn check_block_tells_where_the_allocation_starts() {
    let block = Block { start: 0x1008, size: 64 };
    assert_eq!(LinkedListAllocator::check_block_for_alloc(&block, 64, 8), Ok(0x1008));
    assert_eq!(LinkedListAllocator::check_block_for_alloc(&block, 48, 8), Ok(0x1008));
    assert_eq!(LinkedListAllocator::check_block_for_alloc(&block, 32, 16), Ok(0x1010));
    assert_eq!(LinkedListAllocator::check_block_for_alloc(&block, 56, 16), Ok(0x1010));
}

#[test]
fn check_block_refuses_what_does_not_fit() {
    let block = Block { start: 0x1008, size: 64 };
    // too large
    assert_eq!(LinkedListAllocator::check_block_for_alloc(&block, 65, 8), Err(()));
    // too large once the start is aligned
    assert_eq!(LinkedListAllocator::check_block_for_alloc(&block, 64, 16), Err(()));
    // a remainder of 8 bytes holds no header
    assert_eq!(LinkedListAllocator::check_block_for_alloc(&block, 56, 8), Err(()));
    assert_eq!(LinkedListAllocator::check_block_for_alloc(&block, 49, 8), Err(()));
    // the end of the allocation is no address
    assert_eq!(LinkedListAllocator::check_block_for_alloc(&block, usize::MAX, 8), Err(()));
    let last = Block { start: usize::MAX - 15, size: 15 };
    assert_eq!(LinkedListAllocator::check_block_for_alloc(&last, 1, 32), Err(()));
}

#[test]
fn find_free_block_unlinks_the_block() {
    let mut heap = fresh(0x1000, 0x100);
    let a = heap.allocate(layout(32, 8)).unwrap();
    let b = heap.allocate(layout(64, 8)).unwrap();
    heap.dealloc(b, layout(64, 8));
    heap.dealloc(a, layout(32, 8));
    assert_eq!(blocks(&mut heap), vec![(0x1000, 32), (0x1020, 64), (0x1060, 160)]);
    let found = heap.find_free_block(64, 8).unwrap();
    assert_eq!((found.start, found.size), (0x1020, 64));
    assert_eq!(blocks(&mut heap), vec![(0x1000, 32), (0x1060, 160)]);
    let found = heap.find_free_block(160, 8).unwrap();
    assert_eq!((found.start_addr(), found.end_addr()), (0x1060, 0x1100));
    assert_eq!(blocks(&mut heap), vec![(0x1000, 32)]);
    assert!(heap.find_free_block(40, 8).is_none());
    let found = heap.find_free_block(32, 8).unwrap();
    assert_eq!((found.start, found.size), (0x1000, 32));
    assert_eq!(blocks(&mut heap), vec![]);
}

#[test]
fn larger_alignment_skips_the_start_of_the_block() {
    let mut heap = fresh(0x1008, 0x1000);
    assert_eq!(heap.allocate(layout(16, 16)), Some(0x1010));
    assert_eq!(blocks(&mut heap), vec![(0x1020, 0xfe8)]);
    // the size is padded to the alignment
    assert_eq!(heap.allocate(layout(32, 256)), Some(0x1100));
    assert_eq!(blocks(&mut heap), vec![(0x1200, 0xe08)]);
}

#[test]
fn round_trip_keeps_the_free_bytes() {
    let mut heap = fresh(0x1000, 0x1000);
    let kept = heap.allocate(layout(100, 4)).unwrap();
    for (size, align) in [(1usize, 1usize), (16, 8), (24, 8), (100, 2), (2048, 8), (0, 1)] {
        let before = total_free(&mut heap);
        let addr = heap.allocate(layout(size, align)).unwrap();
        assert!(total_free(&mut heap) < before);
        assert!(heap.may_dealloc(addr, layout(size, align)));
        heap.dealloc(addr, layout(size, align));
        assert_eq!(total_free(&mut heap), before);
    }
    heap.dealloc(kept, layout(100, 4));
    assert_eq!(total_free(&mut heap), 4096);
}

#[test]
fn round_trip_loses_the_bytes_before_an_aligned_start() {
    let mut heap = fresh(0x1008, 0x1000);
    assert_eq!(total_free(&mut heap), 4096);
    let addr = heap.allocate(layout(16, 16)).unwrap();
    assert_eq!(addr, 0x1010);
    heap.dealloc(addr, layout(16, 16));
    assert_eq!(total_free(&mut heap), 4088);
}

#[test]
fn block_may_not_be_released_twice() {
    let mut heap = fresh(0x1000, 0x100);
    let addr = heap.allocate(layout(32, 8)).unwrap();
    assert!(heap.may_dealloc(addr, layout(32, 8)));
    heap.dealloc(addr, layout(32, 8));
    assert!(!heap.may_dealloc(addr, layout(32, 8)));
    assert!(!heap.may_dealloc(addr + 8, layout(16, 8)));
}

#[test]
fn block_outside_the_heap_may_not_be_released() {
    let mut heap = fresh(0x1000, 0x100);
    let _ = heap.allocate(layout(0x100, 8)).unwrap();
    assert!(heap.may_add_free_block(0x1000, 0x100));
    assert!(heap.may_add_free_block(0x10f0, 16));
    assert!(!heap.may_add_free_block(0x10f8, 16));
    assert!(!heap.may_add_free_block(0x0ff8, 16));
    assert!(!heap.may_add_free_block(0x1004, 16));
    assert!(!heap.may_add_free_block(0x1000, 8));
    assert!(!heap.may_add_free_block(0x1000, usize::MAX));
    assert!(!heap.may_dealloc(0x2000, layout(16, 8)));
}

#[test]
fn add_free_block_puts_the_block_first() {
    let mut heap = LinkedListAllocator::new(0x1000, 0x100);
    heap.add_free_block(0x1080, 0x40);
    heap.add_free_block(0x1000, 0x20);
    heap.add_free_block(0x1040, 0x10);
    assert_eq!(blocks(&mut heap), vec![(0x1040, 0x10), (0x1000, 0x20), (0x1080, 0x40)]);
    assert!(!heap.may_add_free_block(0x1010, 0x20));
    assert!(heap.may_add_free_block(0x1020, 0x20));
}

#[test]
fn many_blocks_keep_their_order() {
    let mut heap = fresh(0x10000, 0x1000);
    let mut held = Vec::new();
    for _ in 0..32 {
        held.push(heap.allocate(layout(64, 8)).unwrap());
    }
    for (i, addr) in held.iter().enumerate() {
        assert_eq!(*addr, 0x10000 + 64 * i);
    }
    for addr in held.iter().step_by(2) {
        heap.dealloc(*addr, layout(64, 8));
    }
    let free = blocks(&mut heap);
    assert_eq!(free.len(), 17);
    assert_eq!(free[0], (0x10000 + 64 * 30, 64));
    assert_eq!(free[15], (0x10000, 64));
    assert_eq!(free[16], (0x10000 + 64 * 32, 0x1000 - 64 * 32));
    assert_eq!(heap.allocate(layout(128, 8)), Some(0x10000 + 64 * 32));
    // what is left of the split block is now the first block
    assert_eq!(heap.allocate(layout(64, 8)), Some(0x10000 + 64 * 32 + 128));
    assert_eq!(heap.allocate(layout(0x1000 - 64 * 32 - 192, 8)), Some(0x10000 + 64 * 32 + 192));
    assert_eq!(heap.allocate(layout(64, 8)), Some(0x10000 + 64 * 30));
}

#[test]
fn checked_init_sets_up_once() {
    let mut heap = LinkedListAllocator::new(0x1000, 0x100);
    assert!(heap.checked_init());
    assert_eq!(blocks(&mut heap), vec![(0x1000, 0x100)]);
    assert!(!heap.checked_init());
    assert_eq!(blocks(&mut heap), vec![(0x1000, 0x100)]);
    let mut small = LinkedListAllocator::new(0x1000, 8);
    assert!(!small.checked_init());
    assert_eq!(blocks(&mut small), vec![]);
    let mut odd = LinkedListAllocator::new(0x1004, 0x100);
    assert!(!odd.checked_init());
    assert_eq!(blocks(&mut odd), vec![]);
}

#[test]
fn checked_dealloc_takes_what_may_be_released() {
    let mut heap = fresh(0x1000, 0x100);
    let addr = heap.allocate(layout(32, 8)).unwrap();
    assert!(heap.checked_dealloc(addr, layout(32, 8)));
    assert_eq!(blocks(&mut heap), vec![(0x1000, 32), (0x1020, 224)]);
    // the block is free already
    assert!(!heap.checked_dealloc(addr, layout(32, 8)));
    // the block lies outside the heap
    assert!(!heap.checked_dealloc(0x2000, layout(32, 8)));
    // no header may stand at the address
    assert!(!heap.checked_dealloc(0x1004, layout(8, 4)));
    // the layout cannot be widened
    assert!(!heap.checked_dealloc(0x1000, layout(isize::MAX as usize, 1)));
    assert_eq!(blocks(&mut heap), vec![(0x1000, 32), (0x1020, 224)]);
}
