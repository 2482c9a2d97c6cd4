use os_kernel::allocator::bump::BumpAllocator;
use os_kernel::allocator::layout::Layout;

fn layout(size: usize, align: usize) -> Layout {
    Layout::from_size_align(size, align).unwrap()
}

#[test]
fn bump_starts_empty() {
    let mut bump = BumpAllocator::new(0x1000, 0x1000);
    bump.init();
    let usage = bump.dump_free_list();
    assert_eq!(usage.heap_start, 0x1000);
    assert_eq!(usage.heap_end, 0x2000);
    assert_eq!(usage.next, 0x1000);
    assert_eq!(usage.used, 0);
    assert_eq!(usage.free, 4096);
    assert_eq!(usage.total, 4096);
    assert_eq!(usage.allocations, 0);
}

#[test]
fn bump_hands_out_increasing_addresses_until_exhausted() {
    let mut bump = BumpAllocator::new(0x1000, 0x1000);
    assert_eq!(bump.allocate(layout(8, 4)), Some(0x1000));
    assert_eq!(bump.allocate(layout(8, 4)), Some(0x1008));
    assert_eq!(bump.allocate(layout(8, 4)), Some(0x1010));
    assert_eq!(bump.allocate(layout(4081, 4)), None);
    let usage = bump.dump_free_list();
    assert_eq!(usage.next, 0x1018);
    assert_eq!(usage.used, 24);
    assert_eq!(usage.free, 0xFE8);
    assert_eq!(usage.total, 4096);
    assert_eq!(usage.allocations, 3);
}

#[test]
fn bump_fills_the_heap_to_its_last_byte() {
    let mut bump = BumpAllocator::new(0x1000, 0x1000);
    assert_eq!(bump.allocate(layout(8, 4)), Some(0x1000));
    assert_eq!(bump.allocate(layout(4088, 4)), Some(0x1008));
    assert_eq!(bump.allocate(layout(1, 1)), None);
    assert_eq!(bump.allocate(layout(0, 1)), Some(0x2000));
    let usage = bump.dump_free_list();
    assert_eq!(usage.free, 0);
    assert_eq!(usage.allocations, 3);
}

#[test]
fn bump_pads_to_the_alignment() {
    let mut bump = BumpAllocator::new(0x1000, 0x1000);
    assert_eq!(bump.allocate(layout(1, 1)), Some(0x1000));
    assert_eq!(bump.allocate(layout(4, 16)), Some(0x1010));
    assert_eq!(bump.allocate(layout(1, 1)), Some(0x1014));
    assert_eq!(bump.allocate(layout(8, 256)), Some(0x1100));
    assert_eq!(bump.dump_free_list().used, 0x108);
}

#[test]
fn bump_blocks_do_not_overlap() {
    let mut bump = BumpAllocator::new(0x40, 0x400);
    let requests = [(3usize, 1usize), (8, 8), (1, 2), (24, 16), (5, 4), (64, 64), (7, 1)];
    let mut last_end = 0x40;
    for (size, align) in requests {
        let addr = bump.allocate(layout(size, align)).unwrap();
        assert!(addr >= last_end);
        assert_eq!(addr % align, 0);
        last_end = addr + size;
    }
    assert!(last_end <= 0x440);
}

#[test]
fn bump_empty_blocks_share_an_address() {
    let mut bump = BumpAllocator::new(0x1000, 0x10);
    assert_eq!(bump.allocate(layout(0, 1)), Some(0x1000));
    assert_eq!(bump.allocate(layout(0, 1)), Some(0x1000));
    assert_eq!(bump.dump_free_list().allocations, 2);
}

#[test]
fn bump_failure_leaves_the_cursor() {
    let mut bump = BumpAllocator::new(0x1008, 0x20);
    assert_eq!(bump.allocate(layout(0x21, 1)), None);
    assert_eq!(bump.allocate(layout(8, 64)), None);
    let usage = bump.dump_free_list();
    assert_eq!(usage.next, 0x1008);
    assert_eq!(usage.allocations, 0);
    assert_eq!(bump.allocate(layout(0x20, 1)), Some(0x1008));
}

#[test]
fn bump_fails_where_the_address_overflows() {
    let mut bump = BumpAllocator::new(usize::MAX - 15, 15);
    assert_eq!(bump.allocate(layout(1, 1)), Some(usize::MAX - 15));
    assert_eq!(bump.allocate(layout(1, 32)), None);
    assert_eq!(bump.allocate(layout(isize::MAX as usize, 1)), None);
    assert_eq!(bump.dump_free_list().next, usize::MAX - 14);
}

#[test]
fn bump_does_not_take_memory_back() {
    let mut bump = BumpAllocator::new(0x1000, 0x1000);
    let addr = bump.allocate(layout(32, 8)).unwrap();
    bump.dealloc(addr, layout(32, 8));
    let usage = bump.dump_free_list();
    assert_eq!(usage.used, 32);
    assert_eq!(usage.allocations, 1);
    assert_eq!(bump.allocate(layout(32, 8)), Some(0x1020));
}

#[test]
fn checked_allocate_allocates_while_the_count_has_room() {
    let mut bump = BumpAllocator::new(0x1000, 0x20);
    assert_eq!(bump.checked_allocate(layout(8, 4)), Some(0x1000));
    assert_eq!(bump.checked_allocate(layout(4, 16)), Some(0x1010));
    assert_eq!(bump.checked_allocate(layout(16, 1)), None);
    let usage = bump.dump_free_list();
    assert_eq!(usage.next, 0x1014);
    assert_eq!(usage.allocations, 2);
    assert_eq!(bump.checked_allocate(layout(12, 1)), Some(0x1014));
}
