use os_kernel::allocator::bump::BumpAllocator;
use os_kernel::allocator::free_list::Block;
use os_kernel::allocator::layout::Layout;
use os_kernel::allocator::list::LinkedListAllocator;
use os_kernel::allocator::locked::Locked;

fn layout(size: usize, align: usize) -> Layout {
    Layout::from_size_align(size, align).unwrap()
}

#[test]
fn locked_bump_allocates_from_the_allocator_behind_it() {
    let locked = Locked::new(BumpAllocator::new(0x1000, 0x1000));
    locked.init();
    assert_eq!(locked.allocate(layout(8, 4)), Some(0x1000));
    assert_eq!(locked.allocate(layout(8, 4)), Some(0x1008));
    locked.dealloc(0x1000, layout(8, 4));
    assert_eq!(locked.allocate(layout(8, 16)), Some(0x1010));
    assert_eq!(locked.allocate(layout(0x1000, 4)), None);
    let usage = locked.dump_free_list();
    assert_eq!(usage.used, 0x18);
    assert_eq!(usage.free, 0xfe8);
    assert_eq!(usage.allocations, 3);
}

#[test]
fn locked_list_allocates_and_takes_back() {
    let locked = Locked::new(LinkedListAllocator::new(0x1000, 0x1000));
    assert_eq!(locked.allocate(layout(16, 8)), None);
    assert!(locked.init());
    assert!(!locked.init());
    assert_eq!(locked.allocate(layout(16, 8)), Some(0x1000));
    assert_eq!(locked.allocate(layout(100, 8)), Some(0x1010));
    assert!(locked.dealloc(0x1000, layout(16, 8)));
    let free: Vec<(usize, usize)> =
        locked.dump_free_list().iter().map(|b: &Block| (b.start, b.size)).collect();
    assert_eq!(free, vec![(0x1000, 16), (0x1078, 0xf88)]);
    assert_eq!(locked.allocate(layout(16, 8)), Some(0x1000));
}

#[test]
fn locked_list_refuses_a_block_that_is_free() {
    let locked = Locked::new(LinkedListAllocator::new(0x1000, 0x100));
    assert!(locked.init());
    let addr = locked.allocate(layout(32, 8)).unwrap();
    assert!(locked.dealloc(addr, layout(32, 8)));
    assert!(!locked.dealloc(addr, layout(32, 8)));
    assert!(!locked.dealloc(0x4000, layout(32, 8)));
    assert_eq!(locked.dump_free_list().len(), 2);
}

#[test]
fn locked_list_does_not_init_a_heap_that_holds_no_header() {
    let locked = Locked::new(LinkedListAllocator::new(0x1000, 8));
    assert!(!locked.init());
    assert_eq!(locked.allocate(layout(1, 1)), None);
}

#[test]
fn lock_is_free_again_after_each_operation() {
    let locked = Locked::new(LinkedListAllocator::new(0x1000, 0x1000));
    assert!(locked.init());
    let mut held = Vec::new();
    for _ in 0..50 {
        held.push(locked.allocate(layout(24, 8)).unwrap());
    }
    for addr in held {
        assert!(locked.dealloc(addr, layout(24, 8)));
    }
    assert_eq!(locked.dump_free_list().len(), 51);
}

#[test]
fn locked_list_fails_a_request_that_cannot_be_widened() {
    let locked = Locked::new(LinkedListAllocator::new(0x1000, 0x100));
    assert!(locked.init());
    assert_eq!(locked.allocate(layout(isize::MAX as usize, 1)), None);
    assert!(!locked.dealloc(0x1000, layout(isize::MAX as usize, 1)));
    assert!(!locked.dealloc(0, layout(16, 8)));
    assert!(!locked.dealloc(0x1004, layout(16, 8)));
    assert_eq!(locked.dump_free_list().len(), 1);
}
