use monaco_protocol::allocator::BumpAllocator;

#[test]
fn allocations_go_down_from_the_top() {
    let mut heap = BumpAllocator::new(0x1000, 0x100);
    assert_eq!(0, heap.pos());
    assert_eq!(Some(0x10f0), heap.allocate(16, 8));
    assert_eq!(0x10f0, heap.pos());
    // 3 bytes down is 0x10ed, aligned down to 8 is 0x10e8
    assert_eq!(Some(0x10e8), heap.allocate(3, 8));
    assert_eq!(0x10e8, heap.print_usage());
}

#[test]
fn allocation_refused_when_heap_exhausted() {
    let mut heap = BumpAllocator::new(0x1000, 0x20);
    assert_eq!(Some(0x1010), heap.allocate(0x10, 1));
    // would reach into the reserved word at the start of the heap
    assert_eq!(None, heap.allocate(0x10, 1));
    assert_eq!(0x1010, heap.pos());
    assert_eq!(Some(0x1008), heap.allocate(0x8, 1));
}

#[test]
fn move_cursor_resets_position() {
    let mut heap = BumpAllocator::new(0x1000, 0x100);
    heap.allocate(0x40, 8).unwrap();
    heap.move_cursor(0x1100);
    assert_eq!(Some(0x10c0), heap.allocate(0x40, 8));
}
