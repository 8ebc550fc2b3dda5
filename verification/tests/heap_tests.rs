use somnia::heap::{
    align_up, block_size, list_index, BumpAllocator, FixedSizeBlockAllocator, LinkedListAllocator,
    HEAP_SIZE, HEAP_START,
};

#[test]
fn align_up_rounds_to_the_next_multiple() {
    assert_eq!(align_up(0, 8), 0);
    assert_eq!(align_up(1, 8), 8);
    assert_eq!(align_up(8, 8), 8);
    assert_eq!(align_up(9, 16), 16);
    assert_eq!(align_up(0x1001, 4096), 0x2000);
}

#[test]
fn list_index_picks_the_smallest_fitting_class() {
    assert_eq!(list_index(1, 1), Some(0));
    assert_eq!(list_index(8, 8), Some(0));
    assert_eq!(list_index(9, 1), Some(1));
    assert_eq!(list_index(16, 32), Some(2));
    assert_eq!(list_index(2048, 1), Some(8));
    assert_eq!(list_index(2049, 1), None);
    assert_eq!(block_size(0), 8);
    assert_eq!(block_size(8), 2048);
}

#[test]
fn list_allocator_hands_out_aligned_disjoint_blocks() {
    let mut heap = LinkedListAllocator::new();
    heap.init(HEAP_START, HEAP_SIZE);
    let a = heap.allocate(100, 8).expect("a");
    let b = heap.allocate(100, 8).expect("b");
    assert_eq!(a % 8, 0);
    assert_eq!(b % 8, 0);
    // Disjoint live allocations (the padded size is at least 100).
    assert!(a + 100 <= b || b + 100 <= a);
}

#[test]
fn list_allocator_reuses_freed_region() {
    let mut heap = LinkedListAllocator::new();
    heap.init(HEAP_START, HEAP_SIZE);
    let a = heap.allocate(64, 8).expect("a");
    heap.dealloc(a, 64, 8);
    let again = heap.allocate(64, 8).expect("again");
    // The freed region sits at the front of the list, so it is retried
    // first; reuse of the same address is allowed, not owed.
    assert_eq!(again % 8, 0);
    let _ = a;
}

#[test]
fn list_allocator_fails_cleanly_when_full() {
    let mut heap = LinkedListAllocator::new();
    heap.init(0x1000, 64);
    assert!(heap.allocate(32, 8).is_some());
    assert!(heap.allocate(4096, 8).is_none());
}

#[test]
fn block_allocator_alignment_over_class_range() {
    let mut heap = FixedSizeBlockAllocator::new();
    heap.init(HEAP_START, HEAP_SIZE);
    let mut align = 1u64;
    while align <= 2048 {
        let mut size = 1u64;
        while size <= 2048 {
            let a = heap.allocate(size, align).expect("allocation");
            assert_eq!(a % align, 0, "size {} align {}", size, align);
            size *= 4;
        }
        align *= 2;
    }
}

#[test]
fn block_allocator_reuses_class_blocks() {
    let mut heap = FixedSizeBlockAllocator::new();
    heap.init(HEAP_START, HEAP_SIZE);
    let a = heap.allocate(64, 8).expect("a");
    heap.dealloc(a, 64, 8);
    let b = heap.allocate(64, 8).expect("b");
    // The freed block goes onto the 64-byte class list and is the first
    // candidate for the next 64-byte request.
    assert_eq!(a, b);
}

#[test]
fn block_allocator_stress_no_overlap_within_heap() {
    let mut heap = FixedSizeBlockAllocator::new();
    heap.init(HEAP_START, HEAP_SIZE);
    let sizes: Vec<u64> = (0..48)
        .map(|i| {
            let up = 8u64 << (i % 9);
            up.min(2048)
        })
        .collect();
    for _round in 0..2 {
        let mut live: Vec<(u64, u64)> = Vec::new();
        let mut total: u64 = 0;
        // Increasing then decreasing sizes.
        let mut order = sizes.clone();
        order.sort();
        let mut seq = order.clone();
        seq.extend(order.iter().rev());
        for &s in &seq {
            let a = heap.allocate(s, 8).expect("allocation");
            assert!(a >= HEAP_START && a + s <= HEAP_START + HEAP_SIZE);
            for &(b, t) in &live {
                assert!(a + s <= b || b + t <= a, "overlap at {:#x}/{:#x}", a, b);
            }
            live.push((a, s));
            total += s;
            assert!(total <= HEAP_SIZE);
        }
        for &(a, s) in &live {
            heap.dealloc(a, s, 8);
        }
    }
}

#[test]
fn bump_allocator_advances_and_never_reclaims() {
    let mut bump = BumpAllocator::new(0x1000, 0x2000);
    let a = bump.allocate(100, 8).expect("a");
    let b = bump.allocate(100, 8).expect("b");
    assert!(b >= a + 100);
    assert_eq!(a % 8, 0);
    bump.dealloc(a, 100, 8);
    let c = bump.allocate(100, 8).expect("c");
    assert!(c >= b + 100, "dealloc must not reclaim");
    assert!(bump.allocate(0x2000, 8).is_none());
}
