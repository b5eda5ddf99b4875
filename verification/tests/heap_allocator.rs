use kitsune_kernel::allocator_types::init;
use kitsune_kernel::allocator_types::linked_list::{
    align_up, LinkedListAllocator, ListNode, HEAP_SIZE, HEAP_START, NODE_ALIGN, NODE_SIZE,
};

fn node(start: u64, size: u64) -> ListNode {
    ListNode { start, size }
}

fn heap(start: u64, size: u64) -> LinkedListAllocator {
    let mut h = LinkedListAllocator::new();
    h.init(start, size);
    h
}

fn assert_sorted_and_apart(h: &LinkedListAllocator) {
    let nodes = h.free_regions();
    for n in nodes.iter() {
        assert!(n.size >= NODE_SIZE);
    }
    for pair in nodes.windows(2) {
        assert!(pair[0].start + pair[0].size < pair[1].start);
    }
}

#[test]
fn align_up_rounds_to_the_next_multiple() {
    assert_eq!(align_up(0, 8), 0);
    assert_eq!(align_up(1, 8), 8);
    assert_eq!(align_up(8, 8), 8);
    assert_eq!(align_up(9, 8), 16);
    assert_eq!(align_up(0x1001, 0x1000), 0x2000);
    assert_eq!(align_up(77, 1), 77);
    assert_eq!(align_up(u64::MAX - 7, 8), u64::MAX - 7);
}

#[test]
fn node_addresses() {
    let n = ListNode::new(0x1000, 0x40);
    assert_eq!(n, node(0x1000, 0x40));
    assert_eq!(n.start_addr(), 0x1000);
    assert_eq!(n.end_addr(), 0x1040);
}

#[test]
fn find_region_places_the_request_at_the_first_aligned_address() {
    let n = node(0x1004, 0x100);
    assert_eq!(n.find_region(16, 8), Some((0x1008, 0x1018)));
    assert_eq!(n.find_region(0x100, 1), Some((0x1004, 0x1104)));
    assert_eq!(n.find_region(0x100, 8), None);
    assert_eq!(n.find_region(0xfc, 4), Some((0x1004, 0x1100)));
    assert_eq!(n.find_region(1, 0x1000), None);
    assert_eq!(n.find_region(u64::MAX, 1), None);
    let high = node(u64::MAX - 0x20, 0x20);
    assert_eq!(high.find_region(16, 0x1000), None);
    assert_eq!(high.find_region(0x20, 1), Some((u64::MAX - 0x20, u64::MAX)));
}

#[test]
fn can_split_asks_for_room_for_a_header() {
    let n = node(0x1000, 0x100);
    assert!(n.can_split(0x1000));
    assert!(n.can_split(0x10f0));
    assert!(!n.can_split(0x10f1));
    assert!(!n.can_split(0x1100));
}

#[test]
fn new_allocator_is_empty() {
    let mut h = LinkedListAllocator::new();
    assert!(h.free_regions().is_empty());
    assert_eq!(h.allocate(16, 8), None);
    assert!(h.free_regions().is_empty());
}

#[test]
fn init_installs_one_region() {
    let h = heap(0x10000, 4096);
    assert_eq!(h.free_regions(), &vec![node(0x10000, 4096)]);
    let mut again = heap(0x10000, 4096);
    again.init(0x20000, NODE_SIZE);
    assert_eq!(again.free_regions(), &vec![node(0x20000, 16)]);
}

#[test]
fn kernel_heap_range() {
    assert_eq!(HEAP_START, 0x4444_4444_0000);
    assert_eq!(HEAP_SIZE, 4 * 1024 * 1024);
    assert_eq!(NODE_SIZE, 16);
    assert_eq!(NODE_ALIGN, 8);
    let mut h = LinkedListAllocator::new();
    init(&mut h);
    assert_eq!(h.free_regions(), &vec![node(HEAP_START, HEAP_SIZE)]);
    assert_eq!(h.allocate(1, 1), Some(HEAP_START));
    assert_eq!(h.free_regions(), &vec![node(HEAP_START + 16, HEAP_SIZE - 16)]);
}

#[test]
fn heap_round_trip_in_order() {
    let start = 0x10000;
    let mut h = heap(start, 4096);
    let a = h.allocate(100, 1).unwrap();
    let b = h.allocate(100, 1).unwrap();
    assert_eq!(a, start);
    assert_eq!(b, start + 100);
    assert!(a + 100 <= b || b + 100 <= a);
    assert_eq!(h.free_regions(), &vec![node(start + 200, 3896)]);
    h.deallocate(a, 100);
    assert_eq!(h.free_regions(), &vec![node(start, 100), node(start + 200, 3896)]);
    h.deallocate(b, 100);
    assert_eq!(h.free_regions(), &vec![node(start, 4096)]);
}

#[test]
fn heap_round_trip_in_reverse() {
    let start = 0x10000;
    let mut h = heap(start, 4096);
    let a = h.allocate(100, 1).unwrap();
    let b = h.allocate(100, 1).unwrap();
    h.deallocate(b, 100);
    assert_eq!(h.free_regions(), &vec![node(start + 100, 3996)]);
    h.deallocate(a, 100);
    assert_eq!(h.free_regions(), &vec![node(start, 4096)]);
}

#[test]
fn aligned_request_leaves_the_gap_before_it_behind() {
    let start = 0x10000;
    let mut h = heap(start, 4096);
    assert_eq!(h.allocate(100, 8), Some(start));
    assert_eq!(h.allocate(100, 8), Some(start + 104));
    assert_eq!(h.free_regions(), &vec![node(start + 204, 3892)]);
    h.deallocate(start, 100);
    h.deallocate(start + 104, 100);
    assert_eq!(h.free_regions(), &vec![node(start, 100), node(start + 104, 3992)]);
}

#[test]
fn small_requests_are_raised_to_a_header() {
    let start = 0x10000;
    let mut h = heap(start, 64);
    assert_eq!(h.allocate(1, 1), Some(start));
    assert_eq!(h.free_regions(), &vec![node(start + 16, 48)]);
    assert_eq!(h.allocate(0, 1), Some(start + 16));
    h.deallocate(start, 1);
    assert_eq!(h.free_regions(), &vec![node(start, 16), node(start + 32, 32)]);
    h.deallocate(start + 16, 0);
    assert_eq!(h.free_regions(), &vec![node(start, 64)]);
}

#[test]
fn first_fit_takes_the_first_region_that_is_large_enough() {
    let mut h = LinkedListAllocator::new();
    h.dealloc_to_list(0x1000, 32);
    h.dealloc_to_list(0x2000, 256);
    h.dealloc_to_list(0x3000, 64);
    assert_eq!(
        h.free_regions(),
        &vec![node(0x1000, 32), node(0x2000, 256), node(0x3000, 64)]
    );
    assert_eq!(h.alloc_from_list(64, 1), Some(0x2000));
    assert_eq!(
        h.free_regions(),
        &vec![node(0x1000, 32), node(0x2040, 192), node(0x3000, 64)]
    );
    assert_eq!(h.alloc_from_list(32, 1), Some(0x1000));
    assert_eq!(h.free_regions(), &vec![node(0x2040, 192), node(0x3000, 64)]);
    assert_eq!(h.alloc_from_list(1000, 1), None);
    assert_eq!(h.free_regions(), &vec![node(0x2040, 192), node(0x3000, 64)]);
}

#[test]
fn remainder_too_small_for_a_header_leaves_with_the_region() {
    let mut h = heap(0x1000, 64);
    assert_eq!(h.alloc_from_list(49, 1), Some(0x1000));
    assert!(h.free_regions().is_empty());
    let mut h = heap(0x1000, 64);
    assert_eq!(h.alloc_from_list(48, 1), Some(0x1000));
    assert_eq!(h.free_regions(), &vec![node(0x1030, 16)]);
    let mut h = heap(0x1000, 64);
    assert_eq!(h.alloc_from_list(64, 1), Some(0x1000));
    assert!(h.free_regions().is_empty());
    assert_eq!(h.alloc_from_list(16, 1), None);
}

#[test]
fn freed_block_merges_with_both_neighbours() {
    let mut h = LinkedListAllocator::new();
    h.dealloc_to_list(0x1000, 0x100);
    h.dealloc_to_list(0x1200, 0x100);
    h.dealloc_to_list(0x1400, 0x100);
    assert_eq!(h.free_regions().len(), 3);
    h.dealloc_to_list(0x1100, 0x100);
    assert_eq!(h.free_regions(), &vec![node(0x1000, 0x300), node(0x1400, 0x100)]);
    h.dealloc_to_list(0x1300, 0x20);
    assert_eq!(h.free_regions(), &vec![node(0x1000, 0x320), node(0x1400, 0x100)]);
    h.dealloc_to_list(0x13e0, 0x20);
    assert_eq!(h.free_regions(), &vec![node(0x1000, 0x320), node(0x13e0, 0x120)]);
    h.dealloc_to_list(0x1320, 0xc0);
    assert_eq!(h.free_regions(), &vec![node(0x1000, 0x500)]);
    h.dealloc_to_list(0x800, 0x10);
    h.dealloc_to_list(0x2000, 0x10);
    assert_eq!(
        h.free_regions(),
        &vec![node(0x800, 0x10), node(0x1000, 0x500), node(0x2000, 0x10)]
    );
}

#[test]
fn list_stays_sorted_and_apart_through_a_mixed_run() {
    let start = 0x40000;
    let mut h = heap(start, 8192);
    let mut live: Vec<(u64, u64)> = Vec::new();
    let sizes = [24u64, 100, 16, 512, 40, 1000, 64, 8, 300, 72];
    for (i, size) in sizes.iter().enumerate() {
        let align = 1u64 << (i % 5);
        if let Some(a) = h.allocate(*size, align) {
            assert_eq!(a % align, 0);
            for (b, s) in live.iter() {
                assert!(a + (*size).max(16) <= *b || *b + (*s).max(16) <= a);
            }
            live.push((a, *size));
        }
        assert_sorted_and_apart(&h);
        if i % 3 == 2 {
            let (a, s) = live.remove(0);
            h.deallocate(a, s);
            assert_sorted_and_apart(&h);
        }
    }
    while let Some((a, s)) = live.pop() {
        h.deallocate(a, s);
        assert_sorted_and_apart(&h);
    }
    let free: u64 = h.free_regions().iter().map(|n| n.size).sum();
    assert!(free <= 8192);
}

#[test]
fn allocated_blocks_share_no_byte_with_the_free_list() {
    let mut h = heap(0x1000, 0x100);
    assert!(!h.is_allocated(0x1000, 16));
    assert!(!h.is_allocated(0x10f0, 32));
    assert!(!h.is_allocated(0xff0, 17));
    assert!(h.is_allocated(0xff0, 16));
    assert!(h.is_allocated(0x1100, 16));
    assert!(h.is_allocated(0x2000, 0));
    let a = h.allocate(64, 1).unwrap();
    assert!(h.is_allocated(a, 64));
    assert!(!h.is_allocated(a, 65));
    assert!(!h.is_allocated(u64::MAX, 16));
    assert!(h.is_allocated(u64::MAX - 16, 16));
    h.deallocate(a, 64);
    assert!(!h.is_allocated(a, 64));
}
