//! Heap allocators.

use vstd::prelude::*;

pub mod linked_list;

use linked_list::{LinkedListAllocator, ListNode, HEAP_SIZE, HEAP_START};

verus! {

/// Hands the kernel heap range to `allocator` as one free region.
pub fn init(allocator: &mut LinkedListAllocator)
    ensures
        final(allocator).wf(),
        final(allocator)@ == seq![ListNode { start: HEAP_START, size: HEAP_SIZE }],
{
    allocator.init(HEAP_START, HEAP_SIZE);
}

} // verus!
