//! Kernel memory: the physical frame bitmap and the heap allocators.

pub mod paging;
pub mod free_list;
pub mod allocator;
pub mod bucket_allocator;

use vstd::prelude::*;
use crate::memory::bucket_allocator::BucketAllocator;

verus! {

/// Size of the kernel heap: 2 MiB.
pub const HEAP_SIZE: usize = 0x20_0000;

/// Bytes of the heap in use and bytes left (never below zero).
pub fn heap_stats(heap: &BucketAllocator) -> (r: (usize, usize))
    ensures
        r.0 == heap.used(),
        r.1 == if heap.used() >= HEAP_SIZE { 0 } else { HEAP_SIZE - heap.used() },
{
    let used = heap.used_bytes();
    (used, HEAP_SIZE.saturating_sub(used))
}

} // verus!
