//! A first-fit heap allocator over an address-ordered free list that merges
//! neighbouring free blocks.

use vstd::prelude::*;
use crate::memory::bucket_allocator::{BucketAllocator, ClassUsage, usage_rows};
use crate::memory::free_list::{
    FreeList, Region, NODE_SIZE, is_pow2, lemma_pow2_8, align_room, align_up_spec, first_fit, carve, is_free,
    block_ok, insert_spec, starts_region, free_union, regions_wf,
};

verus! {

/// Requests are rounded up to at least 8 bytes.
pub open spec fn round_size(size: usize) -> usize {
    if size < 8 { 8 } else { size }
}

/// Alignments are at least 8 bytes.
pub open spec fn round_align(align: usize) -> usize {
    if align < 8 { 8 } else { align }
}

pub fn round8(x: usize) -> (r: usize)
    ensures
        r == round_size(x),
        r == round_align(x),
{
    if x < 8 { 8 } else { x }
}

/// A block handed back to the allocator is accepted when it lies in the
/// heap, is aligned and can hold a free-list node.
pub open spec fn ll_accepts(heap_start: int, heap_end: int, ptr: usize, size: usize, align: usize) -> bool {
    &&& heap_start <= ptr
    &&& ptr + round_size(size) <= heap_end
    &&& ptr % round_align(align) == 0
    &&& round_size(size) >= NODE_SIZE
}

/// The heap `[heap_start, heap_end)` with its free regions and the count of
/// bytes handed out.
pub struct LinkedListAllocator {
    free: FreeList,
    used: usize,
    heap_start: usize,
    heap_end: usize,
}

impl LinkedListAllocator {
    pub closed spec fn wf(&self) -> bool {
        &&& self.free.wf()
        &&& self.free.lo() == self.heap_start
        &&& self.free.hi() == self.heap_end
    }

    /// The free regions, in address order.
    pub closed spec fn regions(&self) -> Seq<Region> {
        self.free@
    }

    /// The free regions of a well-formed allocator are sorted by address,
    /// lie inside the heap, are non-empty, and neither overlap nor touch.
    pub proof fn lemma_free_regions(&self)
        requires
            self.wf(),
        ensures
            regions_wf(self.regions(), self.heap_start(), self.heap_end()),
    {
        self.free.lemma_wf();
    }

    pub closed spec fn used(&self) -> nat {
        self.used as nat
    }

    pub closed spec fn heap_start(&self) -> int {
        self.heap_start as int
    }

    pub closed spec fn heap_end(&self) -> int {
        self.heap_end as int
    }

    /// An allocator with no heap.
    pub fn new() -> (r: Self)
        ensures
            r.wf(),
            r.regions() == Seq::<Region>::empty(),
            r.used() == 0,
            r.heap_start() == 0,
            r.heap_end() == 0,
    {
        LinkedListAllocator { free: FreeList::empty(), used: 0, heap_start: 0, heap_end: 0 }
    }

    /// Gives the allocator the heap `[heap_start, heap_start + heap_size)`,
    /// all of it free; the used count is kept.
    pub fn init(&mut self, heap_start: usize, heap_size: usize)
        requires
            heap_start + heap_size <= usize::MAX,
            heap_size >= NODE_SIZE,
        ensures
            final(self).wf(),
            final(self).regions() == seq![(heap_start, heap_size)],
            final(self).heap_start() == heap_start,
            final(self).heap_end() == heap_start + heap_size,
            final(self).used() == old(self).used(),
    {
        self.heap_start = heap_start;
        self.heap_end = heap_start + heap_size;
        self.free = FreeList::whole(heap_start, heap_size);
    }

    /// Bytes handed out and not yet returned.
    pub fn used_bytes(&self) -> (r: usize)
        ensures
            r == self.used(),
    {
        self.used
    }

    /// First fit (see `FreeList::take_first_fit`) for at least 8 bytes at an
    /// alignment of at least 8; the used count grows by the rounded size.
    pub fn allocate(&mut self, size: usize, align: usize) -> (r: Option<usize>)
        requires
            old(self).wf(),
            is_pow2(align),
            align_room(old(self).regions(), round_align(align)),
            old(self).used() + round_size(size) <= usize::MAX,
        ensures
            final(self).wf(),
            final(self).heap_start() == old(self).heap_start(),
            final(self).heap_end() == old(self).heap_end(),
            match r {
                Some(p) => exists|i: int| #[trigger] first_fit(old(self).regions(), round_size(size), round_align(align), i)
                    && p == align_up_spec(old(self).regions()[i].0, round_align(align))
                    && final(self).regions() == carve(old(self).regions(), i, p as int, round_size(size) as int)
                    && final(self).used() == old(self).used() + round_size(size),
                None => final(self).regions() == old(self).regions() && final(self).used() == old(self).used()
                    && forall|i: int| !#[trigger] first_fit(old(self).regions(), round_size(size), round_align(align), i),
            },
            r matches Some(p) ==> p & ((round_align(align) - 1) as usize) == 0 && old(self).heap_start() <= p
                && p + round_size(size) <= old(self).heap_end(),
            r matches Some(p) ==> forall|x: int| p <= x < p + round_size(size)
                ==> is_free(old(self).regions(), x) && !is_free(final(self).regions(), x),
            forall|x: int| is_free(final(self).regions(), x) ==> is_free(old(self).regions(), x),
    {
        let size = round8(size);
        let align = round8(align);
        proof {
            lemma_pow2_8();
        }
        let r = self.free.take_first_fit(size, align);
        if r.is_some() {
            self.used = self.used + size;
        }
        r
    }

    /// Returns a block: the used count drops by the rounded size (not below
    /// zero); a block outside the heap, misaligned or too small for a node
    /// is then ignored, and any other is merged into the free list.
    pub fn dealloc(&mut self, ptr: usize, size: usize, align: usize)
        requires
            old(self).wf(),
            ll_accepts(old(self).heap_start(), old(self).heap_end(), ptr, size, align)
                ==> block_ok(old(self).regions(), ptr as int, round_size(size) as int),
        ensures
            final(self).wf(),
            final(self).heap_start() == old(self).heap_start(),
            final(self).heap_end() == old(self).heap_end(),
            final(self).used() == if old(self).used() >= round_size(size) { old(self).used() - round_size(size) } else { 0 },
            ll_accepts(old(self).heap_start(), old(self).heap_end(), ptr, size, align)
                ==> final(self).regions() == insert_spec(old(self).regions(), ptr as int, round_size(size) as int),
            !ll_accepts(old(self).heap_start(), old(self).heap_end(), ptr, size, align)
                ==> final(self).regions() == old(self).regions(),
            ll_accepts(old(self).heap_start(), old(self).heap_end(), ptr, size, align) && !starts_region(old(self).regions(), ptr as int)
                ==> free_union(final(self).regions(), old(self).regions(), ptr as int, round_size(size) as int),
    {
        let size = round8(size);
        let align = round8(align);
        self.used = self.used.saturating_sub(size);
        if ptr < self.heap_start {
            return;
        }
        match ptr.checked_add(size) {
            None => {
                return;
            },
            Some(end) => {
                if end > self.heap_end {
                    return;
                }
            },
        }
        if ptr % align != 0 {
            return;
        }
        if size < NODE_SIZE {
            return;
        }
        self.free.insert(ptr, size);
    }
}

/// The per-size-class statistics of the heap, for printing.
pub fn dump_free_list(heap: &BucketAllocator) -> (r: Vec<ClassUsage>)
    requires
        heap.wf(),
        heap.counts_consistent(),
    ensures
        r@ == usage_rows(heap, 9),
{
    heap.usage()
}

} // verus!
