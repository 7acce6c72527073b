//! The kernel heap: nine size classes of fixed-size blocks (8 to 2048
//! bytes, 256 blocks each) handed out last-freed-first, and a first-fit
//! free list for everything larger or more strictly aligned.

use vstd::prelude::*;
use crate::memory::free_list::{
    FreeList, Region, NODE_SIZE, is_pow2, lemma_pow2_8, align_room, align_up_spec, first_fit, carve,
    is_free, block_ok, insert_spec, starts_region, free_union,
};
use crate::memory::allocator::{round8, round_size, round_align};

verus! {

pub const BUCKET_COUNT: usize = 9;
pub const BLOCKS_PER_BUCKET: usize = 256;

/// Block size of size class `i`: 8 << i.
pub open spec fn class_size(i: int) -> usize {
    if i == 0 { 8 }
    else if i == 1 { 16 }
    else if i == 2 { 32 }
    else if i == 3 { 64 }
    else if i == 4 { 128 }
    else if i == 5 { 256 }
    else if i == 6 { 512 }
    else if i == 7 { 1024 }
    else { 2048 }
}

/// Block size of size class `i`.
pub fn bucket_size(i: usize) -> (r: usize)
    requires
        i < BUCKET_COUNT,
    ensures
        r == class_size(i as int),
{
    match i {
        0 => 8,
        1 => 16,
        2 => 32,
        3 => 64,
        4 => 128,
        5 => 256,
        6 => 512,
        7 => 1024,
        _ => 2048,
    }
}

/// The smallest size class whose blocks hold `size` bytes.
pub open spec fn is_class_of(size: usize, i: int) -> bool {
    &&& 0 <= i < BUCKET_COUNT
    &&& size <= class_size(i)
    &&& forall|j: int| 0 <= j < i ==> size > #[trigger] class_size(j)
}

/// The size class for `size`, none above 2048 bytes.
pub open spec fn class_index_spec(size: usize) -> Option<usize> {
    if size <= class_size(0) { Some(0usize) }
    else if size <= class_size(1) { Some(1usize) }
    else if size <= class_size(2) { Some(2usize) }
    else if size <= class_size(3) { Some(3usize) }
    else if size <= class_size(4) { Some(4usize) }
    else if size <= class_size(5) { Some(5usize) }
    else if size <= class_size(6) { Some(6usize) }
    else if size <= class_size(7) { Some(7usize) }
    else if size <= class_size(8) { Some(8usize) }
    else { None }
}

/// The size class for `size`, none above 2048 bytes.
pub fn bucket_index(size: usize) -> (r: Option<usize>)
    ensures
        r == class_index_spec(size),
        match r {
            Some(i) => is_class_of(size, i as int),
            None => size > 2048 && forall|j: int| 0 <= j < BUCKET_COUNT ==> size > #[trigger] class_size(j),
        },
{
    let mut i: usize = 0;
    while i < BUCKET_COUNT
        invariant
            i <= BUCKET_COUNT,
            forall|j: int| 0 <= j < i ==> size > #[trigger] class_size(j),
        decreases BUCKET_COUNT - i,
    {
        if size <= bucket_size(i) {
            assert(forall|j: int| 0 <= j < i ==> size > #[trigger] class_size(j));
            assert(size > class_size(0) || i == 0);
            return Some(i);
        }
        i = i + 1;
    }
    assert(size > class_size(8));
    None
}

/// Bytes taken by the first `k` size classes.
pub open spec fn prefix_bytes(k: int) -> int
    decreases k,
{
    if k <= 0 { 0 } else { prefix_bytes(k - 1) + class_size(k - 1) * BLOCKS_PER_BUCKET }
}

/// How many size classes, taken in order, fit in a heap of `h` bytes,
/// counting from class `i`.
pub open spec fn classes_fitting_from(h: int, i: int) -> int
    decreases BUCKET_COUNT - i,
{
    if i >= BUCKET_COUNT {
        BUCKET_COUNT as int
    } else if h < prefix_bytes(i + 1) {
        i
    } else {
        classes_fitting_from(h, i + 1)
    }
}

pub open spec fn classes_fitting(h: int) -> int {
    classes_fitting_from(h, 0)
}

/// The blocks of a class laid out from `start`, the lowest handed out first
/// (the free stack's top is its last element).
pub open spec fn class_blocks(start: int, bs: int) -> Seq<usize> {
    Seq::new(BLOCKS_PER_BUCKET as nat, |t: int| (start + (BLOCKS_PER_BUCKET - 1 - t) * bs) as usize)
}

/// One size class: its block size, its free blocks and how many blocks it
/// was given.
pub struct Bucket {
    block_size: usize,
    free: Vec<usize>,
    total_blocks: usize,
}

/// A size class seen from outside.
pub struct BucketView {
    pub block_size: usize,
    pub free: Seq<usize>,
    pub total_blocks: usize,
}

impl Bucket {
    pub closed spec fn view(&self) -> BucketView {
        BucketView { block_size: self.block_size, free: self.free@, total_blocks: self.total_blocks }
    }

    fn empty() -> (r: Self)
        ensures
            r@ == (BucketView { block_size: 0, free: Seq::empty(), total_blocks: 0 }),
    {
        Bucket { block_size: 0, free: Vec::new(), total_blocks: 0 }
    }

    /// Carves the 256 blocks of size `bs` starting at `start`.
    fn init(&mut self, start: usize, bs: usize)
        requires
            start + bs * BLOCKS_PER_BUCKET <= usize::MAX,
            bs > 0,
        ensures
            final(self)@ == (BucketView { block_size: bs, free: class_blocks(start as int, bs as int), total_blocks: BLOCKS_PER_BUCKET }),
    {
        self.block_size = bs;
        self.total_blocks = BLOCKS_PER_BUCKET;
        let mut free: Vec<usize> = Vec::new();
        let mut t: usize = 0;
        assert((BLOCKS_PER_BUCKET - 1) * bs <= bs * BLOCKS_PER_BUCKET) by (nonlinear_arith)
            requires
                bs > 0,
        ;
        let mut off: usize = (BLOCKS_PER_BUCKET - 1) * bs;
        while t < BLOCKS_PER_BUCKET
            invariant
                t <= BLOCKS_PER_BUCKET,
                bs > 0,
                start + bs * BLOCKS_PER_BUCKET <= usize::MAX,
                t < BLOCKS_PER_BUCKET ==> off == (BLOCKS_PER_BUCKET - 1 - t) * bs,
                free@.len() == t,
                forall|u: int| 0 <= u < t ==> free@[u] == class_blocks(start as int, bs as int)[u],
            decreases BLOCKS_PER_BUCKET - t,
        {
            assert(off < bs * BLOCKS_PER_BUCKET) by (nonlinear_arith)
                requires
                    off == (BLOCKS_PER_BUCKET - 1 - t) * bs,
                    t < BLOCKS_PER_BUCKET,
                    bs > 0,
            ;
            free.push(start + off);
            if t + 1 < BLOCKS_PER_BUCKET {
                assert(off - bs == (BLOCKS_PER_BUCKET - 1 - (t + 1)) * bs) by (nonlinear_arith)
                    requires
                        off == (BLOCKS_PER_BUCKET - 1 - t) * bs,
                ;
                assert(off >= bs) by (nonlinear_arith)
                    requires
                        off == (BLOCKS_PER_BUCKET - 1 - t) * bs,
                        t + 1 < BLOCKS_PER_BUCKET,
                        bs > 0,
                ;
                off = off - bs;
            }
            t = t + 1;
        }
        assert(free@ =~= class_blocks(start as int, bs as int));
        self.free = free;
    }
}


fn set_class_size(b: &mut Bucket, bs: usize)
    ensures
        final(b)@ == (BucketView { block_size: bs, ..old(b)@ }),
{
    b.block_size = bs;
}

fn pop_block(b: &mut Bucket) -> (r: Option<usize>)
    ensures
        old(b)@.free.len() == 0 ==> r is None && final(b)@ == old(b)@,
        old(b)@.free.len() > 0 ==> r == Some(old(b)@.free.last())
            && final(b)@ == (BucketView { free: old(b)@.free.drop_last(), ..old(b)@ }),
{
    b.free.pop()
}

fn push_block(b: &mut Bucket, p: usize)
    ensures
        final(b)@ == (BucketView { free: old(b)@.free.push(p), ..old(b)@ }),
{
    b.free.push(p);
}

fn init_class(b: &mut Bucket, start: usize, bs: usize)
    requires
        start + bs * BLOCKS_PER_BUCKET <= usize::MAX,
        bs > 0,
    ensures
        final(b)@ == (BucketView { block_size: bs, free: class_blocks(start as int, bs as int), total_blocks: BLOCKS_PER_BUCKET }),
{
    b.init(start, bs);
}

/// Blocks in use in one size class, for the statistics dump.
#[derive(Clone, Copy, Debug, PartialEq, Eq, Structural)]
pub struct ClassUsage {
    pub block_size: usize,
    pub used: usize,
    pub total: usize,
}

/// The heap: nine size classes and a free list for large blocks, with the
/// count of bytes handed out.
pub struct BucketAllocator {
    buckets: Vec<Bucket>,
    large: FreeList,
    used: usize,
    heap_start: usize,
    heap_end: usize,
}

/// A request of `size` bytes at alignment `align` is served from its size
/// class: there is one, its blocks are at least as large as the alignment,
/// and it has a free block.
pub open spec fn from_class(h: &BucketAllocator, size: usize, align: usize) -> bool {
    &&& class_index_spec(round_size(size)) is Some
    &&& h.class(class_index_spec(round_size(size))->0 as int).block_size >= round_align(align)
    &&& h.class(class_index_spec(round_size(size))->0 as int).free.len() > 0
}

/// The usage rows of the first `n` size classes (those given blocks).
pub open spec fn usage_rows(h: &BucketAllocator, n: int) -> Seq<ClassUsage>
    decreases n,
{
    if n <= 0 {
        Seq::empty()
    } else if h.class(n - 1).total_blocks > 0 {
        usage_rows(h, n - 1).push(ClassUsage {
            block_size: h.class(n - 1).block_size,
            used: (h.class(n - 1).total_blocks - h.class(n - 1).free.len()) as usize,
            total: h.class(n - 1).total_blocks,
        })
    } else {
        usage_rows(h, n - 1)
    }
}

/// A large block handed back lies in the heap.
pub open spec fn large_accepts(h: &BucketAllocator, ptr: usize, size: usize) -> bool {
    h.heap_start() <= ptr && ptr + round_size(size) <= h.heap_end()
}

impl BucketAllocator {
    pub closed spec fn wf(&self) -> bool {
        &&& self.buckets@.len() == BUCKET_COUNT
        &&& self.large.wf()
        &&& self.large.lo() == self.heap_start
        &&& self.large.hi() == self.heap_end
        &&& forall|i: int| 0 <= i < BUCKET_COUNT ==> (#[trigger] self.buckets@[i]).block_size == 0
            || self.buckets@[i].block_size == class_size(i)
    }

    /// Size class `i`.
    pub closed spec fn class(&self, i: int) -> BucketView {
        self.buckets@[i]@
    }

    /// The free regions of the large-block list.
    pub closed spec fn large_regions(&self) -> Seq<Region> {
        self.large@
    }

    pub closed spec fn used(&self) -> nat {
        self.used as nat
    }

    pub closed spec fn heap_start(&self) -> int {
        self.heap_start as int
    }

    pub closed spec fn heap_end(&self) -> int {
        self.heap_end as int
    }

    /// An allocator with no heap: every class empty with block size 0.
    pub fn new() -> (r: Self)
        ensures
            r.wf(),
            forall|i: int| 0 <= i < BUCKET_COUNT ==> #[trigger] r.class(i) == (BucketView { block_size: 0, free: Seq::empty(), total_blocks: 0 }),
            r.large_regions() == Seq::<Region>::empty(),
            r.used() == 0,
            r.heap_start() == 0,
            r.heap_end() == 0,
    {
        let mut buckets: Vec<Bucket> = Vec::new();
        let mut i: usize = 0;
        while i < BUCKET_COUNT
            invariant
                i <= BUCKET_COUNT,
                buckets@.len() == i,
                forall|j: int| 0 <= j < i ==> (#[trigger] buckets@[j])@ == (BucketView { block_size: 0, free: Seq::empty(), total_blocks: 0 }),
            decreases BUCKET_COUNT - i,
        {
            buckets.push(Bucket::empty());
            i = i + 1;
        }
        BucketAllocator { buckets, large: FreeList::empty(), used: 0, heap_start: 0, heap_end: 0 }
    }

    /// Lays the size classes out from `heap_start`, smallest first, 256
    /// blocks each, until the next class no longer fits (that class gets
    /// its block size but no blocks); the rest becomes one large free region
    /// if it is longer than a node.
    pub fn init(&mut self, heap_start: usize, heap_size: usize)
        requires
            old(self).wf(),
            old(self).large_regions().len() == 0,
            heap_start + heap_size <= usize::MAX,
        ensures
            final(self).wf(),
            final(self).heap_start() == heap_start,
            final(self).heap_end() == heap_start + heap_size,
            final(self).used() == old(self).used(),
            forall|i: int| 0 <= i < classes_fitting(heap_size as int) ==> #[trigger] final(self).class(i) == (BucketView {
                block_size: class_size(i),
                free: class_blocks(heap_start + prefix_bytes(i), class_size(i) as int),
                total_blocks: BLOCKS_PER_BUCKET,
            }),
            classes_fitting(heap_size as int) < BUCKET_COUNT ==> final(self).class(classes_fitting(heap_size as int))
                == (BucketView { block_size: class_size(classes_fitting(heap_size as int)), ..old(self).class(classes_fitting(heap_size as int)) }),
            forall|i: int| classes_fitting(heap_size as int) < i < BUCKET_COUNT ==> #[trigger] final(self).class(i) == old(self).class(i),
            heap_size - prefix_bytes(classes_fitting(heap_size as int)) > NODE_SIZE ==> final(self).large_regions() == seq![(
                (heap_start + prefix_bytes(classes_fitting(heap_size as int))) as usize,
                (heap_size - prefix_bytes(classes_fitting(heap_size as int))) as usize,
            )],
            heap_size - prefix_bytes(classes_fitting(heap_size as int)) <= NODE_SIZE ==> final(self).large_regions() == Seq::<Region>::empty(),
    {
        let ghost h = heap_size as int;
        let mut current: usize = heap_start;
        let mut remaining: usize = heap_size;
        let mut i: usize = 0;
        let mut done = false;
        while i < BUCKET_COUNT && !done
            invariant
                self.buckets@.len() == BUCKET_COUNT,
                self.large == old(self).large,
                self.used == old(self).used,
                old(self).wf(),
                heap_start + heap_size <= usize::MAX,
                h == heap_size,
                i <= BUCKET_COUNT,
                0 <= prefix_bytes(i as int) <= h,
                current == heap_start + prefix_bytes(i as int),
                remaining == h - prefix_bytes(i as int),
                !done ==> classes_fitting(h) == classes_fitting_from(h, i as int),
                done ==> i < BUCKET_COUNT && classes_fitting(h) == i,
                done ==> self.buckets@[i as int]@ == (BucketView { block_size: class_size(i as int), ..old(self).class(i as int) }),
                forall|j: int| 0 <= j < i ==> (#[trigger] self.buckets@[j])@ == (BucketView {
                    block_size: class_size(j),
                    free: class_blocks(heap_start + prefix_bytes(j), class_size(j) as int),
                    total_blocks: BLOCKS_PER_BUCKET,
                }),
                forall|j: int| i < j < BUCKET_COUNT ==> (#[trigger] self.buckets@[j])@ == old(self).class(j),
                !done && i < BUCKET_COUNT ==> self.buckets@[i as int]@ == old(self).class(i as int),
            decreases BUCKET_COUNT - i + (if done { 0int } else { 1int }),
        {
            let bs = bucket_size(i);
            set_class_size(&mut self.buckets[i], bs);
            let class_bytes = bs * BLOCKS_PER_BUCKET;
            if remaining < class_bytes {
                done = true;
            } else {
                init_class(&mut self.buckets[i], current, bs);
                current = current + class_bytes;
                remaining = remaining - class_bytes;
                i = i + 1;
            }
        }
        self.heap_start = heap_start;
        self.heap_end = heap_start + heap_size;
        self.large = FreeList::with_tail(heap_start, heap_size, current);
        assert forall|j: int| 0 <= j < BUCKET_COUNT implies (#[trigger] self.buckets@[j]).block_size == 0
            || self.buckets@[j].block_size == class_size(j) by {
            if j > i || (j == i && !done) {
                assert(old(self).buckets@[j].block_size == 0 || old(self).buckets@[j].block_size == class_size(j));
            }
        }
    }

    /// Bytes handed out and not yet returned.
    pub fn used_bytes(&self) -> (r: usize)
        ensures
            r == self.used(),
    {
        self.used
    }

    /// Serves a request of at least 8 bytes at an alignment of at least 8:
    /// from its size class when it has one whose blocks are at least as
    /// large as the alignment and a block is free (the most recently freed
    /// one; the used count grows by the block size), otherwise first fit in
    /// the large list (the used count grows by the rounded size).
    pub fn allocate(&mut self, size: usize, align: usize) -> (r: Option<usize>)
        requires
            old(self).wf(),
            is_pow2(align),
            align_room(old(self).large_regions(), round_align(align)),
            old(self).used() + 2048 <= usize::MAX,
            old(self).used() + round_size(size) <= usize::MAX,
        ensures
            final(self).wf(),
            final(self).heap_start() == old(self).heap_start(),
            final(self).heap_end() == old(self).heap_end(),
            from_class(old(self), size, align) ==> {
                let c = class_index_spec(round_size(size))->0 as int;
                &&& r == Some(old(self).class(c).free.last())
                &&& final(self).class(c) == (BucketView { free: old(self).class(c).free.drop_last(), ..old(self).class(c) })
                &&& forall|j: int| 0 <= j < BUCKET_COUNT && j != c ==> #[trigger] final(self).class(j) == old(self).class(j)
                &&& final(self).large_regions() == old(self).large_regions()
                &&& final(self).used() == old(self).used() + old(self).class(c).block_size
            },
            !from_class(old(self), size, align) ==> {
                &&& forall|j: int| 0 <= j < BUCKET_COUNT ==> #[trigger] final(self).class(j) == old(self).class(j)
                &&& match r {
                    Some(p) => exists|i: int| #[trigger] first_fit(old(self).large_regions(), round_size(size), round_align(align), i)
                        && p == align_up_spec(old(self).large_regions()[i].0, round_align(align))
                        && final(self).large_regions() == carve(old(self).large_regions(), i, p as int, round_size(size) as int)
                        && final(self).used() == old(self).used() + round_size(size)
                        && p & ((round_align(align) - 1) as usize) == 0
                        && old(self).heap_start() <= p && p + round_size(size) <= old(self).heap_end()
                        && forall|x: int| p <= x < p + round_size(size)
                            ==> is_free(old(self).large_regions(), x) && !is_free(final(self).large_regions(), x),
                    None => final(self).large_regions() == old(self).large_regions() && final(self).used() == old(self).used()
                        && forall|i: int| !#[trigger] first_fit(old(self).large_regions(), round_size(size), round_align(align), i),
                }
            },
    {
        let size = round8(size);
        let align = round8(align);
        proof {
            lemma_pow2_8();
        }
        if let Some(idx) = bucket_index(size) {
            let bs = self.buckets[idx].block_size;
            if bs >= align {
                assert(self.buckets@[idx as int].block_size == 0 || self.buckets@[idx as int].block_size == class_size(idx as int));
                let got = pop_block(&mut self.buckets[idx]);
                if let Some(p) = got {
                    self.used = self.used + bs;
                    return Some(p);
                }
            }
        }
        let r = self.large.take_first_fit(size, align);
        if r.is_some() {
            self.used = self.used + size;
        }
        r
    }

    /// Returns a block. A size of up to 2048 bytes goes back to the top of
    /// its size class's free stack, unchecked, and the used count drops by
    /// that class's block size; a larger block outside the heap is ignored,
    /// any other drops the used count by its size and is merged into the
    /// large list. Counts never drop below zero.
    pub fn dealloc(&mut self, ptr: usize, size: usize, align: usize)
        requires
            old(self).wf(),
            class_index_spec(round_size(size)) is None && large_accepts(old(self), ptr, size)
                ==> block_ok(old(self).large_regions(), ptr as int, round_size(size) as int),
        ensures
            final(self).wf(),
            final(self).heap_start() == old(self).heap_start(),
            final(self).heap_end() == old(self).heap_end(),
            class_index_spec(round_size(size)) matches Some(c) ==> {
                &&& final(self).class(c as int) == (BucketView { free: old(self).class(c as int).free.push(ptr), ..old(self).class(c as int) })
                &&& forall|j: int| 0 <= j < BUCKET_COUNT && j != c ==> #[trigger] final(self).class(j) == old(self).class(j)
                &&& final(self).large_regions() == old(self).large_regions()
                &&& final(self).used() == if old(self).used() >= old(self).class(c as int).block_size {
                    old(self).used() - old(self).class(c as int).block_size
                } else {
                    0
                }
            },
            class_index_spec(round_size(size)) is None ==> {
                &&& forall|j: int| 0 <= j < BUCKET_COUNT ==> #[trigger] final(self).class(j) == old(self).class(j)
                &&& !large_accepts(old(self), ptr, size) ==> final(self).large_regions() == old(self).large_regions()
                    && final(self).used() == old(self).used()
                &&& large_accepts(old(self), ptr, size) ==> final(self).large_regions()
                    == insert_spec(old(self).large_regions(), ptr as int, round_size(size) as int)
                    && final(self).used() == if old(self).used() >= round_size(size) { old(self).used() - round_size(size) } else { 0 }
                &&& large_accepts(old(self), ptr, size) && !starts_region(old(self).large_regions(), ptr as int)
                    ==> free_union(final(self).large_regions(), old(self).large_regions(), ptr as int, round_size(size) as int)
            },
    {
        let _ = align;
        let size = round8(size);
        if let Some(idx) = bucket_index(size) {
            let bs = self.buckets[idx].block_size;
            self.used = self.used.saturating_sub(bs);
            push_block(&mut self.buckets[idx], ptr);
            return;
        }
        if ptr < self.heap_start {
            return;
        }
        match ptr.checked_add(size) {
            None => {
                return;
            },
            Some(end) => {
                if end > self.heap_end {
                    return;
                }
            },
        }
        self.used = self.used.saturating_sub(size);
        self.large.insert(ptr, size);
    }

    /// For every size class that was given blocks, in class order: its block
    /// size, blocks in use and blocks in all.
    pub fn usage(&self) -> (r: Vec<ClassUsage>)
        requires
            self.wf(),
            self.counts_consistent(),
        ensures
            r@ == usage_rows(self, BUCKET_COUNT as int),
    {
        let mut rows: Vec<ClassUsage> = Vec::new();
        let mut i: usize = 0;
        while i < BUCKET_COUNT
            invariant
                self.wf(),
                self.counts_consistent(),
                i <= BUCKET_COUNT,
                rows@ == usage_rows(self, i as int),
            decreases BUCKET_COUNT - i,
        {
            let b = &self.buckets[i];
            assert(b.free@.len() <= b.total_blocks);
            if b.total_blocks > 0 {
                rows.push(ClassUsage { block_size: b.block_size, used: b.total_blocks - b.free.len(), total: b.total_blocks });
            }
            i = i + 1;
        }
        rows
    }

    /// No size class has more free blocks than it was given.
    pub closed spec fn counts_consistent(&self) -> bool {
        forall|i: int| 0 <= i < BUCKET_COUNT ==> (#[trigger] self.buckets@[i]).free@.len() <= self.buckets@[i].total_blocks
    }

    /// Whether `counts_consistent` holds.
    pub fn check_counts(&self) -> (r: bool)
        requires
            self.wf(),
        ensures
            r == self.counts_consistent(),
    {
        let mut i: usize = 0;
        while i < BUCKET_COUNT
            invariant
                self.wf(),
                i <= BUCKET_COUNT,
                forall|j: int| 0 <= j < i ==> (#[trigger] self.buckets@[j]).free@.len() <= self.buckets@[j].total_blocks,
            decreases BUCKET_COUNT - i,
        {
            if self.buckets[i].free.len() > self.buckets[i].total_blocks {
                return false;
            }
            i = i + 1;
        }
        true
    }
}

/// A block freed to its size class is the next one that class hands out
/// (as `dealloc` then `allocate` change the class), and handing it out
/// leaves the class as it was.
pub proof fn class_free_then_take(v: BucketView, ptr: usize)
    ensures
        (BucketView { free: v.free.push(ptr), ..v }).free.last() == ptr,
        (BucketView { free: (BucketView { free: v.free.push(ptr), ..v }).free.drop_last(), ..v }) == v,
{
    assert(v.free.push(ptr).drop_last() =~= v.free);
}

/// Allocating from a size class and freeing the block again restores the
/// class and the count of bytes in use (as `allocate` then `dealloc`
/// change them); calls on other classes leave the class alone meanwhile.
pub proof fn class_take_then_free(v: BucketView, used: nat)
    requires
        v.free.len() > 0,
    ensures
        ({
            let p = v.free.last();
            let taken = BucketView { free: v.free.drop_last(), ..v };
            let back = BucketView { free: taken.free.push(p), ..taken };
            let used1 = used + v.block_size;
            &&& back == v
            &&& (if used1 >= taken.block_size { (used1 - taken.block_size) as nat } else { 0nat }) == used
        }),
{
    assert(v.free.drop_last().push(v.free.last()) =~= v.free);
}

} // verus!
