//! Physical frame allocator: one bit per 4 KiB frame between 4 MiB and
//! 1 GiB, set when the frame is free.

use vstd::prelude::*;

verus! {

pub const PHYS_BASE: usize = 0x0040_0000;
pub const PHYS_END: usize = 0x4000_0000;
pub const PAGE_SIZE: usize = 4096;
pub const FRAME_COUNT: usize = 261120;
pub const BITMAP_WORDS: usize = 4080;

pub open spec fn bit_of(w: u64, b: u64) -> bool {
    (w >> b) & 1u64 == 1u64
}

proof fn lemma_bit_set(w: u64, b: u64, c: u64)
    requires
        b < 64,
        c < 64,
    ensures
        bit_of(w | (1u64 << b), c) == (c == b || bit_of(w, c)),
        bit_of(w & !(1u64 << b), c) == (c != b && bit_of(w, c)),
{
    assert(bit_of(w | (1u64 << b), c) == (c == b || bit_of(w, c))) by (bit_vector)
        requires
            b < 64,
            c < 64,
    ;
    assert(bit_of(w & !(1u64 << b), c) == (c != b && bit_of(w, c))) by (bit_vector)
        requires
            b < 64,
            c < 64,
    ;
}

proof fn lemma_bit_ones(c: u64)
    requires
        c < 64,
    ensures
        bit_of(0xFFFF_FFFF_FFFF_FFFFu64, c),
{
    assert(bit_of(0xFFFF_FFFF_FFFF_FFFFu64, c)) by (bit_vector)
        requires
            c < 64,
    ;
}

/// The frame bitmap.
pub struct FrameAllocator {
    bitmap: Vec<u64>,
    initialized: bool,
}

/// Frame `i` of the range starts at this address.
pub open spec fn frame_addr(i: int) -> int {
    PHYS_BASE + i * PAGE_SIZE
}

/// The frame containing `phys`, if it is in the managed range.
pub open spec fn page_index_spec(phys: usize) -> Option<usize> {
    if phys < PHYS_BASE || phys >= PHYS_END { None } else { Some(((phys - PHYS_BASE) / (PAGE_SIZE as int)) as usize) }
}

/// Number of free frames among the first `n`.
pub open spec fn count_free(f: Seq<bool>, n: nat) -> nat
    decreases n,
{
    if n == 0 { 0 } else { count_free(f, (n - 1) as nat) + if f[n - 1] { 1nat } else { 0nat } }
}

pub proof fn lemma_count_free_bound(f: Seq<bool>, n: nat)
    ensures
        count_free(f, n) <= n,
    decreases n,
{
    if n > 0 {
        lemma_count_free_bound(f, (n - 1) as nat);
    }
}

/// Taking a free frame lowers the free count by exactly one, for any count
/// that includes it.
pub proof fn lemma_count_free_take(f: Seq<bool>, i: int, n: nat)
    requires
        0 <= i < f.len(),
        f[i],
        i < n <= f.len(),
    ensures
        count_free(f.update(i, false), n) + 1 == count_free(f, n),
    decreases n,
{
    let g = f.update(i, false);
    if n - 1 == i {
        lemma_count_free_same(f, g, i as nat);
    } else {
        lemma_count_free_take(f, i, (n - 1) as nat);
    }
}

proof fn lemma_count_free_same(f: Seq<bool>, g: Seq<bool>, n: nat)
    requires
        n <= f.len(),
        n <= g.len(),
        forall|j: int| 0 <= j < n ==> f[j] == g[j],
    ensures
        count_free(f, n) == count_free(g, n),
    decreases n,
{
    if n > 0 {
        lemma_count_free_same(f, g, (n - 1) as nat);
    }
}

/// The first free frame, if any.
pub open spec fn first_free(f: Seq<bool>, i: int) -> bool {
    &&& 0 <= i < f.len()
    &&& f[i]
    &&& forall|j: int| 0 <= j < i ==> !f[j]
}

impl FrameAllocator {
    pub closed spec fn wf(&self) -> bool {
        self.bitmap@.len() == BITMAP_WORDS
    }

    /// Free flag of every frame.
    pub closed spec fn view(&self) -> Seq<bool> {
        Seq::new(FRAME_COUNT as nat, |i: int| bit_of(self.bitmap@[i / 64], (i % 64) as u64))
    }

    pub closed spec fn words(&self) -> Seq<u64> {
        self.bitmap@
    }

    pub closed spec fn is_init(&self) -> bool {
        self.initialized
    }

    /// The map has one flag per managed frame.
    pub proof fn lemma_frames(&self)
        ensures
            self@.len() == FRAME_COUNT,
    {
    }

    /// A bitmap with every frame in use, not yet initialised.
    pub fn new() -> (r: Self)
        ensures
            r.wf(),
            !r.is_init(),
            r@ == Seq::new(FRAME_COUNT as nat, |i: int| false),
    {
        let mut bitmap: Vec<u64> = Vec::new();
        let mut i: usize = 0;
        while i < BITMAP_WORDS
            invariant
                i <= BITMAP_WORDS,
                bitmap@.len() == i,
                forall|k: int| 0 <= k < i ==> bitmap@[k] == 0,
            decreases BITMAP_WORDS - i,
        {
            bitmap.push(0);
            i = i + 1;
        }
        let r = FrameAllocator { bitmap, initialized: false };
        assert forall|k: int| 0 <= k < FRAME_COUNT implies !#[trigger] r@[k] by {
            let w: u64 = 0;
            let b: u64 = (k % 64) as u64;
            assert(bitmap@[k / 64] == 0);
            assert(!bit_of(w, b)) by (bit_vector)
                requires
                    w == 0;
        }
        assert(r@ =~= Seq::new(FRAME_COUNT as nat, |i: int| false));
        r
    }
}

/// The frame index of `phys`, if in the managed range.
pub fn page_index(phys: usize) -> (r: Option<usize>)
    ensures
        r == page_index_spec(phys),
        r matches Some(i) ==> i < FRAME_COUNT,
{
    if phys < PHYS_BASE || phys >= PHYS_END {
        return None;
    }
    Some((phys - PHYS_BASE) / PAGE_SIZE)
}

/// Marks frame `idx` free or used; indices past the range are ignored.
pub fn set_bit(fa: &mut FrameAllocator, idx: usize, free: bool)
    requires
        old(fa).wf(),
    ensures
        final(fa).wf(),
        final(fa).is_init() == old(fa).is_init(),
        idx < FRAME_COUNT ==> final(fa)@ == old(fa)@.update(idx as int, free),
        idx >= FRAME_COUNT ==> final(fa)@ == old(fa)@,
{
    if idx >= FRAME_COUNT {
        return;
    }
    let word = idx / 64;
    let bit = (idx % 64) as u64;
    let w = fa.bitmap[word];
    let nw = if free { w | (1u64 << bit) } else { w & !(1u64 << bit) };
    fa.bitmap.set(word, nw);
    proof {
        assert forall|i: int| 0 <= i < FRAME_COUNT implies #[trigger] fa@[i] == old(fa)@.update(idx as int, free)[i] by {
            lemma_bit_set(w, bit, (i % 64) as u64);
            if i / 64 != word as int {
                assert(fa.bitmap@[i / 64] == old(fa).bitmap@[i / 64]);
            }
        }
        assert(fa@ =~= old(fa)@.update(idx as int, free));
    }
}

/// Whether frame `idx` is free; false past the range.
pub fn test_bit(fa: &FrameAllocator, idx: usize) -> (r: bool)
    requires
        fa.wf(),
    ensures
        r == (idx < FRAME_COUNT && fa@[idx as int]),
{
    if idx >= FRAME_COUNT {
        return false;
    }
    let word = idx / 64;
    let bit = (idx % 64) as u64;
    (fa.bitmap[word] >> bit) & 1u64 == 1u64
}

/// Frees every frame; the kernel image below `PHYS_BASE` is outside the
/// managed range, so marking it used changes nothing.
pub fn init(fa: &mut FrameAllocator)
    requires
        old(fa).wf(),
    ensures
        final(fa).wf(),
        final(fa).is_init(),
        final(fa)@ == Seq::new(FRAME_COUNT as nat, |i: int| true),
{
    let mut w: usize = 0;
    while w < BITMAP_WORDS
        invariant
            w <= BITMAP_WORDS,
            fa.bitmap@.len() == BITMAP_WORDS,
            forall|k: int| 0 <= k < w ==> fa.bitmap@[k] == 0xFFFF_FFFF_FFFF_FFFFu64,
        decreases BITMAP_WORDS - w,
    {
        fa.bitmap.set(w, 0xFFFF_FFFF_FFFF_FFFFu64);
        w = w + 1;
    }
    let mut addr: usize = 0x0010_0000;
    while addr < PHYS_BASE
        invariant
            fa.wf(),
            addr <= PHYS_BASE,
            addr % 4096 == 0,
            forall|k: int| 0 <= k < BITMAP_WORDS ==> fa.bitmap@[k] == 0xFFFF_FFFF_FFFF_FFFFu64,
        decreases PHYS_BASE - addr,
    {
        mark_used(fa, addr);
        addr = addr + PAGE_SIZE;
    }
    fa.initialized = true;
    proof {
        assert forall|i: int| 0 <= i < FRAME_COUNT implies #[trigger] fa@[i] == true by {
            lemma_bit_ones((i % 64) as u64);
        }
        assert(fa@ =~= Seq::new(FRAME_COUNT as nat, |i: int| true));
    }
}

/// Marks the frame containing `phys` used (if in range).
pub fn mark_used(fa: &mut FrameAllocator, phys: usize)
    requires
        old(fa).wf(),
    ensures
        final(fa).wf(),
        final(fa).is_init() == old(fa).is_init(),
        final(fa)@ == match page_index_spec(phys) {
            Some(i) => old(fa)@.update(i as int, false),
            None => old(fa)@,
        },
        page_index_spec(phys) is None ==> final(fa).words() == old(fa).words(),
{
    if let Some(idx) = page_index(phys) {
        set_bit(fa, idx, false);
    }
}

/// Marks the frame containing `phys` free (if in range).
pub fn mark_free(fa: &mut FrameAllocator, phys: usize)
    requires
        old(fa).wf(),
    ensures
        final(fa).wf(),
        final(fa).is_init() == old(fa).is_init(),
        final(fa)@ == match page_index_spec(phys) {
            Some(i) => old(fa)@.update(i as int, true),
            None => old(fa)@,
        },
{
    if let Some(idx) = page_index(phys) {
        set_bit(fa, idx, true);
    }
}

/// Takes the lowest free frame and returns its address; 0 when none is
/// free or the allocator is not initialised.
pub fn alloc_frame(fa: &mut FrameAllocator) -> (r: usize)
    requires
        old(fa).wf(),
    ensures
        final(fa).wf(),
        final(fa).is_init() == old(fa).is_init(),
        !old(fa).is_init() ==> r == 0 && final(fa)@ == old(fa)@,
        old(fa).is_init() && (forall|j: int| 0 <= j < FRAME_COUNT ==> !old(fa)@[j]) ==> r == 0 && final(fa)@ == old(fa)@,
        final(fa)@.len() == FRAME_COUNT,
        r != 0 ==> exists|i: int| first_free(old(fa)@, i) && r == frame_addr(i)
            && final(fa)@ == old(fa)@.update(i, false),
        r != 0 ==> count_free(final(fa)@, FRAME_COUNT as nat) + 1 == count_free(old(fa)@, FRAME_COUNT as nat),
        old(fa).is_init() && (exists|j: int| 0 <= j < FRAME_COUNT && old(fa)@[j]) ==> r != 0,
{
    if !fa.initialized {
        return 0;
    }
    let mut i: usize = 0;
    while i < FRAME_COUNT
        invariant
            fa.wf(),
            fa@ == old(fa)@,
            fa.is_init() == old(fa).is_init(),
            old(fa).is_init(),
            i <= FRAME_COUNT,
            forall|j: int| 0 <= j < i ==> !old(fa)@[j],
        decreases FRAME_COUNT - i,
    {
        if test_bit(fa, i) {
            set_bit(fa, i, false);
            let r = PHYS_BASE + i * PAGE_SIZE;
            assert(first_free(old(fa)@, i as int) && r == frame_addr(i as int) && fa@ == old(fa)@.update(i as int, false));
            proof { lemma_count_free_take(old(fa)@, i as int, FRAME_COUNT as nat); }
            return r;
        }
        i = i + 1;
    }
    0
}

/// Returns the frame at `phys` to the free pool; unaligned or out-of-range
/// addresses are ignored.
pub fn free_frame(fa: &mut FrameAllocator, phys: usize)
    requires
        old(fa).wf(),
    ensures
        final(fa).wf(),
        final(fa).is_init() == old(fa).is_init(),
        final(fa)@ == if phys % PAGE_SIZE != 0 { old(fa)@ } else {
            match page_index_spec(phys) {
                Some(i) => old(fa)@.update(i as int, true),
                None => old(fa)@,
            }
        },
{
    if phys % PAGE_SIZE != 0 {
        return;
    }
    if let Some(idx) = page_index(phys) {
        set_bit(fa, idx, true);
    }
}

/// Total, free and used frame counts.
pub fn stats(fa: &FrameAllocator) -> (r: (usize, usize, usize))
    requires
        fa.wf(),
    ensures
        r.0 == FRAME_COUNT,
        r.1 == count_free(fa@, FRAME_COUNT as nat),
        r.1 + r.2 == FRAME_COUNT,
{
    let mut free: usize = 0;
    let mut i: usize = 0;
    while i < FRAME_COUNT
        invariant
            fa.wf(),
            i <= FRAME_COUNT,
            free == count_free(fa@, i as nat),
            free <= i,
        decreases FRAME_COUNT - i,
    {
        if test_bit(fa, i) {
            free = free + 1;
        }
        i = i + 1;
    }
    (FRAME_COUNT, free, FRAME_COUNT - free)
}

/// Paging is set up before the kernel starts (identity-mapped 2 MiB
/// pages); enabling it again does nothing.
pub fn enable() {
}

/// Allocating a frame and freeing it again restores the free map.
pub proof fn alloc_then_free_restores(f: Seq<bool>, i: int)
    requires
        first_free(f, i),
    ensures
        f.update(i, false).update(i, true) == f,
{
    assert(f.update(i, false).update(i, true) =~= f);
}

/// The address of frame `i` maps back to frame `i`.
pub proof fn frame_addr_roundtrip(i: int)
    requires
        0 <= i < FRAME_COUNT,
    ensures
        page_index_spec(frame_addr(i) as usize) == Some(i as usize),
        (frame_addr(i) as usize) % PAGE_SIZE == 0,
{
}

} // verus!
