//! An address-ordered list of free heap regions with first-fit carving and
//! coalescing insertion, shared by the heap allocators.

use vstd::prelude::*;

verus! {

/// Bytes a free-list node occupies at the start of a free region; smaller
/// leftovers cannot hold one and are dropped.
pub const NODE_SIZE: usize = 16;

/// A free region: start address and length in bytes.
pub type Region = (usize, usize);

pub open spec fn region_end(r: Region) -> int {
    r.0 + r.1
}

/// Sorted by address, each region inside `[lo, hi)` and non-empty, and no
/// two regions overlapping or touching (touching ones are always merged).
pub open spec fn regions_wf(s: Seq<Region>, lo: int, hi: int) -> bool {
    &&& forall|i: int| 0 <= i < s.len() ==> lo <= (#[trigger] s[i]).0 && s[i].1 > 0 && region_end(s[i]) <= hi
    &&& forall|i: int, j: int| 0 <= i < j < s.len() ==> region_end(#[trigger] s[i]) < (#[trigger] s[j]).0
}

/// Byte `x` lies in a free region.
pub open spec fn is_free(s: Seq<Region>, x: int) -> bool {
    exists|i: int| 0 <= i < s.len() && (#[trigger] s[i]).0 <= x < region_end(s[i])
}

/// `a` is a power of two.
pub open spec fn is_pow2(a: usize) -> bool {
    a != 0 && a & ((a - 1) as usize) == 0
}

pub proof fn lemma_pow2_8()
    ensures
        is_pow2(8),
{
    assert(8usize & 7usize == 0) by (bit_vector);
}

/// `x` rounded up to a multiple of `a` (a power of two).
pub open spec fn align_up_spec(x: usize, a: usize) -> usize {
    ((x + a - 1) as usize) & !((a - 1) as usize)
}

proof fn lemma_align_up(x: usize, a: usize)
    requires
        is_pow2(a),
        x + a - 1 <= usize::MAX,
    ensures
        x <= align_up_spec(x, a),
        align_up_spec(x, a) < x + a,
        align_up_spec(x, a) & ((a - 1) as usize) == 0,
{
    assert(x <= align_up_spec(x, a)) by (bit_vector)
        requires
            a != 0,
            a & ((a - 1) as usize) == 0,
            (x + a - 1) as usize == x + a - 1,
    ;
    assert(align_up_spec(x, a) < x + a) by (bit_vector)
        requires
            a != 0,
            (x + a - 1) as usize == x + a - 1,
    ;
    assert(align_up_spec(x, a) & ((a - 1) as usize) == 0) by (bit_vector);
}

/// Rounds `x` up to a multiple of the power of two `a`.
pub fn align_up(x: usize, a: usize) -> (r: usize)
    requires
        is_pow2(a),
        x + a - 1 <= usize::MAX,
    ensures
        r == align_up_spec(x, a),
        x <= r < x + a,
        r & ((a - 1) as usize) == 0,
{
    proof {
        lemma_align_up(x, a);
    }
    (x + (a - 1)) & !(a - 1)
}

/// Carving `size` bytes at the aligned start of `r` would run past the end
/// of the address space.
pub open spec fn fit_overflows(r: Region, size: usize, a: usize) -> bool {
    align_up_spec(r.0, a) + size > usize::MAX
}

/// `size` bytes fit in `r` from its first address aligned to `a`.
pub open spec fn fits(r: Region, size: usize, a: usize) -> bool {
    align_up_spec(r.0, a) + size <= region_end(r)
}

/// Region `i` is where a first-fit search succeeds: it fits, and every
/// earlier region neither fits nor overflows (an overflow ends the search).
pub open spec fn first_fit(s: Seq<Region>, size: usize, a: usize, i: int) -> bool {
    &&& 0 <= i < s.len()
    &&& fits(s[i], size, a)
    &&& forall|j: int| 0 <= j < i ==> !fit_overflows(#[trigger] s[j], size, a) && !fits(s[j], size, a)
}

/// Rounding any region start up to `a` stays in the address space.
pub open spec fn align_room(s: Seq<Region>, a: usize) -> bool {
    forall|i: int| 0 <= i < s.len() ==> (#[trigger] s[i]).0 + a - 1 <= usize::MAX
}

/// The list after `size` bytes at `p` are taken from region `i`: what
/// remains before `p` stays (unless the tail is too small for a node, in
/// which case the whole region goes), and a tail of at least a node's size
/// becomes a region of its own.
pub open spec fn carve(s: Seq<Region>, i: int, p: int, size: int) -> Seq<Region> {
    let r = s[i];
    let end = p + size;
    let excess = region_end(r) - end;
    if excess >= NODE_SIZE {
        if p == r.0 {
            s.update(i, (end as usize, excess as usize))
        } else {
            s.update(i, (r.0, (p - r.0) as usize)).insert(i + 1, (end as usize, excess as usize))
        }
    } else {
        s.remove(i)
    }
}

proof fn lemma_carve(s: Seq<Region>, lo: int, hi: int, i: int, p: int, size: int)
    requires
        regions_wf(s, lo, hi),
        0 <= i < s.len(),
        s[i].0 <= p,
        size > 0,
        p + size <= region_end(s[i]),
        hi <= usize::MAX,
    ensures
        regions_wf(carve(s, i, p, size), lo, hi),
        forall|x: int| is_free(carve(s, i, p, size), x) ==> is_free(s, x),
        forall|x: int| p <= x < p + size ==> is_free(s, x) && !is_free(carve(s, i, p, size), x),
{
    let c = carve(s, i, p, size);
    assert forall|x: int| is_free(c, x) implies is_free(s, x) by {
        let k = choose|k: int| 0 <= k < c.len() && (#[trigger] c[k]).0 <= x < region_end(c[k]);
        if region_end(s[i]) - (p + size) >= NODE_SIZE && p != s[i].0 {
            if k <= i {
                assert(s[k].0 <= x < region_end(s[k]));
            } else if k == i + 1 {
                assert(s[i].0 <= x < region_end(s[i]));
            } else {
                assert(s[k - 1].0 <= x < region_end(s[k - 1]));
            }
        } else if region_end(s[i]) - (p + size) >= NODE_SIZE {
            assert(s[k].0 <= x < region_end(s[k]));
        } else {
            if k < i {
                assert(s[k].0 <= x < region_end(s[k]));
            } else {
                assert(s[k + 1].0 <= x < region_end(s[k + 1]));
            }
        }
    }
    assert forall|x: int| p <= x < p + size implies is_free(s, x) && !is_free(c, x) by {
        assert(s[i].0 <= x < region_end(s[i]));
        if is_free(c, x) {
            let k = choose|k: int| 0 <= k < c.len() && (#[trigger] c[k]).0 <= x < region_end(c[k]);
            if region_end(s[i]) - (p + size) >= NODE_SIZE && p != s[i].0 {
                if k < i {
                    assert(region_end(s[k]) < s[i].0);
                } else if k > i + 1 {
                    assert(region_end(s[i]) < s[k - 1].0);
                }
            } else if region_end(s[i]) - (p + size) >= NODE_SIZE {
                if k < i {
                    assert(region_end(s[k]) < s[i].0);
                } else if k > i {
                    assert(region_end(s[i]) < s[k].0);
                }
            } else {
                if k < i {
                    assert(region_end(s[k]) < s[i].0);
                } else {
                    assert(region_end(s[i]) < s[k + 1].0);
                }
            }
        }
    }
    if region_end(s[i]) - (p + size) >= NODE_SIZE && p != s[i].0 {
        assert forall|a: int, b: int| 0 <= a < b < c.len() implies region_end(#[trigger] c[a]) < (#[trigger] c[b]).0 by {
            if b <= i {
            } else if a < i && b == i + 1 {
                assert(region_end(s[a]) < s[i].0);
            } else if a == i && b == i + 1 {
            } else if a == i + 1 {
                assert(region_end(s[i]) < s[b - 1].0);
            } else if a < i {
                assert(region_end(s[a]) < s[b - 1].0);
            } else if a == i {
                assert(region_end(s[i]) < s[b - 1].0);
            }
        }
    } else if region_end(s[i]) - (p + size) >= NODE_SIZE {
        assert forall|a: int, b: int| 0 <= a < b < c.len() implies region_end(#[trigger] c[a]) < (#[trigger] c[b]).0 by {
            assert(region_end(s[a]) < s[b].0);
        }
    } else {
        assert forall|a: int, b: int| 0 <= a < b < c.len() implies region_end(#[trigger] c[a]) < (#[trigger] c[b]).0 by {
            let a0 = if a < i { a } else { a + 1 };
            let b0 = if b < i { b } else { b + 1 };
            assert(region_end(s[a0]) < s[b0].0);
        }
    }
}

/// Index of the first region starting at or after `a` (the length if none).
pub open spec fn insert_pos_from(s: Seq<Region>, a: int, k: int) -> int
    decreases s.len() - k,
{
    if k >= s.len() || a <= s[k].0 {
        k
    } else {
        insert_pos_from(s, a, k + 1)
    }
}

pub open spec fn insert_pos(s: Seq<Region>, a: int) -> int {
    insert_pos_from(s, a, 0)
}

proof fn lemma_insert_pos(s: Seq<Region>, a: int, k: int)
    requires
        0 <= k <= s.len(),
        forall|j: int| 0 <= j < k ==> (#[trigger] s[j]).0 < a,
    ensures
        k <= insert_pos_from(s, a, k) <= s.len(),
        forall|j: int| 0 <= j < insert_pos_from(s, a, k) ==> (#[trigger] s[j]).0 < a,
        insert_pos_from(s, a, k) < s.len() ==> a <= s[insert_pos_from(s, a, k)].0,
    decreases s.len() - k,
{
    if k < s.len() && a > s[k].0 {
        lemma_insert_pos(s, a, k + 1);
    }
}

/// The block `[a, a + n)` is either free memory's complement or starts
/// exactly where a free region starts (a repeated free).
pub open spec fn block_ok(s: Seq<Region>, a: int, n: int) -> bool {
    ||| exists|k: int| 0 <= k < s.len() && (#[trigger] s[k]).0 == a
    ||| forall|x: int| a <= x < a + n ==> !is_free(s, x)
}

/// The list after the block `[a, a + n)` is returned: a block starting where
/// a free region starts is ignored; otherwise it joins the region ending
/// at `a`, the region starting at `a + n`, or both, or is inserted in order.
pub open spec fn insert_spec(s: Seq<Region>, a: int, n: int) -> Seq<Region> {
    let k = insert_pos(s, a);
    if k < s.len() && s[k].0 == a {
        s
    } else if k > 0 && region_end(s[k - 1]) == a {
        if k < s.len() && a + n == s[k].0 {
            s.update(k - 1, (s[k - 1].0, (s[k - 1].1 + n + s[k].1) as usize)).remove(k)
        } else {
            s.update(k - 1, (s[k - 1].0, (s[k - 1].1 + n) as usize))
        }
    } else if k < s.len() && a + n == s[k].0 {
        s.update(k, (a as usize, (n + s[k].1) as usize))
    } else {
        s.insert(k, (a as usize, n as usize))
    }
}

/// `a` starts a free region.
pub open spec fn starts_region(s: Seq<Region>, a: int) -> bool {
    exists|k: int| 0 <= k < s.len() && (#[trigger] s[k]).0 == a
}

/// What holds of the neighbours of a block placed at position `k`.
pub open spec fn between(s: Seq<Region>, k: int, a: int, n: int) -> bool {
    &&& 0 <= k <= s.len()
    &&& forall|j: int| 0 <= j < k ==> (#[trigger] s[j]).0 < a
    &&& k > 0 ==> region_end(s[k - 1]) <= a
    &&& k < s.len() ==> a + n <= s[k].0
}

pub open spec fn free_union(c: Seq<Region>, s: Seq<Region>, a: int, n: int) -> bool {
    forall|x: int| #[trigger] is_free(c, x) <==> (is_free(s, x) || a <= x < a + n)
}

proof fn lemma_insert_both(s: Seq<Region>, lo: int, hi: int, k: int, a: int, n: int)
    requires
        0 <= lo,
        hi <= usize::MAX,
        regions_wf(s, lo, hi),
        between(s, k, a, n),
        0 < k < s.len(),
        region_end(s[k - 1]) == a,
        a + n == s[k].0,
        n > 0,
    ensures
        regions_wf(s.update(k - 1, (s[k - 1].0, (s[k - 1].1 + n + s[k].1) as usize)).remove(k), lo, hi),
        free_union(s.update(k - 1, (s[k - 1].0, (s[k - 1].1 + n + s[k].1) as usize)).remove(k), s, a, n),
{
    let c = s.update(k - 1, (s[k - 1].0, (s[k - 1].1 + n + s[k].1) as usize)).remove(k);
    assert(region_end(c[k - 1]) == region_end(s[k]));
    assert forall|i: int| 0 <= i < c.len() implies lo <= (#[trigger] c[i]).0 && c[i].1 > 0 && region_end(c[i]) <= hi by {
        if i >= k {
            assert(c[i] == s[i + 1]);
        }
    }
    assert forall|i: int, j: int| 0 <= i < j < c.len() implies region_end(#[trigger] c[i]) < (#[trigger] c[j]).0 by {
        let i0 = if i < k { i } else { i + 1 };
        let j0 = if j < k { j } else { j + 1 };
        if i == k - 1 {
            assert(region_end(s[k]) < s[j0].0);
        } else {
            assert(region_end(s[i0]) < s[j0].0);
        }
    }
    assert forall|x: int| #[trigger] is_free(c, x) <==> (is_free(s, x) || a <= x < a + n) by {
        if is_free(c, x) {
            let i = choose|i: int| 0 <= i < c.len() && (#[trigger] c[i]).0 <= x < region_end(c[i]);
            if i < k - 1 {
                assert(s[i].0 <= x < region_end(s[i]));
            } else if i == k - 1 {
                if x < a {
                    assert(s[k - 1].0 <= x < region_end(s[k - 1]));
                } else if x >= a + n {
                    assert(s[k].0 <= x < region_end(s[k]));
                }
            } else {
                assert(s[i + 1].0 <= x < region_end(s[i + 1]));
            }
        }
        if is_free(s, x) {
            let i = choose|i: int| 0 <= i < s.len() && (#[trigger] s[i]).0 <= x < region_end(s[i]);
            if i < k - 1 {
                assert(c[i].0 <= x < region_end(c[i]));
            } else if i == k - 1 || i == k {
                assert(c[k - 1].0 <= x < region_end(c[k - 1]));
            } else {
                assert(c[i - 1].0 <= x < region_end(c[i - 1]));
            }
        }
        if a <= x < a + n {
            assert(c[k - 1].0 <= x < region_end(c[k - 1]));
        }
    }
}

proof fn lemma_insert_prev(s: Seq<Region>, lo: int, hi: int, k: int, a: int, n: int)
    requires
        0 <= lo,
        hi <= usize::MAX,
        regions_wf(s, lo, hi),
        between(s, k, a, n),
        0 < k,
        region_end(s[k - 1]) == a,
        k < s.len() ==> a + n < s[k].0,
        a + n <= hi,
        n > 0,
    ensures
        regions_wf(s.update(k - 1, (s[k - 1].0, (s[k - 1].1 + n) as usize)), lo, hi),
        free_union(s.update(k - 1, (s[k - 1].0, (s[k - 1].1 + n) as usize)), s, a, n),
{
    let c = s.update(k - 1, (s[k - 1].0, (s[k - 1].1 + n) as usize));
    assert(region_end(c[k - 1]) == a + n);
    assert forall|i: int, j: int| 0 <= i < j < c.len() implies region_end(#[trigger] c[i]) < (#[trigger] c[j]).0 by {
        if i == k - 1 {
            assert(s[k].0 <= s[j].0);
        } else {
            assert(region_end(s[i]) < s[j].0);
        }
    }
    assert forall|x: int| #[trigger] is_free(c, x) <==> (is_free(s, x) || a <= x < a + n) by {
        if is_free(c, x) {
            let i = choose|i: int| 0 <= i < c.len() && (#[trigger] c[i]).0 <= x < region_end(c[i]);
            if i == k - 1 {
                if x < a {
                    assert(s[k - 1].0 <= x < region_end(s[k - 1]));
                }
            } else {
                assert(s[i].0 <= x < region_end(s[i]));
            }
        }
        if is_free(s, x) {
            let i = choose|i: int| 0 <= i < s.len() && (#[trigger] s[i]).0 <= x < region_end(s[i]);
            assert(c[i].0 <= x < region_end(c[i]));
        }
        if a <= x < a + n {
            assert(c[k - 1].0 <= x < region_end(c[k - 1]));
        }
    }
}

proof fn lemma_insert_next(s: Seq<Region>, lo: int, hi: int, k: int, a: int, n: int)
    requires
        0 <= lo,
        hi <= usize::MAX,
        regions_wf(s, lo, hi),
        between(s, k, a, n),
        k < s.len(),
        k > 0 ==> region_end(s[k - 1]) < a,
        a + n == s[k].0,
        lo <= a,
        n > 0,
    ensures
        regions_wf(s.update(k, (a as usize, (n + s[k].1) as usize)), lo, hi),
        free_union(s.update(k, (a as usize, (n + s[k].1) as usize)), s, a, n),
{
    let c = s.update(k, (a as usize, (n + s[k].1) as usize));
    assert(region_end(c[k]) == region_end(s[k]));
    assert forall|i: int, j: int| 0 <= i < j < c.len() implies region_end(#[trigger] c[i]) < (#[trigger] c[j]).0 by {
        if j == k {
            if i < k - 1 {
                assert(region_end(s[i]) < s[k - 1].0);
            }
        } else {
            assert(region_end(s[i]) < s[j].0);
        }
    }
    assert forall|x: int| #[trigger] is_free(c, x) <==> (is_free(s, x) || a <= x < a + n) by {
        if is_free(c, x) {
            let i = choose|i: int| 0 <= i < c.len() && (#[trigger] c[i]).0 <= x < region_end(c[i]);
            if i == k {
                if x >= a + n {
                    assert(s[k].0 <= x < region_end(s[k]));
                }
            } else {
                assert(s[i].0 <= x < region_end(s[i]));
            }
        }
        if is_free(s, x) {
            let i = choose|i: int| 0 <= i < s.len() && (#[trigger] s[i]).0 <= x < region_end(s[i]);
            assert(c[i].0 <= x < region_end(c[i]));
        }
        if a <= x < a + n {
            assert(c[k].0 <= x < region_end(c[k]));
        }
    }
}

proof fn lemma_insert_new(s: Seq<Region>, lo: int, hi: int, k: int, a: int, n: int)
    requires
        0 <= lo,
        hi <= usize::MAX,
        regions_wf(s, lo, hi),
        between(s, k, a, n),
        k > 0 ==> region_end(s[k - 1]) < a,
        k < s.len() ==> a + n < s[k].0,
        lo <= a,
        a + n <= hi,
        n > 0,
    ensures
        regions_wf(s.insert(k, (a as usize, n as usize)), lo, hi),
        free_union(s.insert(k, (a as usize, n as usize)), s, a, n),
{
    let c = s.insert(k, (a as usize, n as usize));
    assert forall|i: int| 0 <= i < c.len() implies lo <= (#[trigger] c[i]).0 && c[i].1 > 0 && region_end(c[i]) <= hi by {
        if i > k {
            assert(c[i] == s[i - 1]);
        }
    }
    assert forall|i: int, j: int| 0 <= i < j < c.len() implies region_end(#[trigger] c[i]) < (#[trigger] c[j]).0 by {
        let i0 = if i < k { i } else { i - 1 };
        let j0 = if j < k { j } else { j - 1 };
        if i == k {
            assert(s[k].0 <= s[j0].0);
        } else if j == k {
            if i < k - 1 {
                assert(region_end(s[i]) < s[k - 1].0);
            }
        } else {
            assert(region_end(s[i0]) < s[j0].0);
        }
    }
    assert forall|x: int| #[trigger] is_free(c, x) <==> (is_free(s, x) || a <= x < a + n) by {
        if is_free(c, x) {
            let i = choose|i: int| 0 <= i < c.len() && (#[trigger] c[i]).0 <= x < region_end(c[i]);
            if i < k {
                assert(s[i].0 <= x < region_end(s[i]));
            } else if i > k {
                assert(s[i - 1].0 <= x < region_end(s[i - 1]));
            }
        }
        if is_free(s, x) {
            let i = choose|i: int| 0 <= i < s.len() && (#[trigger] s[i]).0 <= x < region_end(s[i]);
            if i < k {
                assert(c[i].0 <= x < region_end(c[i]));
            } else {
                assert(c[i + 1].0 <= x < region_end(c[i + 1]));
            }
        }
        if a <= x < a + n {
            assert(c[k].0 <= x < region_end(c[k]));
        }
    }
}

proof fn lemma_insert(s: Seq<Region>, lo: int, hi: int, a: int, n: int)
    requires
        0 <= lo,
        hi <= usize::MAX,
        regions_wf(s, lo, hi),
        lo <= a,
        n > 0,
        a + n <= hi,
        block_ok(s, a, n),
    ensures
        starts_region(s, a) ==> insert_spec(s, a, n) == s,
        regions_wf(insert_spec(s, a, n), lo, hi),
        !starts_region(s, a) ==> free_union(insert_spec(s, a, n), s, a, n),
{
    lemma_insert_pos(s, a, 0);
    let k = insert_pos(s, a);
    if k < s.len() && s[k].0 == a {
        return;
    }
    if starts_region(s, a) {
        let j = choose|j: int| 0 <= j < s.len() && (#[trigger] s[j]).0 == a;
        if j > k {
            assert(region_end(s[k]) < s[j].0);
        }
        assert(false);
    }
    if k > 0 {
        if region_end(s[k - 1]) > a {
            assert(s[k - 1].0 <= a < region_end(s[k - 1]));
            assert(is_free(s, a));
        }
    }
    if k < s.len() {
        if a + n > s[k].0 {
            assert(s[k].0 <= s[k].0 < region_end(s[k]));
            assert(is_free(s, s[k].0 as int));
        }
    }
    assert(between(s, k, a, n));
    if k > 0 && region_end(s[k - 1]) == a {
        if k < s.len() && a + n == s[k].0 {
            lemma_insert_both(s, lo, hi, k, a, n);
        } else {
            lemma_insert_prev(s, lo, hi, k, a, n);
        }
    } else if k < s.len() && a + n == s[k].0 {
        lemma_insert_next(s, lo, hi, k, a, n);
    } else {
        lemma_insert_new(s, lo, hi, k, a, n);
    }
}

/// Carving wastes nothing: the region is used up exactly from its start, or
/// the tail left over can hold a node.
pub open spec fn carve_exact(s: Seq<Region>, i: int, p: int, size: int) -> bool {
    ||| region_end(s[i]) - (p + size) >= NODE_SIZE
    ||| (p == s[i].0 && region_end(s[i]) == p + size)
}

proof fn lemma_carve_exact(s: Seq<Region>, lo: int, hi: int, i: int, p: int, size: int)
    requires
        0 <= lo,
        regions_wf(s, lo, hi),
        0 <= i < s.len(),
        s[i].0 <= p,
        size > 0,
        p + size <= region_end(s[i]),
        hi <= usize::MAX,
        carve_exact(s, i, p, size),
    ensures
        forall|x: int| #[trigger] is_free(carve(s, i, p, size), x) <==> (is_free(s, x) && !(p <= x < p + size)),
{
    lemma_carve(s, lo, hi, i, p, size);
    let c = carve(s, i, p, size);
    assert forall|x: int| #[trigger] is_free(c, x) <==> (is_free(s, x) && !(p <= x < p + size)) by {
        if is_free(s, x) && !(p <= x < p + size) {
            let k = choose|k: int| 0 <= k < s.len() && (#[trigger] s[k]).0 <= x < region_end(s[k]);
            if region_end(s[i]) - (p + size) >= NODE_SIZE {
                if p == s[i].0 {
                    assert(c[k].0 <= x < region_end(c[k]));
                } else if k < i {
                    assert(c[k].0 <= x < region_end(c[k]));
                } else if k > i {
                    assert(c[k + 1].0 <= x < region_end(c[k + 1]));
                } else if x < p {
                    assert(c[i].0 <= x < region_end(c[i]));
                } else {
                    assert(c[i + 1].0 <= x < region_end(c[i + 1]));
                }
            } else {
                if k < i {
                    assert(c[k].0 <= x < region_end(c[k]));
                } else {
                    assert(c[k - 1].0 <= x < region_end(c[k - 1]));
                }
            }
        }
    }
}

/// Returning a block just carved without waste leaves exactly the free
/// bytes there were before.
pub proof fn carve_then_insert_restores(s: Seq<Region>, lo: int, hi: int, i: int, p: int, size: int)
    requires
        0 <= lo,
        hi <= usize::MAX,
        regions_wf(s, lo, hi),
        0 <= i < s.len(),
        s[i].0 <= p,
        size > 0,
        p + size <= region_end(s[i]),
        carve_exact(s, i, p, size),
    ensures
        block_ok(carve(s, i, p, size), p, size),
        !starts_region(carve(s, i, p, size), p),
        forall|x: int| #[trigger] is_free(insert_spec(carve(s, i, p, size), p, size), x) <==> is_free(s, x),
{
    lemma_carve(s, lo, hi, i, p, size);
    lemma_carve_exact(s, lo, hi, i, p, size);
    let c = carve(s, i, p, size);
    if starts_region(c, p) {
        let k = choose|k: int| 0 <= k < c.len() && (#[trigger] c[k]).0 == p;
        assert(c[k].1 > 0);
        assert(is_free(c, p));
    }
    assert(lo <= s[i].0);
    lemma_insert(c, lo, hi, p, size);
    assert forall|x: int| #[trigger] is_free(insert_spec(c, p, size), x) <==> is_free(s, x) by {
        assert(is_free(insert_spec(c, p, size), x) <==> (is_free(c, x) || p <= x < p + size));
        assert(is_free(c, x) <==> (is_free(s, x) && !(p <= x < p + size)));
        if p <= x < p + size {
            assert(is_free(s, x));
        }
    }
}

/// Blocks handed out do not overlap: a block carved from a free region and
/// a block carved afterwards from what remains free share no byte.
pub proof fn carved_blocks_disjoint(s: Seq<Region>, lo: int, hi: int, i: int, p: int, size: int, j: int, q: int, size2: int)
    requires
        hi <= usize::MAX,
        regions_wf(s, lo, hi),
        0 <= i < s.len(),
        s[i].0 <= p,
        size > 0,
        p + size <= region_end(s[i]),
        0 <= j < carve(s, i, p, size).len(),
        carve(s, i, p, size)[j].0 <= q,
        size2 > 0,
        q + size2 <= region_end(carve(s, i, p, size)[j]),
    ensures
        p + size <= q || q + size2 <= p,
{
    lemma_carve(s, lo, hi, i, p, size);
    let c = carve(s, i, p, size);
    if !(p + size <= q || q + size2 <= p) {
        let x = if p < q { q } else { p };
        assert(c[j].0 <= x < region_end(c[j]));
        assert(is_free(c, x));
        assert(!is_free(c, x));
    }
}

/// The blocks in `live` (handed out and not yet returned) are non-empty
/// and free of overlap with one another and with the free memory of `s`.
pub open spec fn live_ok(s: Seq<Region>, live: Seq<Region>) -> bool {
    &&& forall|k: int| 0 <= k < live.len() ==> (#[trigger] live[k]).1 > 0
    &&& forall|k: int, x: int| 0 <= k < live.len() && (#[trigger] live[k]).0 <= x < region_end(live[k])
        ==> !#[trigger] is_free(s, x)
    &&& forall|a: int, b: int| 0 <= a < b < live.len()
        ==> region_end(#[trigger] live[a]) <= (#[trigger] live[b]).0 || region_end(live[b]) <= live[a].0
}

/// Handing out a block keeps the live blocks apart: the new block overlaps
/// no live block and no free memory that remains, and the live blocks stay
/// out of the free memory.
pub proof fn carve_keeps_live_apart(s: Seq<Region>, lo: int, hi: int, live: Seq<Region>, i: int, p: int, size: int)
    requires
        hi <= usize::MAX,
        regions_wf(s, lo, hi),
        live_ok(s, live),
        0 <= i < s.len(),
        s[i].0 <= p,
        size > 0,
        p + size <= region_end(s[i]),
    ensures
        live_ok(carve(s, i, p, size), live.push((p as usize, size as usize))),
        regions_wf(carve(s, i, p, size), lo, hi),
{
    lemma_carve(s, lo, hi, i, p, size);
    let c = carve(s, i, p, size);
    let l2 = live.push((p as usize, size as usize));
    assert(0 <= p);
    assert(region_end(s[i]) <= hi);
    assert(l2[live.len() as int].0 == p && l2[live.len() as int].1 == size);
    assert forall|k: int| 0 <= k < l2.len() implies (#[trigger] l2[k]).1 > 0 by {
        if k < live.len() {
            assert(l2[k] == live[k]);
        }
    }
    assert forall|k: int, x: int| 0 <= k < l2.len() && (#[trigger] l2[k]).0 <= x < region_end(l2[k])
        implies !#[trigger] is_free(c, x) by {
        if k < live.len() {
            assert(l2[k] == live[k]);
            assert(!is_free(s, x));
        }
    }
    assert forall|a: int, b: int| 0 <= a < b < l2.len()
        implies region_end(#[trigger] l2[a]) <= (#[trigger] l2[b]).0 || region_end(l2[b]) <= l2[a].0 by {
        if b == live.len() {
            assert(l2[a] == live[a]);
            assert(l2[b].0 == p && region_end(l2[b]) == p + size);
            if !(region_end(l2[a]) <= l2[b].0 || region_end(l2[b]) <= l2[a].0) {
                let x = if live[a].0 < p { p } else { live[a].0 as int };
                assert(p <= x < p + size);
                assert(is_free(s, x));
                assert(live[a].0 <= x < region_end(live[a]));
                assert(!is_free(s, x));
            }
        } else {
            assert(l2[a] == live[a] && l2[b] == live[b]);
        }
    }
}

/// Returning a live block keeps the other live blocks apart: its bytes
/// become free, and the other live blocks stay out of the free memory.
pub proof fn insert_keeps_live_apart(s: Seq<Region>, lo: int, hi: int, live: Seq<Region>, k: int)
    requires
        0 <= lo,
        hi <= usize::MAX,
        regions_wf(s, lo, hi),
        live_ok(s, live),
        0 <= k < live.len(),
        lo <= live[k].0,
        region_end(live[k]) <= hi,
    ensures
        live_ok(insert_spec(s, live[k].0 as int, live[k].1 as int), live.remove(k)),
        regions_wf(insert_spec(s, live[k].0 as int, live[k].1 as int), lo, hi),
        forall|x: int| live[k].0 <= x < region_end(live[k]) ==> is_free(insert_spec(s, live[k].0 as int, live[k].1 as int), x),
{
    let a = live[k].0 as int;
    let n = live[k].1 as int;
    assert forall|x: int| a <= x < a + n implies !is_free(s, x) by {
        assert(live[k].0 <= x < region_end(live[k]));
    }
    assert(block_ok(s, a, n));
    if starts_region(s, a) {
        let j = choose|j: int| 0 <= j < s.len() && (#[trigger] s[j]).0 == a;
        assert(s[j].0 <= a < region_end(s[j]));
        assert(is_free(s, a));
        assert(!is_free(s, a));
    }
    lemma_insert(s, lo, hi, a, n);
    let c = insert_spec(s, a, n);
    let l2 = live.remove(k);
    assert forall|m: int| 0 <= m < l2.len() implies (#[trigger] l2[m]).1 > 0 by {
        let m0 = if m < k { m } else { m + 1 };
        assert(l2[m] == live[m0]);
    }
    assert forall|m: int, x: int| 0 <= m < l2.len() && (#[trigger] l2[m]).0 <= x < region_end(l2[m])
        implies !#[trigger] is_free(c, x) by {
        let m0 = if m < k { m } else { m + 1 };
        assert(l2[m] == live[m0]);
        assert(!is_free(s, x));
        if a <= x < a + n {
            if m0 < k {
                assert(region_end(live[m0]) <= live[k].0 || region_end(live[k]) <= live[m0].0);
            } else {
                assert(region_end(live[k]) <= live[m0].0 || region_end(live[m0]) <= live[k].0);
            }
        }
        assert(is_free(c, x) <==> (is_free(s, x) || a <= x < a + n));
    }
    assert forall|u: int, v: int| 0 <= u < v < l2.len()
        implies region_end(#[trigger] l2[u]) <= (#[trigger] l2[v]).0 || region_end(l2[v]) <= l2[u].0 by {
        let u0 = if u < k { u } else { u + 1 };
        let v0 = if v < k { v } else { v + 1 };
        assert(l2[u] == live[u0] && l2[v] == live[v0]);
    }
    assert forall|x: int| live[k].0 <= x < region_end(live[k]) implies is_free(c, x) by {
        assert(is_free(c, x) <==> (is_free(s, x) || a <= x < a + n));
    }
}

/// The free regions of a heap `[lo, hi)`.
pub struct FreeList {
    regions: Vec<Region>,
    lo: usize,
    hi: usize,
}

impl FreeList {
    pub closed spec fn view(&self) -> Seq<Region> {
        self.regions@
    }

    pub closed spec fn lo(&self) -> int {
        self.lo as int
    }

    pub closed spec fn hi(&self) -> int {
        self.hi as int
    }

    pub closed spec fn wf(&self) -> bool {
        &&& self.lo <= self.hi
        &&& regions_wf(self.regions@, self.lo as int, self.hi as int)
    }

    /// A well-formed list is sorted by address, its regions lie in the heap
    /// and are non-empty, and no two overlap or touch.
    pub proof fn lemma_wf(&self)
        requires
            self.wf(),
        ensures
            self.lo() <= self.hi(),
            regions_wf(self@, self.lo(), self.hi()),
    {
    }

    /// No free memory, empty bounds.
    pub fn empty() -> (r: Self)
        ensures
            r.wf(),
            r@ == Seq::<Region>::empty(),
            r.lo() == 0,
            r.hi() == 0,
    {
        FreeList { regions: Vec::new(), lo: 0, hi: 0 }
    }

    /// The heap `[start, start + size)`, all of it free.
    pub fn whole(start: usize, size: usize) -> (r: Self)
        requires
            start + size <= usize::MAX,
            size > 0,
        ensures
            r.wf(),
            r.lo() == start,
            r.hi() == start + size,
            r@ == seq![(start, size)],
    {
        let mut regions: Vec<Region> = Vec::new();
        regions.push((start, size));
        FreeList { regions, lo: start, hi: start + size }
    }

    /// The heap `[start, start + size)`, with the region `[free_start,
    /// start + size)` free when it is longer than a node, else nothing free.
    pub fn with_tail(start: usize, size: usize, free_start: usize) -> (r: Self)
        requires
            start + size <= usize::MAX,
            start <= free_start <= start + size,
        ensures
            r.wf(),
            r.lo() == start,
            r.hi() == start + size,
            start + size - free_start > NODE_SIZE ==> r@ == seq![(free_start, (start + size - free_start) as usize)],
            start + size - free_start <= NODE_SIZE ==> r@ == Seq::<Region>::empty(),
    {
        let end = start + size;
        let mut regions: Vec<Region> = Vec::new();
        if end - free_start > NODE_SIZE {
            regions.push((free_start, end - free_start));
        }
        FreeList { regions, lo: start, hi: end }
    }

    /// First fit: takes `size` bytes at the first address aligned to `a` in
    /// the first region they fit in. The search gives up at the first region
    /// where the aligned end would pass the end of the address space.
    pub fn take_first_fit(&mut self, size: usize, a: usize) -> (r: Option<usize>)
        requires
            old(self).wf(),
            size > 0,
            is_pow2(a),
            align_room(old(self)@, a),
        ensures
            final(self).wf(),
            final(self).lo() == old(self).lo(),
            final(self).hi() == old(self).hi(),
            match r {
                Some(p) => exists|i: int| #[trigger] first_fit(old(self)@, size, a, i)
                    && p == align_up_spec(old(self)@[i].0, a) && final(self)@ == carve(old(self)@, i, p as int, size as int),
                None => final(self)@ == old(self)@ && forall|i: int| !#[trigger] first_fit(old(self)@, size, a, i),
            },
            r matches Some(p) ==> p & ((a - 1) as usize) == 0 && old(self).lo() <= p && p + size <= old(self).hi(),
            r matches Some(p) ==> forall|x: int| p <= x < p + size ==> is_free(old(self)@, x) && !is_free(final(self)@, x),
            forall|x: int| is_free(final(self)@, x) ==> is_free(old(self)@, x),
    {
        let ghost s = self.regions@;
        let mut i: usize = 0;
        while i < self.regions.len()
            invariant
                self.regions@ == s,
                s == old(self)@,
                self.lo == old(self).lo,
                self.hi == old(self).hi,
                old(self).wf(),
                is_pow2(a),
                size > 0,
                align_room(s, a),
                i <= s.len(),
                forall|j: int| 0 <= j < i ==> !fit_overflows(#[trigger] s[j], size, a) && !fits(s[j], size, a),
            decreases s.len() - i,
        {
            let (rs, rsz) = self.regions[i];
            assert(s[i as int] == (rs, rsz));
            let p = align_up(rs, a);
            let end = match p.checked_add(size) {
                Some(e) => e,
                None => {
                    assert forall|k: int| !#[trigger] first_fit(s, size, a, k) by {
                        if 0 <= k < s.len() && k > i {
                            assert(fit_overflows(s[i as int], size, a));
                        }
                    }
                    return None;
                },
            };
            let rend = rs + rsz;
            if end <= rend {
                proof {
                    assert(first_fit(s, size, a, i as int));
                    lemma_carve(s, self.lo as int, self.hi as int, i as int, p as int, size as int);
                }
                let excess = rend - end;
                if excess >= NODE_SIZE {
                    if p == rs {
                        self.regions.set(i, (end, excess));
                    } else {
                        self.regions.set(i, (rs, p - rs));
                        self.regions.insert(i + 1, (end, excess));
                    }
                } else {
                    self.regions.remove(i);
                }
                proof {
                    assert(self.regions@ == carve(s, i as int, p as int, size as int));
                }
                return Some(p);
            }
            i = i + 1;
        }
        assert forall|k: int| !#[trigger] first_fit(s, size, a, k) by {
            if 0 <= k < s.len() {
                assert(!fits(s[k], size, a));
            }
        }
        None
    }

    /// Returns the block `[a, a + n)` to the list, merging it with the
    /// region that ends at `a` and the one that starts at `a + n`; a block
    /// that starts where a free region starts is taken for a repeated free
    /// and ignored.
    pub fn insert(&mut self, a: usize, n: usize)
        requires
            old(self).wf(),
            old(self).lo() <= a,
            n > 0,
            a + n <= old(self).hi(),
            block_ok(old(self)@, a as int, n as int),
        ensures
            final(self).wf(),
            final(self).lo() == old(self).lo(),
            final(self).hi() == old(self).hi(),
            final(self)@ == insert_spec(old(self)@, a as int, n as int),
            starts_region(old(self)@, a as int) ==> final(self)@ == old(self)@,
            !starts_region(old(self)@, a as int) ==> free_union(final(self)@, old(self)@, a as int, n as int),
    {
        let ghost s = self.regions@;
        proof {
            lemma_insert(s, self.lo as int, self.hi as int, a as int, n as int);
            lemma_insert_pos(s, a as int, 0);
        }
        let mut k: usize = 0;
        while k < self.regions.len() && self.regions[k].0 < a
            invariant
                self.regions@ == s,
                k <= s.len(),
                forall|j: int| 0 <= j < k ==> (#[trigger] s[j]).0 < a,
                insert_pos_from(s, a as int, k as int) == insert_pos(s, a as int),
            decreases s.len() - k,
        {
            k = k + 1;
        }
        assert(insert_pos_from(s, a as int, k as int) == k);
        let len = self.regions.len();
        if k < len && self.regions[k].0 == a {
            return;
        }
        if k > 0 && self.regions[k - 1].0 + self.regions[k - 1].1 == a {
            let (ps, psz) = self.regions[k - 1];
            if k < len && a + n == self.regions[k].0 {
                let csz = self.regions[k].1;
                self.regions.set(k - 1, (ps, psz + n + csz));
                self.regions.remove(k);
            } else {
                self.regions.set(k - 1, (ps, psz + n));
            }
        } else if k < len && a + n == self.regions[k].0 {
            let csz = self.regions[k].1;
            self.regions.set(k, (a, n + csz));
        } else {
            self.regions.insert(k, (a, n));
        }
        assert(self.regions@ == insert_spec(s, a as int, n as int));
    }
}

} // verus!
