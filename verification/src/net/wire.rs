//! Big-endian field encoding shared by the packet formats.

use vstd::prelude::*;

verus! {

/// The two bytes of `v` in network (big-endian) order.
pub open spec fn be16_bytes(v: u16) -> Seq<u8> {
    seq![(v / 256) as u8, (v % 256) as u8]
}

/// The value of two bytes in network order.
pub open spec fn be16_value(hi: u8, lo: u8) -> u16 {
    (hi * 256 + lo) as u16
}

/// The four bytes of `v` in network order.
pub open spec fn be32_bytes(v: u32) -> Seq<u8> {
    seq![
        (v / 0x100_0000) as u8,
        ((v / 0x1_0000) % 256) as u8,
        ((v / 256) % 256) as u8,
        (v % 256) as u8,
    ]
}

/// The value of four bytes in network order.
pub open spec fn be32_value(b0: u8, b1: u8, b2: u8, b3: u8) -> u32 {
    (b0 * 0x100_0000 + b1 * 0x1_0000 + b2 * 256 + b3) as u32
}

/// `s` with the bytes from `at` on replaced by `p`.
pub open spec fn splice(s: Seq<u8>, at: int, p: Seq<u8>) -> Seq<u8> {
    s.subrange(0, at) + p + s.subrange(at + p.len(), s.len() as int)
}

pub proof fn lemma_be16_inverse(v: u16)
    ensures
        be16_bytes(v).len() == 2,
        be16_value(be16_bytes(v)[0], be16_bytes(v)[1]) == v,
{
}

pub proof fn lemma_be16_value_inverse(hi: u8, lo: u8)
    ensures
        be16_bytes(be16_value(hi, lo)) == seq![hi, lo],
{
    assert(be16_bytes(be16_value(hi, lo)) =~= seq![hi, lo]);
}

pub proof fn lemma_be32_inverse(v: u32)
    ensures
        be32_bytes(v).len() == 4,
        be32_value(be32_bytes(v)[0], be32_bytes(v)[1], be32_bytes(v)[2], be32_bytes(v)[3]) == v,
{
}

pub proof fn lemma_be32_value_inverse(b0: u8, b1: u8, b2: u8, b3: u8)
    ensures
        be32_bytes(be32_value(b0, b1, b2, b3)) == seq![b0, b1, b2, b3],
{
    let v: int = b0 * 0x100_0000 + b1 * 0x1_0000 + b2 * 256 + b3;
    assert(v / 0x100_0000 == b0 && (v / 0x1_0000) % 256 == b1 && (v / 256) % 256 == b2 && v % 256
        == b3) by (nonlinear_arith)
        requires
            v == b0 * 0x100_0000 + b1 * 0x1_0000 + b2 * 256 + b3,
            0 <= b0 < 256,
            0 <= b1 < 256,
            0 <= b2 < 256,
            0 <= b3 < 256,
    ;
    assert(be32_bytes(be32_value(b0, b1, b2, b3)) =~= seq![b0, b1, b2, b3]);
}

/// Reads a big-endian `u16` at `at`.
pub fn read_be16(data: &[u8], at: usize) -> (r: u16)
    requires
        at + 2 <= data@.len(),
    ensures
        r == be16_value(data@[at as int], data@[at + 1]),
{
    (data[at] as u16) * 256 + (data[at + 1] as u16)
}

/// Reads a big-endian `u32` at `at`.
pub fn read_be32(data: &[u8], at: usize) -> (r: u32)
    requires
        at + 4 <= data@.len(),
    ensures
        r == be32_value(data@[at as int], data@[at + 1], data@[at + 2], data@[at + 3]),
{
    (data[at] as u32) * 0x100_0000 + (data[at + 1] as u32) * 0x1_0000 + (data[at + 2] as u32) * 256
        + (data[at + 3] as u32)
}

/// Copies `src` into `out` starting at `at`.
pub fn copy_into(out: &mut [u8], at: usize, src: &[u8])
    requires
        at + src@.len() <= old(out)@.len(),
    ensures
        final(out)@ == splice(old(out)@, at as int, src@),
{
    let mut i: usize = 0;
    while i < src.len()
        invariant
            i <= src@.len(),
            at + src@.len() <= out@.len(),
            out@.len() == out.len(),
            out@.len() == old(out)@.len(),
            out@ =~= splice(old(out)@, at as int, src@.subrange(0, i as int)),
        decreases src@.len() - i,
    {
        out[at + i] = src[i];
        i = i + 1;
        assert(out@ =~= splice(old(out)@, at as int, src@.subrange(0, i as int)));
    }
    assert(src@.subrange(0, i as int) =~= src@);
}

/// Writes `v` big-endian at `at`.
pub fn write_be16(out: &mut [u8], at: usize, v: u16)
    requires
        at + 2 <= old(out)@.len(),
    ensures
        final(out)@ == splice(old(out)@, at as int, be16_bytes(v)),
{
    out[at] = (v / 256) as u8;
    out[at + 1] = (v % 256) as u8;
    assert(out@ =~= splice(old(out)@, at as int, be16_bytes(v)));
}

/// Writes `v` big-endian at `at`.
pub fn write_be32(out: &mut [u8], at: usize, v: u32)
    requires
        at + 4 <= old(out)@.len(),
    ensures
        final(out)@ == splice(old(out)@, at as int, be32_bytes(v)),
{
    out[at] = (v / 0x100_0000) as u8;
    out[at + 1] = ((v / 0x1_0000) % 256) as u8;
    out[at + 2] = ((v / 256) % 256) as u8;
    out[at + 3] = (v % 256) as u8;
    assert(out@ =~= splice(old(out)@, at as int, be32_bytes(v)));
}

/// Sets `out[at..at + n]` to zero.
pub fn zero_fill(out: &mut [u8], at: usize, n: usize)
    requires
        at + n <= old(out)@.len(),
    ensures
        final(out)@ == splice(old(out)@, at as int, Seq::new(n as nat, |i: int| 0u8)),
{
    let mut i: usize = 0;
    while i < n
        invariant
            i <= n,
            at + n <= out@.len(),
            out@.len() == out.len(),
            out@.len() == old(out)@.len(),
            out@ =~= splice(old(out)@, at as int, Seq::new(i as nat, |k: int| 0u8)),
        decreases n - i,
    {
        out[at + i] = 0;
        i = i + 1;
        assert(out@ =~= splice(old(out)@, at as int, Seq::new(i as nat, |k: int| 0u8)));
    }
}

} // verus!

verus! {

/// Appends `v` big-endian.
pub fn push_be16(v: &mut Vec<u8>, x: u16)
    ensures
        final(v)@ == old(v)@ + be16_bytes(x),
{
    v.push((x / 256) as u8);
    v.push((x % 256) as u8);
    assert(v@ =~= old(v)@ + be16_bytes(x));
}

/// Appends `v` big-endian.
pub fn push_be32(v: &mut Vec<u8>, x: u32)
    ensures
        final(v)@ == old(v)@ + be32_bytes(x),
{
    v.push((x / 0x100_0000) as u8);
    v.push(((x / 0x1_0000) % 256) as u8);
    v.push(((x / 256) % 256) as u8);
    v.push((x % 256) as u8);
    assert(v@ =~= old(v)@ + be32_bytes(x));
}

/// Appends the bytes of `src`.
pub fn push_slice(v: &mut Vec<u8>, src: &[u8])
    ensures
        final(v)@ == old(v)@ + src@,
{
    let mut i: usize = 0;
    while i < src.len()
        invariant
            i <= src@.len(),
            v@ =~= old(v)@ + src@.subrange(0, i as int),
        decreases src@.len() - i,
    {
        v.push(src[i]);
        i = i + 1;
        assert(v@ =~= old(v)@ + src@.subrange(0, i as int));
    }
    assert(src@.subrange(0, i as int) =~= src@);
}

} // verus!
