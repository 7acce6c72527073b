//! CPU identification strings from CPUID register values. Executing
//! CPUID is the caller's.

use vstd::prelude::*;
use crate::text::{trim_chars, trim_spec};

verus! {

/// The little-endian bytes of a register.
pub open spec fn le_bytes(r: u32) -> Seq<u8> {
    seq![(r % 256) as u8, ((r / 256) % 256) as u8, ((r / 0x1_0000) % 256) as u8, (r / 0x100_0000) as u8]
}

/// The non-zero bytes of `s` as characters (each byte its own code point).
pub open spec fn nonzero_chars(s: Seq<u8>) -> Seq<char>
    decreases s.len(),
{
    if s.len() == 0 {
        seq![]
    } else {
        let rest = nonzero_chars(s.drop_last());
        if s.last() != 0 { rest.push(s.last() as char) } else { rest }
    }
}

fn push_nonzero(out: &mut Vec<char>, reg: u32)
    ensures
        final(out)@ == old(out)@ + nonzero_chars(le_bytes(reg)),
{
    let bytes = [(reg % 256) as u8, ((reg / 256) % 256) as u8, ((reg / 0x1_0000) % 256) as u8, (reg / 0x100_0000) as u8];
    let ghost b = le_bytes(reg);
    assert(bytes@ =~= b);
    let mut i: usize = 0;
    while i < 4
        invariant
            i <= 4,
            bytes@ == b,
            out@ == old(out)@ + nonzero_chars(b.subrange(0, i as int)),
        decreases 4 - i,
    {
        if bytes[i] != 0 {
            out.push(bytes[i] as char);
        }
        i = i + 1;
        assert(b.subrange(0, i as int).drop_last() =~= b.subrange(0, i - 1));
        assert(out@ =~= old(out)@ + nonzero_chars(b.subrange(0, i as int)));
    }
    assert(b.subrange(0, 4) =~= b);
}

/// The characters of four CPUID registers, zero bytes left out.
pub fn format_registers(a: u32, b: u32, c: u32, d: u32) -> (s: Vec<char>)
    ensures
        s@ == nonzero_chars(le_bytes(a)) + nonzero_chars(le_bytes(b)) + nonzero_chars(le_bytes(c))
            + nonzero_chars(le_bytes(d)),
{
    let mut s: Vec<char> = Vec::new();
    push_nonzero(&mut s, a);
    push_nonzero(&mut s, b);
    push_nonzero(&mut s, c);
    push_nonzero(&mut s, d);
    assert(s@ =~= nonzero_chars(le_bytes(a)) + nonzero_chars(le_bytes(b)) + nonzero_chars(le_bytes(c))
        + nonzero_chars(le_bytes(d)));
    s
}

/// The processor brand from CPUID leaves 0x80000002..4 (EAX, EBX, ECX,
/// EDX each), zero bytes dropped and surrounding whitespace trimmed.
pub fn brand_string(leaves: [(u32, u32, u32, u32); 3]) -> (s: Vec<char>)
    ensures
        s@ == trim_spec(
            nonzero_chars(le_bytes(leaves[0].0)) + nonzero_chars(le_bytes(leaves[0].1)) + nonzero_chars(le_bytes(leaves[0].2))
                + nonzero_chars(le_bytes(leaves[0].3)) + nonzero_chars(le_bytes(leaves[1].0)) + nonzero_chars(le_bytes(leaves[1].1))
                + nonzero_chars(le_bytes(leaves[1].2)) + nonzero_chars(le_bytes(leaves[1].3)) + nonzero_chars(le_bytes(leaves[2].0))
                + nonzero_chars(le_bytes(leaves[2].1)) + nonzero_chars(le_bytes(leaves[2].2)) + nonzero_chars(le_bytes(leaves[2].3))),
{
    let mut all: Vec<char> = Vec::new();
    let mut k: usize = 0;
    while k < 3
        invariant
            k <= 3,
            all@ == if k == 0 { seq![] } else if k == 1 {
                nonzero_chars(le_bytes(leaves[0].0)) + nonzero_chars(le_bytes(leaves[0].1)) + nonzero_chars(le_bytes(leaves[0].2))
                    + nonzero_chars(le_bytes(leaves[0].3))
            } else if k == 2 {
                nonzero_chars(le_bytes(leaves[0].0)) + nonzero_chars(le_bytes(leaves[0].1)) + nonzero_chars(le_bytes(leaves[0].2))
                    + nonzero_chars(le_bytes(leaves[0].3)) + nonzero_chars(le_bytes(leaves[1].0)) + nonzero_chars(le_bytes(leaves[1].1))
                    + nonzero_chars(le_bytes(leaves[1].2)) + nonzero_chars(le_bytes(leaves[1].3))
            } else {
                nonzero_chars(le_bytes(leaves[0].0)) + nonzero_chars(le_bytes(leaves[0].1)) + nonzero_chars(le_bytes(leaves[0].2))
                    + nonzero_chars(le_bytes(leaves[0].3)) + nonzero_chars(le_bytes(leaves[1].0)) + nonzero_chars(le_bytes(leaves[1].1))
                    + nonzero_chars(le_bytes(leaves[1].2)) + nonzero_chars(le_bytes(leaves[1].3)) + nonzero_chars(le_bytes(leaves[2].0))
                    + nonzero_chars(le_bytes(leaves[2].1)) + nonzero_chars(le_bytes(leaves[2].2)) + nonzero_chars(le_bytes(leaves[2].3))
            },
        decreases 3 - k,
    {
        let (a, b, c, d) = leaves[k];
        push_nonzero(&mut all, a);
        push_nonzero(&mut all, b);
        push_nonzero(&mut all, c);
        push_nonzero(&mut all, d);
        k = k + 1;
        proof {
            if k == 1 {
                assert(all@ =~= nonzero_chars(le_bytes(leaves[0].0)) + nonzero_chars(le_bytes(leaves[0].1))
                    + nonzero_chars(le_bytes(leaves[0].2)) + nonzero_chars(le_bytes(leaves[0].3)));
            } else if k == 2 {
                assert(all@ =~= nonzero_chars(le_bytes(leaves[0].0)) + nonzero_chars(le_bytes(leaves[0].1)) + nonzero_chars(le_bytes(leaves[0].2))
                    + nonzero_chars(le_bytes(leaves[0].3)) + nonzero_chars(le_bytes(leaves[1].0)) + nonzero_chars(le_bytes(leaves[1].1))
                    + nonzero_chars(le_bytes(leaves[1].2)) + nonzero_chars(le_bytes(leaves[1].3)));
            }
        }
    }
    trim_chars(&all)
}

/// Length of the vendor string: up to its first zero byte, at most 12.
pub open spec fn vendor_len(b: Seq<u8>) -> int
    decreases b.len(),
{
    if b.len() == 0 { 0 } else if b[0] == 0 { 0 } else { 1 + vendor_len(b.subrange(1, b.len() as int)) }
}

/// The vendor identification bytes from CPUID leaf 0: EBX, EDX, ECX in
/// little-endian order, cut at the first zero byte.
pub fn vendor_id(ebx: u32, edx: u32, ecx: u32) -> (v: Vec<u8>)
    ensures
        ({
            let b = le_bytes(ebx) + le_bytes(edx) + le_bytes(ecx);
            &&& v@.len() <= 12
            &&& v@ == b.subrange(0, v@.len() as int)
            &&& v@.len() < 12 ==> b[v@.len() as int] == 0
            &&& forall|i: int| 0 <= i < v@.len() ==> b[i] != 0
        }),
{
    let mut bytes: Vec<u8> = Vec::new();
    let regs = [ebx, edx, ecx];
    let mut k: usize = 0;
    while k < 3
        invariant
            k <= 3,
            regs@ == seq![ebx, edx, ecx],
            bytes@ == if k == 0 { seq![] } else if k == 1 { le_bytes(ebx) } else if k == 2 { le_bytes(ebx) + le_bytes(edx) }
                else { le_bytes(ebx) + le_bytes(edx) + le_bytes(ecx) },
        decreases 3 - k,
    {
        let r = regs[k];
        bytes.push((r % 256) as u8);
        bytes.push(((r / 256) % 256) as u8);
        bytes.push(((r / 0x1_0000) % 256) as u8);
        bytes.push((r / 0x100_0000) as u8);
        k = k + 1;
        proof {
            if k == 1 {
                assert(bytes@ =~= le_bytes(ebx));
            } else if k == 2 {
                assert(bytes@ =~= le_bytes(ebx) + le_bytes(edx));
            } else {
                assert(bytes@ =~= le_bytes(ebx) + le_bytes(edx) + le_bytes(ecx));
            }
        }
    }
    let ghost b = bytes@;
    let mut n: usize = 0;
    while n < 12 && bytes[n] != 0
        invariant
            n <= 12,
            bytes@ == b,
            b.len() == 12,
            forall|i: int| 0 <= i < n ==> b[i] != 0,
        decreases 12 - n,
    {
        n = n + 1;
    }
    bytes.truncate(n);
    bytes
}

} // verus!
