//! Ethernet II frames.

use vstd::prelude::*;
use crate::net::wire::{be16_bytes, be16_value, splice, read_be16, copy_into, write_be16,
    lemma_be16_inverse};

verus! {

pub const ETHERTYPE_IPV4: u16 = 0x0800;
pub const ETHERTYPE_ARP: u16 = 0x0806;

/// Shortest frame that `parse` accepts: the header alone.
pub const MIN_FRAME_LEN: usize = 14;

/// A parsed Ethernet frame; the payload borrows the received bytes.
pub struct EthernetFrame<'a> {
    pub dst: [u8; 6],
    pub src: [u8; 6],
    pub ethertype: u16,
    pub payload: &'a [u8],
}

/// The 14-byte Ethernet header.
pub open spec fn ethernet_header(dst: Seq<u8>, src: Seq<u8>, ethertype: u16) -> Seq<u8> {
    dst + src + be16_bytes(ethertype)
}

/// The bytes of a frame with these fields.
pub open spec fn ethernet_bytes(dst: Seq<u8>, src: Seq<u8>, ethertype: u16, payload: Seq<u8>) -> Seq<u8> {
    ethernet_header(dst, src, ethertype) + payload
}

impl<'a> EthernetFrame<'a> {
    /// Parses a received frame: `None` for frames shorter than the 14-byte
    /// header, otherwise the frame is exactly the encoding of the parsed
    /// fields (so a 42-byte ARP frame, not padded to the 60-byte minimum,
    /// parses).
    pub fn parse(data: &'a [u8]) -> (r: Option<Self>)
        ensures
            r is Some <==> data@.len() >= MIN_FRAME_LEN,
            r matches Some(f) ==> data@ == ethernet_bytes(f.dst@, f.src@, f.ethertype, f.payload@),
    {
        if data.len() < MIN_FRAME_LEN {
            return None;
        }
        let dst = [data[0], data[1], data[2], data[3], data[4], data[5]];
        let src = [data[6], data[7], data[8], data[9], data[10], data[11]];
        let ethertype = read_be16(data, 12);
        let payload = &data[14..data.len()];
        proof {
            crate::net::wire::lemma_be16_value_inverse(data@[12], data@[13]);
            assert(data@ =~= ethernet_bytes(dst@, src@, ethertype, payload@));
        }
        Some(EthernetFrame { dst, src, ethertype, payload })
    }

    /// Writes a frame into `out` and returns its length, or `None` when
    /// `out` is too short (then `out` is left as it was).
    pub fn build(dst: [u8; 6], src: [u8; 6], ethertype: u16, payload: &[u8], out: &mut [u8]) -> (r: Option<usize>)
        requires
            14 + payload@.len() <= usize::MAX,
        ensures
            old(out)@.len() < 14 + payload@.len() ==> r is None && final(out)@ == old(out)@,
            old(out)@.len() >= 14 + payload@.len() ==> r == Some((14 + payload@.len()) as usize)
                && final(out)@ == splice(old(out)@, 0, ethernet_bytes(dst@, src@, ethertype, payload@)),
    {
        let len = 14 + payload.len();
        if out.len() < len {
            return None;
        }
        copy_into(out, 0, dst.as_slice());
        copy_into(out, 6, src.as_slice());
        write_be16(out, 12, ethertype);
        copy_into(out, 14, payload);
        proof {
            lemma_be16_inverse(ethertype);
            assert(out@ =~= splice(old(out)@, 0, ethernet_bytes(dst@, src@, ethertype, payload@)));
        }
        Some(len)
    }
}

/// Parsing what `build` wrote gives back the fields it was given: the
/// frame encoding is injective.
pub proof fn ethernet_encoding_injective(
    d1: Seq<u8>, s1: Seq<u8>, e1: u16, p1: Seq<u8>,
    d2: Seq<u8>, s2: Seq<u8>, e2: u16, p2: Seq<u8>,
)
    requires
        d1.len() == 6, s1.len() == 6, d2.len() == 6, s2.len() == 6,
        ethernet_bytes(d1, s1, e1, p1) == ethernet_bytes(d2, s2, e2, p2),
    ensures
        d1 == d2, s1 == s2, e1 == e2, p1 == p2,
{
    let b1 = ethernet_bytes(d1, s1, e1, p1);
    let b2 = ethernet_bytes(d2, s2, e2, p2);
    assert(d1 =~= b1.subrange(0, 6));
    assert(d2 =~= b2.subrange(0, 6));
    assert(s1 =~= b1.subrange(6, 12));
    assert(s2 =~= b2.subrange(6, 12));
    assert(p1 =~= b1.subrange(14, b1.len() as int));
    assert(p2 =~= b2.subrange(14, b2.len() as int));
    lemma_be16_inverse(e1);
    lemma_be16_inverse(e2);
    assert(be16_bytes(e1) =~= b1.subrange(12, 14));
    assert(be16_bytes(e2) =~= b2.subrange(12, 14));
}

} // verus!
