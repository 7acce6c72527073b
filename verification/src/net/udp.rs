//! UDP datagrams.

use vstd::prelude::*;
use crate::net::wire::{be16_bytes, be16_value, splice, read_be16, copy_into, write_be16,
    lemma_be16_inverse, lemma_be16_value_inverse};

verus! {

/// A parsed UDP header; the payload borrows the received bytes.
pub struct UdpHeader<'a> {
    pub src_port: u16,
    pub dst_port: u16,
    pub length: u16,
    pub payload: &'a [u8],
}

/// The bytes of a datagram with these header fields and a zero checksum.
pub open spec fn udp_bytes(src_port: u16, dst_port: u16, length: u16, checksum: u16, payload: Seq<u8>) -> Seq<u8> {
    be16_bytes(src_port) + be16_bytes(dst_port) + be16_bytes(length) + be16_bytes(checksum) + payload
}

impl<'a> UdpHeader<'a> {
    /// Parses a datagram: `None` below 8 bytes; the checksum field is
    /// read past, and the rest is the payload.
    pub fn parse(data: &'a [u8]) -> (r: Option<Self>)
        ensures
            r is Some <==> data@.len() >= 8,
            r matches Some(h) ==> data@ == udp_bytes(h.src_port, h.dst_port, h.length,
                be16_value(data@[6], data@[7]), h.payload@),
    {
        if data.len() < 8 {
            return None;
        }
        let src_port = read_be16(data, 0);
        let dst_port = read_be16(data, 2);
        let length = read_be16(data, 4);
        let c = read_be16(data, 6);
        let payload = &data[8..data.len()];
        proof {
            lemma_be16_value_inverse(data@[0], data@[1]);
            lemma_be16_value_inverse(data@[2], data@[3]);
            lemma_be16_value_inverse(data@[4], data@[5]);
            lemma_be16_value_inverse(data@[6], data@[7]);
            assert(data@ =~= udp_bytes(src_port, dst_port, length, c, payload@));
        }
        Some(UdpHeader { src_port, dst_port, length, payload })
    }

    /// Writes a datagram (length field `8 + payload.len()` truncated to 16
    /// bits, checksum 0) into `out`; `None` if `out` is too short.
    pub fn build(src_port: u16, dst_port: u16, payload: &[u8], out: &mut [u8]) -> (r: Option<usize>)
        requires
            8 + payload@.len() <= usize::MAX,
        ensures
            old(out)@.len() < 8 + payload@.len() ==> r is None && final(out)@ == old(out)@,
            old(out)@.len() >= 8 + payload@.len() ==> r == Some((8 + payload@.len()) as usize)
                && final(out)@ == splice(old(out)@, 0,
                    udp_bytes(src_port, dst_port, (8 + payload@.len()) as u16, 0, payload@)),
    {
        let len = 8 + payload.len();
        if out.len() < len {
            return None;
        }
        write_be16(out, 0, src_port);
        write_be16(out, 2, dst_port);
        write_be16(out, 4, len as u16);
        write_be16(out, 6, 0);
        copy_into(out, 8, payload);
        proof {
            assert(out@ =~= splice(old(out)@, 0,
                udp_bytes(src_port, dst_port, len as u16, 0, payload@)));
        }
        Some(len)
    }
}

/// Parsing a datagram that `build` wrote gives back its ports, length
/// field and payload: the UDP encoding is injective.
pub proof fn udp_encoding_injective(
    s1: u16, d1: u16, l1: u16, c1: u16, p1: Seq<u8>,
    s2: u16, d2: u16, l2: u16, c2: u16, p2: Seq<u8>,
)
    requires
        udp_bytes(s1, d1, l1, c1, p1) == udp_bytes(s2, d2, l2, c2, p2),
    ensures
        s1 == s2, d1 == d2, l1 == l2, c1 == c2, p1 == p2,
{
    let b1 = udp_bytes(s1, d1, l1, c1, p1);
    let b2 = udp_bytes(s2, d2, l2, c2, p2);
    lemma_be16_inverse(s1);
    lemma_be16_inverse(s2);
    lemma_be16_inverse(d1);
    lemma_be16_inverse(d2);
    lemma_be16_inverse(l1);
    lemma_be16_inverse(l2);
    lemma_be16_inverse(c1);
    lemma_be16_inverse(c2);
    assert(be16_bytes(s1) =~= b1.subrange(0, 2));
    assert(be16_bytes(s2) =~= b2.subrange(0, 2));
    assert(be16_bytes(d1) =~= b1.subrange(2, 4));
    assert(be16_bytes(d2) =~= b2.subrange(2, 4));
    assert(be16_bytes(l1) =~= b1.subrange(4, 6));
    assert(be16_bytes(l2) =~= b2.subrange(4, 6));
    assert(be16_bytes(c1) =~= b1.subrange(6, 8));
    assert(be16_bytes(c2) =~= b2.subrange(6, 8));
    assert(p1 =~= b1.subrange(8, b1.len() as int));
    assert(p2 =~= b2.subrange(8, b2.len() as int));
}

} // verus!
