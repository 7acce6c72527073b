//! IPv4 headers.

use vstd::prelude::*;
use crate::net::wire::{be16_bytes, be16_value, splice, read_be16, copy_into, write_be16,
    lemma_be16_inverse, lemma_be16_value_inverse};
use crate::net::checksum::{checksum, internet_checksum, ones_sum, words_sum, fold16, finish,
    lemma_fold16_bound};

verus! {

/// A parsed IPv4 packet; the payload borrows the received bytes.
pub struct Ipv4Packet<'a> {
    pub version: u8,
    pub header_len: u8,
    pub total_len: u16,
    pub protocol: u8,
    pub src: [u8; 4],
    pub dst: [u8; 4],
    pub payload: &'a [u8],
}

/// The 20-byte header that `build` writes, with the given checksum field:
/// version 4, IHL 5, no options, TTL 64, identification and fragment
/// fields zero.
pub open spec fn ipv4_header(total_len: u16, protocol: u8, src: Seq<u8>, dst: Seq<u8>, cksum: u16) -> Seq<u8> {
    seq![0x45u8, 0u8] + be16_bytes(total_len) + seq![0u8, 0u8, 0u8, 0u8, 64u8, protocol]
        + be16_bytes(cksum) + src + dst
}

/// The header with its checksum field filled in.
pub open spec fn ipv4_header_checked(total_len: u16, protocol: u8, src: Seq<u8>, dst: Seq<u8>) -> Seq<u8> {
    ipv4_header(total_len, protocol, src, dst, internet_checksum(ipv4_header(total_len, protocol, src, dst, 0)))
}

/// Header length in bytes given by the IHL nibble of the first byte.
pub open spec fn ihl_bytes(b0: u8) -> nat {
    ((b0 % 16) * 4) as nat
}

impl<'a> Ipv4Packet<'a> {
    /// Parses a packet: `None` below 20 bytes or when shorter than the
    /// header length its IHL field gives. The payload starts after that
    /// header length (as the field gives it, even when below 20).
    pub fn parse(data: &'a [u8]) -> (r: Option<Self>)
        ensures
            r is Some <==> data@.len() >= 20 && data@.len() >= ihl_bytes(data@[0]),
            r matches Some(p) ==> {
                &&& p.version == data@[0] / 16
                &&& p.header_len == ihl_bytes(data@[0])
                &&& p.total_len == be16_value(data@[2], data@[3])
                &&& p.protocol == data@[9]
                &&& p.src@ == data@.subrange(12, 16)
                &&& p.dst@ == data@.subrange(16, 20)
                &&& p.payload@ == data@.subrange(ihl_bytes(data@[0]) as int, data@.len() as int)
            },
    {
        if data.len() < 20 {
            return None;
        }
        let version_ihl = data[0];
        let version = version_ihl / 16;
        let header_len = (version_ihl % 16) * 4;
        if data.len() < header_len as usize {
            return None;
        }
        let total_len = read_be16(data, 2);
        let protocol = data[9];
        let src = [data[12], data[13], data[14], data[15]];
        let dst = [data[16], data[17], data[18], data[19]];
        let payload = &data[header_len as usize..data.len()];
        proof {
            assert(src@ =~= data@.subrange(12, 16));
            assert(dst@ =~= data@.subrange(16, 20));
        }
        Some(Ipv4Packet { version, header_len, total_len, protocol, src, dst, payload })
    }

    /// Writes a 20-byte header for a payload of `payload_len` bytes into
    /// `out`, checksum computed, and returns 20; `None` if `out` is shorter.
    pub fn build(src: [u8; 4], dst: [u8; 4], protocol: u8, payload_len: u16, out: &mut [u8]) -> (r: Option<usize>)
        requires
            payload_len <= 65515,
        ensures
            old(out)@.len() < 20 ==> r is None && final(out)@ == old(out)@,
            old(out)@.len() >= 20 ==> r == Some(20usize) && final(out)@ == splice(old(out)@, 0,
                ipv4_header_checked((20 + payload_len) as u16, protocol, src@, dst@)),
    {
        if out.len() < 20 {
            return None;
        }
        let total_len: u16 = 20 + payload_len;
        out[0] = 0x45;
        out[1] = 0;
        write_be16(out, 2, total_len);
        out[4] = 0;
        out[5] = 0;
        out[6] = 0;
        out[7] = 0;
        out[8] = 64;
        out[9] = protocol;
        write_be16(out, 10, 0);
        copy_into(out, 12, src.as_slice());
        copy_into(out, 16, dst.as_slice());
        let ghost h0 = ipv4_header(total_len, protocol, src@, dst@, 0);
        assert(out@ =~= splice(old(out)@, 0, h0));
        let cksum = checksum(&out[0..20]);
        assert(out@.subrange(0, 20) =~= h0);
        write_be16(out, 10, cksum);
        assert(out@ =~= splice(old(out)@, 0, ipv4_header(total_len, protocol, src@, dst@, cksum)));
        Some(20)
    }
}

/// Reading a header back: the header encoding determines its fields.
pub proof fn ipv4_header_injective(
    t1: u16, p1: u8, s1: Seq<u8>, d1: Seq<u8>, c1: u16,
    t2: u16, p2: u8, s2: Seq<u8>, d2: Seq<u8>, c2: u16,
)
    requires
        s1.len() == 4, d1.len() == 4, s2.len() == 4, d2.len() == 4,
        ipv4_header(t1, p1, s1, d1, c1) == ipv4_header(t2, p2, s2, d2, c2),
    ensures
        t1 == t2, p1 == p2, s1 == s2, d1 == d2, c1 == c2,
{
    let b1 = ipv4_header(t1, p1, s1, d1, c1);
    let b2 = ipv4_header(t2, p2, s2, d2, c2);
    lemma_be16_inverse(t1);
    lemma_be16_inverse(t2);
    lemma_be16_inverse(c1);
    lemma_be16_inverse(c2);
    assert(be16_bytes(t1) =~= b1.subrange(2, 4));
    assert(be16_bytes(t2) =~= b2.subrange(2, 4));
    assert(b1[9] == p1 && b2[9] == p2);
    assert(be16_bytes(c1) =~= b1.subrange(10, 12));
    assert(be16_bytes(c2) =~= b2.subrange(10, 12));
    assert(s1 =~= b1.subrange(12, 16));
    assert(s2 =~= b2.subrange(12, 16));
    assert(d1 =~= b1.subrange(16, 20));
    assert(d2 =~= b2.subrange(16, 20));
}

pub(crate) proof fn lemma_fold16_mod(s: nat)
    ensures
        fold16(s) % 65535 == s % 65535,
        s > 0 ==> fold16(s) > 0,
    decreases s,
{
    if s >= 0x1_0000 {
        let t = (s % 0x1_0000 + s / 0x1_0000) as nat;
        assert(t % 65535 == s % 65535 && t > 0) by (nonlinear_arith)
            requires
                s >= 0x1_0000,
                t == s % 0x1_0000 + s / 0x1_0000,
        {
            let q = s / 0x1_0000;
            let r = s % 0x1_0000;
            assert(s == q * 65536 + r);
            assert(s == q * 65535 + (q + r));
        }
        lemma_fold16_mod(t);
    }
}

/// A header that `build` wrote passes checksum verification: the Internet
/// checksum of the complete header is zero.
pub proof fn ipv4_built_header_verifies(total_len: u16, protocol: u8, src: Seq<u8>, dst: Seq<u8>)
    requires
        src.len() == 4,
        dst.len() == 4,
    ensures
        internet_checksum(ipv4_header_checked(total_len, protocol, src, dst)) == 0,
{
    let h0 = ipv4_header(total_len, protocol, src, dst, 0);
    let c = internet_checksum(h0);
    let h1 = ipv4_header(total_len, protocol, src, dst, c);
    reveal_with_fuel(words_sum, 11);
    lemma_be16_inverse(c);
    lemma_be16_inverse(total_len);
    assert(h0.len() == 20 && h1.len() == 20);
    assert(ones_sum(h1) == ones_sum(h0) + c);
    let s0 = ones_sum(h0);
    lemma_fold16_bound(s0);
    lemma_fold16_mod(s0);
    assert(c == 0xFFFF - fold16(s0));
    let s1 = s0 + c;
    assert(s1 > 0);
    assert(s1 % 65535 == 0) by (nonlinear_arith)
        requires
            s1 == s0 + 0xFFFF - fold16(s0),
            fold16(s0) % 65535 == s0 % 65535,
            fold16(s0) < 0x1_0000,
    {
    }
    lemma_fold16_mod(s1 as nat);
    lemma_fold16_bound(s1 as nat);
    assert(fold16(s1 as nat) == 65535);
}

} // verus!
