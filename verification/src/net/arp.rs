//! ARP over Ethernet/IPv4.

use vstd::prelude::*;
use crate::net::wire::{be16_bytes, be16_value, splice, read_be16, copy_into, write_be16,
    lemma_be16_inverse, lemma_be16_value_inverse};

verus! {

pub const ARP_REQUEST: u16 = 1;
pub const ARP_REPLY: u16 = 2;

/// An ARP packet for Ethernet hardware and IPv4 protocol addresses.
pub struct ArpPacket {
    pub hw_type: u16,
    pub proto_type: u16,
    pub opcode: u16,
    pub sender_mac: [u8; 6],
    pub sender_ip: [u8; 4],
    pub target_mac: [u8; 6],
    pub target_ip: [u8; 4],
}

/// The 28 bytes of an Ethernet/IPv4 ARP packet.
pub open spec fn arp_bytes(
    hw_type: u16, proto_type: u16, opcode: u16,
    sender_mac: Seq<u8>, sender_ip: Seq<u8>, target_mac: Seq<u8>, target_ip: Seq<u8>,
) -> Seq<u8> {
    be16_bytes(hw_type) + be16_bytes(proto_type) + seq![6u8, 4u8] + be16_bytes(opcode)
        + sender_mac + sender_ip + target_mac + target_ip
}

/// Whether the first 28 bytes of `data` carry an Ethernet/IPv4 ARP header.
pub open spec fn arp_acceptable(data: Seq<u8>) -> bool {
    &&& data.len() >= 28
    &&& be16_value(data[0], data[1]) == 1
    &&& be16_value(data[2], data[3]) == 0x0800
    &&& data[4] == 6
    &&& data[5] == 4
}

impl ArpPacket {
    /// Writes a who-has request for `target_ip` (target MAC unknown, all
    /// zero) into `out` and returns 28, or `None` if `out` is shorter.
    pub fn build_request(sender_mac: [u8; 6], sender_ip: [u8; 4], target_ip: [u8; 4], out: &mut [u8]) -> (r: Option<usize>)
        ensures
            old(out)@.len() < 28 ==> r is None && final(out)@ == old(out)@,
            old(out)@.len() >= 28 ==> r == Some(28usize) && final(out)@ == splice(old(out)@, 0,
                arp_bytes(1, 0x0800, ARP_REQUEST, sender_mac@, sender_ip@, seq![0u8, 0, 0, 0, 0, 0], target_ip@)),
    {
        if out.len() < 28 {
            return None;
        }
        write_be16(out, 0, 1);
        write_be16(out, 2, 0x0800);
        out[4] = 6;
        out[5] = 4;
        write_be16(out, 6, ARP_REQUEST);
        copy_into(out, 8, sender_mac.as_slice());
        copy_into(out, 14, sender_ip.as_slice());
        let zeros = [0u8; 6];
        copy_into(out, 18, zeros.as_slice());
        copy_into(out, 24, target_ip.as_slice());
        proof {
            assert(zeros@ =~= seq![0u8, 0, 0, 0, 0, 0]);
            assert(out@ =~= splice(old(out)@, 0,
                arp_bytes(1, 0x0800, ARP_REQUEST, sender_mac@, sender_ip@, zeros@, target_ip@)));
        }
        Some(28)
    }

    /// Parses an ARP packet; `None` unless it is at least 28 bytes long
    /// with hardware type 1, protocol 0x0800 and address lengths 6 and 4.
    pub fn parse(data: &[u8]) -> (r: Option<Self>)
        ensures
            r is Some <==> arp_acceptable(data@),
            r matches Some(p) ==> p.hw_type == 1 && p.proto_type == 0x0800
                && data@.subrange(0, 28) == arp_bytes(p.hw_type, p.proto_type, p.opcode,
                    p.sender_mac@, p.sender_ip@, p.target_mac@, p.target_ip@),
    {
        if data.len() < 28 {
            return None;
        }
        let hw_type = read_be16(data, 0);
        let proto_type = read_be16(data, 2);
        let hlen = data[4];
        let plen = data[5];
        if hw_type != 1 || proto_type != 0x0800 || hlen != 6 || plen != 4 {
            return None;
        }
        let opcode = read_be16(data, 6);
        let sender_mac = [data[8], data[9], data[10], data[11], data[12], data[13]];
        let sender_ip = [data[14], data[15], data[16], data[17]];
        let target_mac = [data[18], data[19], data[20], data[21], data[22], data[23]];
        let target_ip = [data[24], data[25], data[26], data[27]];
        proof {
            lemma_be16_value_inverse(data@[0], data@[1]);
            lemma_be16_value_inverse(data@[2], data@[3]);
            lemma_be16_value_inverse(data@[6], data@[7]);
            assert(data@.subrange(0, 28) =~= arp_bytes(hw_type, proto_type, opcode,
                sender_mac@, sender_ip@, target_mac@, target_ip@));
        }
        Some(ArpPacket { hw_type, proto_type, opcode, sender_mac, sender_ip, target_mac, target_ip })
    }
}

/// Parsing a request that `build_request` wrote gives back its fields: the
/// ARP encoding is injective.
pub proof fn arp_encoding_injective(
    h1: u16, p1: u16, o1: u16, sm1: Seq<u8>, si1: Seq<u8>, tm1: Seq<u8>, ti1: Seq<u8>,
    h2: u16, p2: u16, o2: u16, sm2: Seq<u8>, si2: Seq<u8>, tm2: Seq<u8>, ti2: Seq<u8>,
)
    requires
        sm1.len() == 6, si1.len() == 4, tm1.len() == 6, ti1.len() == 4,
        sm2.len() == 6, si2.len() == 4, tm2.len() == 6, ti2.len() == 4,
        arp_bytes(h1, p1, o1, sm1, si1, tm1, ti1) == arp_bytes(h2, p2, o2, sm2, si2, tm2, ti2),
    ensures
        h1 == h2, p1 == p2, o1 == o2, sm1 == sm2, si1 == si2, tm1 == tm2, ti1 == ti2,
{
    let b1 = arp_bytes(h1, p1, o1, sm1, si1, tm1, ti1);
    let b2 = arp_bytes(h2, p2, o2, sm2, si2, tm2, ti2);
    lemma_be16_inverse(h1);
    lemma_be16_inverse(h2);
    lemma_be16_inverse(p1);
    lemma_be16_inverse(p2);
    lemma_be16_inverse(o1);
    lemma_be16_inverse(o2);
    assert(be16_bytes(h1) =~= b1.subrange(0, 2));
    assert(be16_bytes(h2) =~= b2.subrange(0, 2));
    assert(be16_bytes(p1) =~= b1.subrange(2, 4));
    assert(be16_bytes(p2) =~= b2.subrange(2, 4));
    assert(be16_bytes(o1) =~= b1.subrange(6, 8));
    assert(be16_bytes(o2) =~= b2.subrange(6, 8));
    assert(sm1 =~= b1.subrange(8, 14));
    assert(sm2 =~= b2.subrange(8, 14));
    assert(si1 =~= b1.subrange(14, 18));
    assert(si2 =~= b2.subrange(14, 18));
    assert(tm1 =~= b1.subrange(18, 24));
    assert(tm2 =~= b2.subrange(18, 24));
    assert(ti1 =~= b1.subrange(24, 28));
    assert(ti2 =~= b2.subrange(24, 28));
}

} // verus!
