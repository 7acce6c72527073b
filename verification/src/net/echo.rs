//! Echo (ping) messages: the request the shell's `ping` sends and how a reply is
//! recognised.

use vstd::prelude::*;
use crate::net::wire::{be16_bytes, write_be16, splice};
use crate::net::checksum::{checksum, internet_checksum};
use crate::net::ipv4::{Ipv4Packet, ipv4_header_checked};
use crate::net::ethernet::{EthernetFrame, ethernet_bytes};

verus! {

pub const ECHO_REQUEST: u8 = 8;
pub const ECHO_REPLY: u8 = 0;
pub const PROTO_CONTROL: u8 = 1;

/// The request's payload: "RustKernel".
pub open spec fn echo_payload() -> Seq<u8> {
    seq![82u8, 117u8, 115u8, 116u8, 75u8, 101u8, 114u8, 110u8, 101u8, 108u8]
}

/// The request with its checksum field zero: type 8, code 0, identifier 1,
/// sequence 1, then the payload.
pub open spec fn echo_unsummed() -> Seq<u8> {
    seq![8u8, 0u8, 0u8, 0u8, 0u8, 1u8, 0u8, 1u8] + echo_payload()
}

/// The echo request: its checksum is the Internet checksum of the request
/// with a zero checksum field.
pub open spec fn echo_request_spec() -> Seq<u8> {
    splice(echo_unsummed(), 2, be16_bytes(internet_checksum(echo_unsummed())))
}

/// The echo request the shell sends.
pub fn echo_request() -> (r: Vec<u8>)
    ensures
        r@ == echo_request_spec(),
        r@.len() == 18,
{
    let mut v: Vec<u8> = vec![8u8, 0u8, 0u8, 0u8, 0u8, 1u8, 0u8, 1u8, 82u8, 117u8, 115u8, 116u8, 75u8, 101u8, 114u8, 110u8, 101u8, 108u8];
    assert(v@ =~= echo_unsummed());
    let c = checksum(v.as_slice());
    write_be16(v.as_mut_slice(), 2, c);
    assert(v@ =~= echo_request_spec());
    v
}

/// An IPv4 packet is an echo reply: ICMP, at least the 8-byte ICMP header,
/// type 0.
pub fn is_echo_reply(ip: &Ipv4Packet) -> (r: bool)
    ensures
        r == (ip.protocol == PROTO_CONTROL && ip.payload@.len() >= 8 && ip.payload@[0] == ECHO_REPLY),
{
    ip.protocol == PROTO_CONTROL && ip.payload.len() >= 8 && ip.payload[0] == ECHO_REPLY
}

/// The Ethernet frame carrying an echo request from `src_ip` to `dst_ip`.
pub open spec fn ping_frame_spec(dst_mac: [u8; 6], src_mac: [u8; 6], src_ip: [u8; 4], dst_ip: [u8; 4]) -> Seq<u8> {
    ethernet_bytes(dst_mac@, src_mac@, 0x0800, ipv4_header_checked(38, PROTO_CONTROL, src_ip@, dst_ip@) + echo_request_spec())
}

/// The frame `ping` sends: the echo request in an IPv4 packet (protocol 1)
/// in an Ethernet frame of type 0x0800.
pub fn ping_frame(dst_mac: [u8; 6], src_mac: [u8; 6], src_ip: [u8; 4], dst_ip: [u8; 4]) -> (r: Vec<u8>)
    ensures
        r@ == ping_frame_spec(dst_mac, src_mac, src_ip, dst_ip),
{
    let req = echo_request();
    let mut ip_buf: Vec<u8> = Vec::new();
    let mut k: usize = 0;
    while k < 38
        invariant
            k <= 38,
            ip_buf@ == Seq::new(k as nat, |i: int| 0u8),
        decreases 38 - k,
    {
        ip_buf.push(0);
        k = k + 1;
        assert(ip_buf@ =~= Seq::new(k as nat, |i: int| 0u8));
    }
    let ghost z = ip_buf@;
    let hl = Ipv4Packet::build(src_ip, dst_ip, PROTO_CONTROL, 18, ip_buf.as_mut_slice());
    let ghost hdr = ipv4_header_checked(38, PROTO_CONTROL, src_ip@, dst_ip@);
    assert(hdr.len() == 20);
    assert forall|i: int| 0 <= i < 38 implies #[trigger] ip_buf@[i] == if i < 20 { hdr[i] } else { 0u8 } by {
        assert(ip_buf@ == splice(z, 0, hdr));
    }
    let mut j: usize = 0;
    while j < 18
        invariant
            j <= 18,
            req@.len() == 18,
            ip_buf@.len() == 38,
            hdr.len() == 20,
            forall|i: int| 0 <= i < 38 ==> #[trigger] ip_buf@[i] == if i < 20 {
                hdr[i]
            } else if i < 20 + j {
                req@[i - 20]
            } else {
                0u8
            },
        decreases 18 - j,
    {
        ip_buf.set(20 + j, req[j]);
        j = j + 1;
    }
    assert(ip_buf@ =~= hdr + req@);
    let mut frame: Vec<u8> = Vec::new();
    let mut m: usize = 0;
    while m < 52
        invariant
            m <= 52,
            frame@ == Seq::new(m as nat, |i: int| 0u8),
        decreases 52 - m,
    {
        frame.push(0);
        m = m + 1;
        assert(frame@ =~= Seq::new(m as nat, |i: int| 0u8));
    }
    let _ = EthernetFrame::build(dst_mac, src_mac, 0x0800, ip_buf.as_slice(), frame.as_mut_slice());
    assert(frame@ =~= ping_frame_spec(dst_mac, src_mac, src_ip, dst_ip));
    frame
}

} // verus!
