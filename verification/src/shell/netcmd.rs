//! The decisions behind the shell's network commands: which addresses to
//! use, the ARP request they send, and which received frames answer them.

use vstd::prelude::*;
use crate::net::NetConfig;
use crate::net::wire::be16_value;
use crate::net::arp::{ArpPacket, arp_acceptable, arp_bytes, ARP_REQUEST, ARP_REPLY};
use crate::net::ethernet::{EthernetFrame, ethernet_bytes, ETHERTYPE_ARP, ETHERTYPE_IPV4, MIN_FRAME_LEN};
use crate::net::ipv4::{Ipv4Packet, ihl_bytes};
use crate::net::echo::{is_echo_reply, PROTO_CONTROL, ECHO_REPLY};
use crate::net::tcp::{zeroed, ip_eq};

verus! {

/// The address used before any configuration.
pub const DEFAULT_IP: [u8; 4] = [10, 0, 2, 15];
/// The gateway assumed before any configuration.
pub const DEFAULT_GATEWAY: [u8; 4] = [10, 0, 2, 2];

/// Our address: the configured one, else 10.0.2.15.
pub fn local_ip(cfg: Option<NetConfig>) -> (r: [u8; 4])
    ensures
        r == match cfg { Some(c) => c.ip, None => [10u8, 0u8, 2u8, 15u8] },
{
    match cfg {
        Some(c) => c.ip,
        None => [10, 0, 2, 15],
    }
}

/// The gateway: the configured one, else 10.0.2.2.
pub fn gateway_ip(cfg: Option<NetConfig>) -> (r: [u8; 4])
    ensures
        r == match cfg { Some(c) => c.gateway, None => [10u8, 0u8, 2u8, 2u8] },
{
    match cfg {
        Some(c) => c.gateway,
        None => [10, 0, 2, 2],
    }
}

/// The broadcast frame asking who has `target_ip`.
pub open spec fn who_has_frame(our_mac: [u8; 6], our_ip: [u8; 4], target_ip: [u8; 4]) -> Seq<u8> {
    ethernet_bytes(seq![0xFFu8, 0xFF, 0xFF, 0xFF, 0xFF, 0xFF], our_mac@, ETHERTYPE_ARP,
        arp_bytes(1, 0x0800, ARP_REQUEST, our_mac@, our_ip@, seq![0u8, 0, 0, 0, 0, 0], target_ip@))
}

/// The 42-byte broadcast ARP request for `target_ip` from `our_mac` and
/// `our_ip`.
pub fn who_has(our_mac: [u8; 6], our_ip: [u8; 4], target_ip: [u8; 4]) -> (r: Vec<u8>)
    ensures
        r@ == who_has_frame(our_mac, our_ip, target_ip),
        r@.len() == 42,
{
    let mut arp_buf = zeroed(28);
    let _ = ArpPacket::build_request(our_mac, our_ip, target_ip, arp_buf.as_mut_slice());
    let mut eth_buf = zeroed(42);
    let bcast: [u8; 6] = [0xFF, 0xFF, 0xFF, 0xFF, 0xFF, 0xFF];
    let _ = EthernetFrame::build(bcast, our_mac, ETHERTYPE_ARP, arp_buf.as_slice(), eth_buf.as_mut_slice());
    proof {
        assert(bcast@ =~= seq![0xFFu8, 0xFF, 0xFF, 0xFF, 0xFF, 0xFF]);
        assert(arp_buf@ =~= arp_bytes(1, 0x0800, ARP_REQUEST, our_mac@, our_ip@, seq![0u8, 0, 0, 0, 0, 0], target_ip@));
        assert(eth_buf@ =~= who_has_frame(our_mac, our_ip, target_ip));
    }
    eth_buf
}

/// The sender's hardware address if `frame` is an ARP reply (opcode 2)
/// from `from_ip`, and, where `to_ip` is given, addressed to it.
pub open spec fn arp_reply_mac(frame: Seq<u8>, from_ip: [u8; 4], to_ip: Option<[u8; 4]>) -> Option<Seq<u8>> {
    if frame.len() >= MIN_FRAME_LEN && be16_value(frame[12], frame[13]) == ETHERTYPE_ARP
        && arp_acceptable(frame.subrange(14, frame.len() as int))
        && be16_value(frame[20], frame[21]) == ARP_REPLY
        && frame.subrange(28, 32) == from_ip@
        && (to_ip matches Some(ip) ==> frame.subrange(38, 42) == ip@)
    {
        Some(frame.subrange(22, 28))
    } else {
        None
    }
}

/// Recognises the ARP reply that `arpwhois` (with `to_ip`) and the MAC
/// lookup before a ping (without) wait for, and gives the sender's MAC.
pub fn arp_reply_from(frame: &[u8], from_ip: [u8; 4], to_ip: Option<[u8; 4]>) -> (r: Option<[u8; 6]>)
    ensures
        r is Some <==> arp_reply_mac(frame@, from_ip, to_ip) is Some,
        r matches Some(m) ==> m@ == arp_reply_mac(frame@, from_ip, to_ip)->0,
{
    let eth = match EthernetFrame::parse(frame) {
        Some(e) => e,
        None => return None,
    };
    proof {
        crate::net::wire::lemma_be16_inverse(eth.ethertype);
        assert(eth.payload@ =~= frame@.subrange(14, frame@.len() as int));
    }
    if eth.ethertype != ETHERTYPE_ARP {
        return None;
    }
    let pkt = match ArpPacket::parse(eth.payload) {
        Some(p) => p,
        None => return None,
    };
    proof {
        let a = eth.payload@.subrange(0, 28);
        crate::net::wire::lemma_be16_inverse(pkt.opcode);
        assert(a[6] == frame@[20] && a[7] == frame@[21]);
        assert(pkt.sender_mac@ =~= a.subrange(8, 14));
        assert(pkt.sender_ip@ =~= a.subrange(14, 18));
        assert(pkt.target_ip@ =~= a.subrange(24, 28));
        assert(a.subrange(8, 14) =~= frame@.subrange(22, 28));
        assert(a.subrange(14, 18) =~= frame@.subrange(28, 32));
        assert(a.subrange(24, 28) =~= frame@.subrange(38, 42));
    }
    if pkt.opcode != ARP_REPLY || !ip_eq(pkt.sender_ip, from_ip) {
        return None;
    }
    match to_ip {
        Some(ip) => if !ip_eq(pkt.target_ip, ip) {
            return None;
        },
        None => {},
    }
    proof {
        assert(pkt.sender_ip@ == from_ip@);
    }
    Some(pkt.sender_mac)
}

/// The source address if `frame` carries an echo reply: an IPv4 frame
/// whose packet is ICMP with at least 8 payload bytes, the first being 0.
pub open spec fn echo_reply_source(frame: Seq<u8>) -> Option<Seq<u8>> {
    if frame.len() >= MIN_FRAME_LEN && be16_value(frame[12], frame[13]) == ETHERTYPE_IPV4 && {
        let p = frame.subrange(14, frame.len() as int);
        &&& p.len() >= 20
        &&& p.len() >= ihl_bytes(p[0])
        &&& p[9] == PROTO_CONTROL
        &&& p.len() - ihl_bytes(p[0]) >= 8
        &&& p[ihl_bytes(p[0]) as int] == ECHO_REPLY
    } {
        Some(frame.subrange(26, 30))
    } else {
        None
    }
}

/// Recognises the reply that `ping` waits for and gives its sender.
pub fn echo_reply_from(frame: &[u8]) -> (r: Option<[u8; 4]>)
    ensures
        r is Some <==> echo_reply_source(frame@) is Some,
        r matches Some(ip) ==> ip@ == echo_reply_source(frame@)->0,
{
    let eth = match EthernetFrame::parse(frame) {
        Some(e) => e,
        None => return None,
    };
    proof {
        crate::net::wire::lemma_be16_inverse(eth.ethertype);
        assert(eth.payload@ =~= frame@.subrange(14, frame@.len() as int));
    }
    if eth.ethertype != ETHERTYPE_IPV4 {
        return None;
    }
    let ip = match Ipv4Packet::parse(eth.payload) {
        Some(p) => p,
        None => return None,
    };
    if is_echo_reply(&ip) {
        proof {
            assert(ip.src@ =~= frame@.subrange(26, 30));
        }
        Some(ip.src)
    } else {
        None
    }
}

/// The hardware address QEMU's user-mode gateway 10.0.2.2 is reached at
/// without asking (it answers no ARP).
pub fn known_gateway_mac(target_ip: [u8; 4]) -> (r: Option<[u8; 6]>)
    ensures
        r is Some <==> target_ip@ == seq![10u8, 0u8, 2u8, 2u8],
        r matches Some(m) ==> m@ == seq![0x52u8, 0x55u8, 0x0au8, 0x00u8, 0x02u8, 0x02u8],
{
    if ip_eq(target_ip, [10, 0, 2, 2]) {
        let m: [u8; 6] = [0x52, 0x55, 0x0a, 0x00, 0x02, 0x02];
        assert(m@ =~= seq![0x52u8, 0x55u8, 0x0au8, 0x00u8, 0x02u8, 0x02u8]);
        assert([10u8, 0u8, 2u8, 2u8]@ =~= seq![10u8, 0u8, 2u8, 2u8]);
        Some(m)
    } else {
        assert([10u8, 0u8, 2u8, 2u8]@ =~= seq![10u8, 0u8, 2u8, 2u8]);
        None
    }
}

/// The address used when no ARP reply came: 52:55:0a and the first three
/// bytes of the target address.
pub fn fallback_mac(target_ip: [u8; 4]) -> (r: [u8; 6])
    ensures
        r@ == seq![0x52u8, 0x55u8, 0x0au8, target_ip[0], target_ip[1], target_ip[2]],
{
    let r = [0x52, 0x55, 0x0a, target_ip[0], target_ip[1], target_ip[2]];
    assert(r@ =~= seq![0x52u8, 0x55u8, 0x0au8, target_ip[0], target_ip[1], target_ip[2]]);
    r
}

/// The local port `tcpconnect` takes at a given millisecond count:
/// 1024 plus the count modulo 64512.
pub fn ephemeral_port(millis: u64) -> (r: u16)
    ensures
        r == 1024 + millis % 64512,
{
    (1024 + millis % 64512) as u16
}

/// `used` as a whole percentage of `total`, rounded down.
pub fn percent(used: u64, total: u64) -> (r: u64)
    requires
        total > 0,
        used * 100 <= u64::MAX,
    ensures
        r == (used * 100) / (total as int),
{
    used * 100 / total
}

/// Hours, minutes and seconds of an uptime in seconds.
pub fn hms(secs: u64) -> (r: (u64, u64, u64))
    ensures
        r.0 == secs / 3600,
        r.1 == secs % 3600 / 60,
        r.2 == secs % 60,
{
    (secs / 3600, (secs % 3600) / 60, secs % 60)
}

/// What a network command waits for.
#[derive(Clone, Copy)]
pub enum WaitFor {
    /// An ARP reply from `from` (addressed to `to`, where given).
    ArpReply([u8; 4], Option<[u8; 4]>),
    /// An echo reply.
    EchoReply,
    /// Any frame at all.
    AnyFrame,
}

/// Where a wait stands after one look at the clock, the receive ring and
/// the keyboard.
pub enum WaitVerdict {
    /// Keep waiting.
    Continue,
    /// The deadline has passed.
    TimedOut,
    /// The user aborted.
    Aborted,
    /// The awaited ARP reply came, from this hardware address.
    ArpReply([u8; 6]),
    /// An echo reply came from this address.
    EchoReply([u8; 4]),
    /// A frame came.
    Frame(Vec<u8>),
}

/// One step of a wait with deadline `deadline`: at or past the deadline it
/// has timed out; otherwise a received frame that answers ends it; otherwise
/// an abort request (where the command honours one) ends it; else it goes
/// on.
pub fn wait_step(what: WaitFor, deadline: u64, now: u64, frame: Option<&[u8]>, abort: bool) -> (r: WaitVerdict)
    ensures
        now >= deadline ==> r is TimedOut,
        now < deadline ==> match (what, frame) {
            (WaitFor::ArpReply(from, to), Some(f)) if arp_reply_mac(f@, from, to) is Some =>
                r matches WaitVerdict::ArpReply(m) && m@ == arp_reply_mac(f@, from, to)->0,
            (WaitFor::EchoReply, Some(f)) if echo_reply_source(f@) is Some =>
                r matches WaitVerdict::EchoReply(ip) && ip@ == echo_reply_source(f@)->0,
            (WaitFor::AnyFrame, Some(f)) => r matches WaitVerdict::Frame(v) && v@ == f@,
            _ => if abort { r is Aborted } else { r is Continue },
        },
{
    if now >= deadline {
        return WaitVerdict::TimedOut;
    }
    if let Some(f) = frame {
        match what {
            WaitFor::ArpReply(from, to) => {
                if let Some(m) = arp_reply_from(f, from, to) {
                    return WaitVerdict::ArpReply(m);
                }
            },
            WaitFor::EchoReply => {
                if let Some(ip) = echo_reply_from(f) {
                    return WaitVerdict::EchoReply(ip);
                }
            },
            WaitFor::AnyFrame => {
                return WaitVerdict::Frame(vstd::slice::slice_to_vec(f));
            },
        }
    }
    if abort { WaitVerdict::Aborted } else { WaitVerdict::Continue }
}

} // verus!
