//! DHCP client: message format, option parsing, and the
//! discover/offer/request/ack exchange as a state machine.

use vstd::prelude::*;
use crate::net::wire::{be32_bytes, be32_value, read_be32, push_be32, push_slice, copy_into};
use crate::net::NetConfig;

verus! {

pub const DHCP_SERVER: u16 = 67;
pub const DHCP_CLIENT: u16 = 68;
pub const OP_BOOTREQUEST: u8 = 1;
pub const OP_BOOTREPLY: u8 = 2;
pub const DHCP_DISCOVER: u8 = 1;
pub const DHCP_REQUEST: u8 = 3;
pub const DHCP_ACK: u8 = 5;
pub const DHCP_MSG_SIZE: usize = 240;
pub const MAGIC_COOKIE: [u8; 4] = [0x63, 0x82, 0x53, 0x63];

/// Parsed options: message type, subnet mask, router, DNS server, server id.
pub type DhcpOptions = (u8, Option<[u8; 4]>, Option<[u8; 4]>, Option<[u8; 4]>, Option<[u8; 4]>);

/// A parsed reply: message type, offered address, then the options.
pub type DhcpReply = (u8, Option<[u8; 4]>, Option<[u8; 4]>, Option<[u8; 4]>, Option<[u8; 4]>, Option<[u8; 4]>);

pub open spec fn zeros(n: nat) -> Seq<u8> {
    Seq::new(n, |i: int| 0u8)
}

pub open spec fn cookie() -> Seq<u8> {
    seq![0x63u8, 0x82u8, 0x53u8, 0x63u8]
}

/// An optional 4-byte option with its tag.
pub open spec fn opt4(tag: u8, v: Option<[u8; 4]>) -> Seq<u8> {
    match v {
        Some(a) => seq![tag, 4u8] + a@,
        None => seq![],
    }
}

/// The options a client message carries.
pub open spec fn client_options(msg_type: u8, req_ip: Option<[u8; 4]>, server_id: Option<[u8; 4]>) -> Seq<u8> {
    seq![53u8, 1u8, msg_type] + opt4(50, req_ip) + opt4(54, server_id)
        + seq![55u8, 3u8, 1u8, 3u8, 6u8] + seq![12u8, 2u8, 0x6fu8, 0x73u8] + seq![255u8]
}

/// A client message: the fixed BOOTP part (broadcast flag set, hardware
/// address `mac`), the magic cookie, then the options.
pub open spec fn dhcp_msg_bytes(op: u8, xid: u32, mac: Seq<u8>, msg_type: u8,
    req_ip: Option<[u8; 4]>, server_id: Option<[u8; 4]>) -> Seq<u8> {
    seq![op, 1u8, 6u8, 0u8] + be32_bytes(xid) + seq![0u8, 0u8, 0x80u8, 0u8] + zeros(16) + mac + zeros(10)
        + zeros(64) + zeros(128) + cookie() + client_options(msg_type, req_ip, server_id)
}

fn push_zeros(v: &mut Vec<u8>, n: usize)
    ensures
        final(v)@ == old(v)@ + zeros(n as nat),
{
    let mut i: usize = 0;
    while i < n
        invariant
            i <= n,
            v@ == old(v)@ + zeros(i as nat),
        decreases n - i,
    {
        v.push(0);
        i = i + 1;
        assert(v@ =~= old(v)@ + zeros(i as nat));
    }
}

fn push_opt4(v: &mut Vec<u8>, tag: u8, x: Option<[u8; 4]>)
    ensures
        final(v)@ == old(v)@ + opt4(tag, x),
{
    if let Some(a) = x {
        v.push(tag);
        v.push(4);
        push_slice(v, a.as_slice());
        assert(v@ =~= old(v)@ + opt4(tag, x));
    } else {
        assert(v@ =~= old(v)@ + opt4(tag, x));
    }
}

/// Builds a client message (see `dhcp_msg_bytes`); it is always longer
/// than the 240-byte minimum, so no padding is added.
pub fn build_dhcp_msg(op: u8, xid: u32, mac: &[u8; 6], msg_type: u8, req_ip: Option<[u8; 4]>, server_id: Option<[u8; 4]>) -> (v: Vec<u8>)
    ensures
        v@ == dhcp_msg_bytes(op, xid, mac@, msg_type, req_ip, server_id),
        v@.len() >= DHCP_MSG_SIZE,
{
    let mut buf: Vec<u8> = Vec::new();
    buf.push(op);
    buf.push(1);
    buf.push(6);
    buf.push(0);
    push_be32(&mut buf, xid);
    buf.push(0);
    buf.push(0);
    buf.push(0x80);
    buf.push(0);
    push_zeros(&mut buf, 16);
    push_slice(&mut buf, mac.as_slice());
    push_zeros(&mut buf, 10);
    push_zeros(&mut buf, 64);
    push_zeros(&mut buf, 128);
    push_slice(&mut buf, MAGIC_COOKIE.as_slice());
    buf.push(53);
    buf.push(1);
    buf.push(msg_type);
    push_opt4(&mut buf, 50, req_ip);
    push_opt4(&mut buf, 54, server_id);
    buf.push(55);
    buf.push(3);
    buf.push(1);
    buf.push(3);
    buf.push(6);
    buf.push(12);
    buf.push(2);
    buf.push(0x6f);
    buf.push(0x73);
    buf.push(255);
    proof {
        assert(MAGIC_COOKIE@ =~= cookie());
        assert(buf@ =~= dhcp_msg_bytes(op, xid, mac@, msg_type, req_ip, server_id));
    }
    while buf.len() < DHCP_MSG_SIZE
        invariant
            buf@ == dhcp_msg_bytes(op, xid, mac@, msg_type, req_ip, server_id),
            buf@.len() >= DHCP_MSG_SIZE,
        decreases DHCP_MSG_SIZE - buf@.len(),
    {
        buf.push(0);
    }
    buf
}

/// The four bytes at `i`.
pub open spec fn quad(s: Seq<u8>, i: int) -> [u8; 4] {
    [s[i], s[i + 1], s[i + 2], s[i + 3]]
}

/// The effect of one option with tag `tag` and length `len` at `i`:
/// message type (53, length 1), server id (54), subnet mask (1) and router
/// (3) of length 4, DNS (6) of length at least 4 (first address); any
/// other option is skipped.
pub open spec fn apply_option(o: Seq<u8>, i: int, tag: u8, len: nat, acc: DhcpOptions) -> DhcpOptions {
    if tag == 53 && len == 1 {
        (o[i + 2], acc.1, acc.2, acc.3, acc.4)
    } else if tag == 54 && len == 4 {
        (acc.0, acc.1, acc.2, acc.3, Some(quad(o, i + 2)))
    } else if tag == 1 && len == 4 {
        (acc.0, Some(quad(o, i + 2)), acc.2, acc.3, acc.4)
    } else if tag == 3 && len == 4 {
        (acc.0, acc.1, Some(quad(o, i + 2)), acc.3, acc.4)
    } else if tag == 6 && len >= 4 {
        (acc.0, acc.1, acc.2, Some(quad(o, i + 2)), acc.4)
    } else {
        acc
    }
}

/// The options from position `i` on: pad bytes (0) are skipped, END (255)
/// or a truncated option stops the scan.
pub open spec fn scan_options(o: Seq<u8>, i: nat, acc: DhcpOptions) -> DhcpOptions
    decreases o.len() - i,
{
    if i >= o.len() {
        acc
    } else if o[i as int] == 0 {
        scan_options(o, i + 1, acc)
    } else if o[i as int] == 255 {
        acc
    } else if i + 1 >= o.len() {
        acc
    } else if i + 2 + o[i + 1int] > o.len() {
        acc
    } else {
        scan_options(o, (i + 2 + o[i + 1int]) as nat, apply_option(o, i as int, o[i as int], o[i + 1int] as nat, acc))
    }
}

pub open spec fn no_options() -> DhcpOptions {
    (0u8, None, None, None, None)
}

/// A DNS option lists one or more servers, and the first of them is the
/// DNS server: after an optional message-type option, a DNS option (tag 6)
/// of any length of at least 4 gives its first four data bytes as the DNS
/// address, whatever follows them within the option.
pub proof fn dns_option_gives_first_server(t: u8, addr: Seq<u8>, more: Seq<u8>, with_type: bool)
    requires
        addr.len() == 4,
        4 + more.len() <= 255,
    ensures
        ({
            let dns = seq![6u8, (4 + more.len()) as u8] + addr + more;
            let o = if with_type { seq![53u8, 1u8, t] + dns + seq![255u8] } else { dns + seq![255u8] };
            scan_options(o, 0, no_options())
                == (if with_type { t } else { 0u8 }, None::<[u8; 4]>, None::<[u8; 4]>,
                    Some([addr[0], addr[1], addr[2], addr[3]]), None::<[u8; 4]>)
        }),
{
    let dns = seq![6u8, (4 + more.len()) as u8] + addr + more;
    let n: int = 6 + more.len() as int;
    assert(dns.len() == n);
    if with_type {
        let o = seq![53u8, 1u8, t] + dns + seq![255u8];
        assert(o[0] == 53u8 && o[1] == 1u8 && o[2] == t);
        assert(o[3] == 6u8 && o[4] == (4 + more.len()) as u8);
        assert(o[3 + n] == 255u8);
        let a1 = apply_option(o, 0, 53, 1, no_options());
        assert(a1 == (t, None::<[u8; 4]>, None::<[u8; 4]>, None::<[u8; 4]>, None::<[u8; 4]>));
        let a2 = apply_option(o, 3, 6, (4 + more.len()) as nat, a1);
        assert(quad(o, 5) == [addr[0], addr[1], addr[2], addr[3]]) by {
            assert(o[5] == addr[0] && o[6] == addr[1] && o[7] == addr[2] && o[8] == addr[3]);
        }
        assert(scan_options(o, (3 + n) as nat, a2) == a2);
        assert(scan_options(o, 3, a1) == scan_options(o, (3 + n) as nat, a2));
        assert(scan_options(o, 0, no_options()) == scan_options(o, 3, a1));
    } else {
        let o = dns + seq![255u8];
        assert(o[0] == 6u8 && o[1] == (4 + more.len()) as u8);
        assert(o[n] == 255u8);
        let a2 = apply_option(o, 0, 6, (4 + more.len()) as nat, no_options());
        assert(quad(o, 2) == [addr[0], addr[1], addr[2], addr[3]]) by {
            assert(o[2] == addr[0] && o[3] == addr[1] && o[4] == addr[2] && o[5] == addr[3]);
        }
        assert(scan_options(o, n as nat, a2) == a2);
        assert(scan_options(o, 0, no_options()) == scan_options(o, n as nat, a2));
    }
}

/// The four values of a 4-byte sequence as an address.
pub open spec fn addr_of(a: Seq<u8>) -> [u8; 4] {
    [a[0], a[1], a[2], a[3]]
}

/// A lease reply that carries the message type, subnet mask, router, DNS
/// server and server id, each in its own option and in that order, yields
/// each value in its own place of the result.
pub proof fn lease_options_each_in_place(t: u8, mask: Seq<u8>, router: Seq<u8>, dns: Seq<u8>, sid: Seq<u8>)
    requires
        mask.len() == 4,
        router.len() == 4,
        dns.len() == 4,
        sid.len() == 4,
    ensures
        ({
            let o = seq![53u8, 1u8, t] + seq![1u8, 4u8] + mask + seq![3u8, 4u8] + router
                + seq![6u8, 4u8] + dns + seq![54u8, 4u8] + sid + seq![255u8];
            scan_options(o, 0, no_options())
                == (t, Some(addr_of(mask)), Some(addr_of(router)), Some(addr_of(dns)), Some(addr_of(sid)))
        }),
{
    let o = seq![53u8, 1u8, t] + seq![1u8, 4u8] + mask + seq![3u8, 4u8] + router
        + seq![6u8, 4u8] + dns + seq![54u8, 4u8] + sid + seq![255u8];
    assert(o.len() == 28);
    assert(o[0] == 53u8 && o[1] == 1u8 && o[2] == t);
    assert(o[3] == 1u8 && o[4] == 4u8);
    assert(o[9] == 3u8 && o[10] == 4u8);
    assert(o[15] == 6u8 && o[16] == 4u8);
    assert(o[21] == 54u8 && o[22] == 4u8);
    assert(o[27] == 255u8);
    assert(quad(o, 5) == addr_of(mask)) by {
        assert(o[5] == mask[0] && o[6] == mask[1] && o[7] == mask[2] && o[8] == mask[3]);
    }
    assert(quad(o, 11) == addr_of(router)) by {
        assert(o[11] == router[0] && o[12] == router[1] && o[13] == router[2] && o[14] == router[3]);
    }
    assert(quad(o, 17) == addr_of(dns)) by {
        assert(o[17] == dns[0] && o[18] == dns[1] && o[19] == dns[2] && o[20] == dns[3]);
    }
    assert(quad(o, 23) == addr_of(sid)) by {
        assert(o[23] == sid[0] && o[24] == sid[1] && o[25] == sid[2] && o[26] == sid[3]);
    }
    let a1 = apply_option(o, 0, 53, 1, no_options());
    let a2 = apply_option(o, 3, 1, 4, a1);
    let a3 = apply_option(o, 9, 3, 4, a2);
    let a4 = apply_option(o, 15, 6, 4, a3);
    let a5 = apply_option(o, 21, 54, 4, a4);
    assert(a5 == (t, Some(addr_of(mask)), Some(addr_of(router)), Some(addr_of(dns)), Some(addr_of(sid))));
    assert(scan_options(o, 27, a5) == a5);
    assert(scan_options(o, 21, a4) == scan_options(o, 27, a5));
    assert(scan_options(o, 15, a3) == scan_options(o, 21, a4));
    assert(scan_options(o, 9, a2) == scan_options(o, 15, a3));
    assert(scan_options(o, 3, a1) == scan_options(o, 9, a2));
    assert(scan_options(o, 0, no_options()) == scan_options(o, 3, a1));
}

fn quad_at(o: &[u8], i: usize) -> (r: [u8; 4])
    requires
        i + 4 <= o@.len(),
    ensures
        r == quad(o@, i as int),
{
    [o[i], o[i + 1], o[i + 2], o[i + 3]]
}

/// Parses a DHCP option list (see `scan_options`).
pub fn parse_dhcp_options(opts: &[u8]) -> (r: DhcpOptions)
    ensures
        r == scan_options(opts@, 0, no_options()),
{
    let mut msg_type: u8 = 0;
    let mut subnet: Option<[u8; 4]> = None;
    let mut gateway: Option<[u8; 4]> = None;
    let mut dns: Option<[u8; 4]> = None;
    let mut server_id: Option<[u8; 4]> = None;
    let mut i: usize = 0;
    while i < opts.len()
        invariant_except_break
            i <= opts@.len(),
            scan_options(opts@, i as nat, (msg_type, subnet, gateway, dns, server_id)) == scan_options(opts@, 0, no_options()),
        ensures
            (msg_type, subnet, gateway, dns, server_id) == scan_options(opts@, 0, no_options()),
        decreases opts@.len() - i,
    {
        let tag = opts[i];
        if tag == 0 {
            i = i + 1;
        } else if tag == 255 {
            break;
        } else {
            if i + 1 >= opts.len() {
                break;
            }
            let len = opts[i + 1] as usize;
            if len > opts.len() - i - 2 {
                break;
            }
            let ghost acc = (msg_type, subnet, gateway, dns, server_id);
            if tag == 53 && len == 1 {
                msg_type = opts[i + 2];
            } else if tag == 54 && len == 4 {
                server_id = Some(quad_at(opts, i + 2));
            } else if tag == 1 && len == 4 {
                subnet = Some(quad_at(opts, i + 2));
            } else if tag == 3 && len == 4 {
                gateway = Some(quad_at(opts, i + 2));
            } else if tag == 6 && len >= 4 {
                dns = Some(quad_at(opts, i + 2));
            }
            assert((msg_type, subnet, gateway, dns, server_id) == apply_option(opts@, i as int, tag, len as nat, acc));
            i = i + 2 + len;
        }
    }
    (msg_type, subnet, gateway, dns, server_id)
}

} // verus!

verus! {

/// The reply's fixed part is acceptable: long enough, BOOTREPLY, our
/// transaction id and our hardware address.
pub open spec fn reply_header_ok(d: Seq<u8>, xid: u32, mac: Seq<u8>) -> bool {
    &&& d.len() >= DHCP_MSG_SIZE
    &&& d[0] == OP_BOOTREPLY
    &&& be32_value(d[4], d[5], d[6], d[7]) == xid
    &&& d.subrange(28, 34) == mac
}

pub open spec fn cookie_at(d: Seq<u8>, p: int) -> bool {
    p + 4 <= d.len() && d.subrange(p, p + 4) == cookie()
}

/// `p` is the first place at or after byte 240 where the cookie occurs.
pub open spec fn first_cookie(d: Seq<u8>, p: int) -> bool {
    &&& DHCP_MSG_SIZE <= p
    &&& cookie_at(d, p)
    &&& forall|q: int| DHCP_MSG_SIZE <= q < p ==> !cookie_at(d, q)
}

/// Where the options start: after the first cookie found from byte 240 on,
/// else at byte 240.
pub open spec fn options_start(d: Seq<u8>) -> int {
    if exists|p: int| first_cookie(d, p) { (choose|p: int| first_cookie(d, p)) + 4 } else { DHCP_MSG_SIZE as int }
}

pub open spec fn nonzero_quad(q: [u8; 4]) -> Option<[u8; 4]> {
    if q[0] == 0 && q[1] == 0 && q[2] == 0 && q[3] == 0 { None } else { Some(q) }
}

/// The parse of a reply.
pub open spec fn reply_spec(d: Seq<u8>, xid: u32, mac: Seq<u8>) -> Option<DhcpReply> {
    if !reply_header_ok(d, xid, mac) {
        None
    } else {
        let o = scan_options(d.subrange(options_start(d), d.len() as int), 0, no_options());
        Some((o.0, nonzero_quad(quad(d, 16)), o.1, o.2, o.3, o.4))
    }
}

proof fn lemma_first_cookie_unique(d: Seq<u8>, p: int, q: int)
    requires
        first_cookie(d, p),
        first_cookie(d, q),
    ensures
        p == q,
{
}

fn cookie_here(d: &[u8], p: usize) -> (r: bool)
    requires
        p + 4 <= d@.len(),
    ensures
        r == cookie_at(d@, p as int),
{
    let r = d[p] == 0x63 && d[p + 1] == 0x82 && d[p + 2] == 0x53 && d[p + 3] == 0x63;
    proof {
        if r {
            assert(d@.subrange(p as int, p + 4) =~= cookie());
        } else {
            assert(d@.subrange(p as int, p + 4)[0] == d@[p as int]);
            assert(d@.subrange(p as int, p + 4)[1] == d@[p + 1]);
            assert(d@.subrange(p as int, p + 4)[2] == d@[p + 2]);
            assert(d@.subrange(p as int, p + 4)[3] == d@[p + 3]);
        }
    }
    r
}

fn header_ok(data: &[u8], xid: u32, mac: &[u8; 6]) -> (r: bool)
    ensures
        r == reply_header_ok(data@, xid, mac@),
{
    if data.len() < DHCP_MSG_SIZE || data[0] != OP_BOOTREPLY {
        return false;
    }
    if read_be32(data, 4) != xid {
        return false;
    }
    let mut k: usize = 0;
    while k < 6
        invariant
            k <= 6,
            data@.len() >= DHCP_MSG_SIZE,
            forall|j: int| 0 <= j < k ==> data@[28 + j] == mac@[j],
        decreases 6 - k,
    {
        if data[28 + k] != mac[k] {
            assert(data@.subrange(28, 34)[k as int] != mac@[k as int]);
            return false;
        }
        k = k + 1;
    }
    assert(data@.subrange(28, 34) =~= mac@);
    true
}

/// Parses a DHCP reply: `None` unless it is at least 240 bytes, a
/// BOOTREPLY with our transaction id and hardware address; the offered
/// address is `None` when zero, and options are read after the first
/// magic cookie found from byte 240 on (or from byte 240).
pub fn parse_dhcp_reply(data: &[u8], xid: u32, mac: &[u8; 6]) -> (r: Option<DhcpReply>)
    ensures
        r == reply_spec(data@, xid, mac@),
{
    if !header_ok(data, xid, mac) {
        return None;
    }
    let yiaddr = quad_at(data, 16);
    let has_yiaddr = !(yiaddr[0] == 0 && yiaddr[1] == 0 && yiaddr[2] == 0 && yiaddr[3] == 0);
    let yiaddr = if has_yiaddr { Some(yiaddr) } else { None };
    let mut opt_start = DHCP_MSG_SIZE;
    let mut i: usize = DHCP_MSG_SIZE;
    while i < data.len()
        invariant_except_break
            DHCP_MSG_SIZE <= i <= data@.len(),
            opt_start == DHCP_MSG_SIZE,
            reply_header_ok(data@, xid, mac@),
            forall|q: int| DHCP_MSG_SIZE <= q < i ==> !cookie_at(data@, q),
        ensures
            opt_start == options_start(data@),
            opt_start <= data@.len(),
        decreases data@.len() - i,
    {
        if data.len() - i >= 4 {
            if cookie_here(data, i) {
                opt_start = i + 4;
                proof {
                    assert(first_cookie(data@, i as int));
                    let p = choose|p: int| first_cookie(data@, p);
                    lemma_first_cookie_unique(data@, p, i as int);
                }
                break;
            }
        }
        i = i + 1;
    }
    proof {
        if i >= data@.len() && opt_start == DHCP_MSG_SIZE {
            if exists|p: int| first_cookie(data@, p) {
                let p = choose|p: int| first_cookie(data@, p);
                assert(cookie_at(data@, p));
                assert(false);
            }
        }
    }
    let opts = parse_dhcp_options(&data[opt_start..data.len()]);
    Some((opts.0, yiaddr, opts.1, opts.2, opts.3, opts.4))
}

} // verus!

verus! {

/// Largest client message `dhcp_frame` can carry (its UDP buffer holds 512 bytes).
pub const MAX_DHCP_PAYLOAD: usize = 504;

/// The broadcast frame carrying a client message from 0.0.0.0:68 to
/// 255.255.255.255:67.
pub open spec fn dhcp_frame_bytes(payload: Seq<u8>, mac: [u8; 6]) -> Seq<u8> {
    let udp = crate::net::udp::udp_bytes(DHCP_CLIENT, DHCP_SERVER, (8 + payload.len()) as u16, 0, payload);
    crate::net::ethernet::ethernet_bytes(crate::net::tcp::broadcast_mac()@, mac@, crate::net::ethernet::ETHERTYPE_IPV4,
        crate::net::ipv4::ipv4_header_checked((20 + udp.len()) as u16, 17, seq![0u8, 0u8, 0u8, 0u8],
            seq![255u8, 255u8, 255u8, 255u8]) + udp)
}

/// Wraps a client message in UDP, IPv4 and Ethernet for broadcast;
/// `None` when it exceeds `MAX_DHCP_PAYLOAD`.
pub fn dhcp_frame(payload: &[u8], mac: [u8; 6]) -> (r: Option<Vec<u8>>)
    ensures
        r is Some <==> payload@.len() <= MAX_DHCP_PAYLOAD,
        r matches Some(f) ==> f@ == dhcp_frame_bytes(payload@, mac),
{
    if payload.len() > MAX_DHCP_PAYLOAD {
        return None;
    }
    let mut udp_buf = crate::net::tcp::zeroed(512);
    let udp_len = crate::net::udp::UdpHeader::build(DHCP_CLIENT, DHCP_SERVER, payload, udp_buf.as_mut_slice());
    let udp_len = udp_len.unwrap();
    udp_buf.truncate(udp_len);
    let mut ip_buf = crate::net::tcp::zeroed(532);
    let ip_len = crate::net::ipv4::Ipv4Packet::build([0u8, 0u8, 0u8, 0u8], [255u8, 255u8, 255u8, 255u8], 17,
        udp_len as u16, ip_buf.as_mut_slice());
    let ip_len = ip_len.unwrap();
    copy_into(ip_buf.as_mut_slice(), ip_len, udp_buf.as_slice());
    ip_buf.truncate(ip_len + udp_len);
    let mut eth_buf = crate::net::tcp::zeroed(14 + 532);
    let bcast: [u8; 6] = [0xFF, 0xFF, 0xFF, 0xFF, 0xFF, 0xFF];
    let eth_len = crate::net::ethernet::EthernetFrame::build(bcast, mac, crate::net::ethernet::ETHERTYPE_IPV4,
        ip_buf.as_slice(), eth_buf.as_mut_slice());
    let eth_len = eth_len.unwrap();
    eth_buf.truncate(eth_len);
    proof {
        let udp = crate::net::udp::udp_bytes(DHCP_CLIENT, DHCP_SERVER, (8 + payload@.len()) as u16, 0, payload@);
        assert(udp_buf@ =~= udp);
        assert([0u8, 0u8, 0u8, 0u8]@ =~= seq![0u8, 0u8, 0u8, 0u8]);
        assert([255u8, 255u8, 255u8, 255u8]@ =~= seq![255u8, 255u8, 255u8, 255u8]);
        assert(eth_buf@ =~= dhcp_frame_bytes(payload@, mac));
    }
    Some(eth_buf)
}

/// The DHCP payload a received frame carries, if it is an IPv4/UDP
/// datagram to the client port.
pub open spec fn dhcp_payload_of(pkt: Seq<u8>) -> Option<Seq<u8>> {
    if pkt.len() < crate::net::ethernet::MIN_FRAME_LEN || crate::net::wire::be16_value(pkt[12], pkt[13]) != crate::net::ethernet::ETHERTYPE_IPV4 {
        None
    } else {
        let ip = pkt.subrange(14, pkt.len() as int);
        let ihl = crate::net::ipv4::ihl_bytes(ip[0]);
        if ip.len() < 20 || ip.len() < ihl || ip[9] != 17 {
            None
        } else {
            let udp = ip.subrange(ihl as int, ip.len() as int);
            if udp.len() < 8 || crate::net::wire::be16_value(udp[2], udp[3]) != DHCP_CLIENT {
                None
            } else {
                Some(udp.subrange(8, udp.len() as int))
            }
        }
    }
}

/// The payload of a received frame if it is an IPv4/UDP datagram for the
/// DHCP client port (see `dhcp_payload_of`).
pub fn dhcp_payload(pkt: &[u8]) -> (r: Option<&[u8]>)
    ensures
        match (r, dhcp_payload_of(pkt@)) {
            (Some(a), Some(b)) => a@ == b,
            (None, None) => true,
            _ => false,
        },
{
    let eth = match crate::net::ethernet::EthernetFrame::parse(pkt) {
        Some(e) => e,
        None => {
            return None;
        },
    };
    proof {
        crate::net::wire::lemma_be16_inverse(eth.ethertype);
        assert(pkt@.subrange(12, 14) =~= crate::net::wire::be16_bytes(eth.ethertype));
        assert(pkt@.subrange(14, pkt@.len() as int) =~= eth.payload@);
    }
    if eth.ethertype != crate::net::ethernet::ETHERTYPE_IPV4 {
        return None;
    }
    let ip = match crate::net::ipv4::Ipv4Packet::parse(eth.payload) {
        Some(p) => p,
        None => {
            return None;
        },
    };
    if ip.protocol != 17 {
        return None;
    }
    let udp = match crate::net::udp::UdpHeader::parse(ip.payload) {
        Some(u) => u,
        None => {
            return None;
        },
    };
    proof {
        let u = ip.payload@;
        crate::net::wire::lemma_be16_inverse(udp.dst_port);
        assert(u.subrange(2, 4) =~= crate::net::wire::be16_bytes(udp.dst_port));
        assert(udp.payload@ =~= u.subrange(8, u.len() as int));
    }
    if udp.dst_port != DHCP_CLIENT {
        return None;
    }
    Some(udp.payload)
}

/// Filters a received frame for a DHCP reply to this transaction.
pub fn match_dhcp_reply(pkt: &[u8], xid: u32, mac: &[u8; 6]) -> (r: Option<DhcpReply>)
    ensures
        r == (match dhcp_payload_of(pkt@) {
            Some(p) => reply_spec(p, xid, mac@),
            None => None,
        }),
{
    match dhcp_payload(pkt) {
        Some(p) => parse_dhcp_reply(p, xid, mac),
        None => None,
    }
}

/// Where the exchange stands.
#[derive(Clone, Copy)]
pub enum DhcpPhase {
    Discovering,
    Requesting { offered_ip: [u8; 4] },
    Finished,
}

/// A DHCP client for one transaction.
pub struct DhcpClient {
    pub mac: [u8; 6],
    pub xid: u32,
    pub phase: DhcpPhase,
}

/// What the caller does next: broadcast a frame and wait for a reply, or
/// stop with the outcome.
pub enum DhcpStep {
    Send(Vec<u8>),
    Done(Option<NetConfig>),
}

/// The configuration an ACK gives for the offered address: subnet mask,
/// router and DNS from its options, else 255.255.255.0, 10.0.2.2 and 8.8.8.8.
pub open spec fn config_from_ack(ip: [u8; 4], r: DhcpReply) -> NetConfig {
    NetConfig {
        ip,
        subnet: match r.2 { Some(s) => s, None => [255u8, 255u8, 255u8, 0u8] },
        gateway: match r.3 { Some(g) => g, None => [10u8, 0u8, 2u8, 2u8] },
        dns: match r.4 { Some(d) => d, None => [8u8, 8u8, 8u8, 8u8] },
    }
}

impl DhcpClient {
    /// Starts a transaction: the first step broadcasts a DISCOVER.
    pub fn start(mac: [u8; 6], xid: u32) -> (r: (Self, DhcpStep))
        ensures
            r.0.mac == mac && r.0.xid == xid && r.0.phase == DhcpPhase::Discovering,
            r.1 matches DhcpStep::Send(f) && f@ == dhcp_frame_bytes(
                dhcp_msg_bytes(OP_BOOTREQUEST, xid, mac@, DHCP_DISCOVER, None, None), mac),
    {
        let msg = build_dhcp_msg(OP_BOOTREQUEST, xid, &mac, DHCP_DISCOVER, None, None);
        assert(msg@.len() <= MAX_DHCP_PAYLOAD) by {
            assert(client_options(DHCP_DISCOVER, None, None).len() == 13);
        }
        let f = dhcp_frame(msg.as_slice(), mac).unwrap();
        (DhcpClient { mac, xid, phase: DhcpPhase::Discovering }, DhcpStep::Send(f))
    }

    /// Advances on a reply to our last message, or on a timeout (`None`).
    /// An OFFER with an address leads to a REQUEST for it (naming the
    /// offering server); an ACK then gives the configuration; a timeout, an
    /// offer without address or a non-ACK answer ends with `None`.
    pub fn on_reply(&mut self, reply: Option<DhcpReply>) -> (step: DhcpStep)
        ensures
            final(self).mac == old(self).mac,
            final(self).xid == old(self).xid,
            match old(self).phase {
                DhcpPhase::Discovering => match reply {
                    Some(r) if r.1 is Some => {
                        &&& final(self).phase == (DhcpPhase::Requesting { offered_ip: r.1.unwrap() })
                        &&& step matches DhcpStep::Send(f) && f@ == dhcp_frame_bytes(
                            dhcp_msg_bytes(OP_BOOTREQUEST, old(self).xid, old(self).mac@, DHCP_REQUEST, r.1, r.5),
                            old(self).mac)
                    },
                    _ => final(self).phase == DhcpPhase::Finished && step matches DhcpStep::Done(None),
                },
                DhcpPhase::Requesting { offered_ip } => {
                    &&& final(self).phase == DhcpPhase::Finished
                    &&& match reply {
                        Some(r) if r.0 == DHCP_ACK => step matches DhcpStep::Done(Some(c)) && c == config_from_ack(offered_ip, r),
                        _ => step matches DhcpStep::Done(None),
                    }
                },
                DhcpPhase::Finished => final(self).phase == DhcpPhase::Finished && step matches DhcpStep::Done(None),
            },
    {
        match self.phase {
            DhcpPhase::Discovering => {
                match reply {
                    Some(r) => {
                        match r.1 {
                            Some(ip) => {
                                let msg = build_dhcp_msg(OP_BOOTREQUEST, self.xid, &self.mac, DHCP_REQUEST, Some(ip), r.5);
                                assert(msg@.len() <= MAX_DHCP_PAYLOAD) by {
                                    assert(client_options(DHCP_REQUEST, Some(ip), r.5).len() <= 25);
                                }
                                let f = dhcp_frame(msg.as_slice(), self.mac).unwrap();
                                self.phase = DhcpPhase::Requesting { offered_ip: ip };
                                DhcpStep::Send(f)
                            },
                            None => {
                                self.phase = DhcpPhase::Finished;
                                DhcpStep::Done(None)
                            },
                        }
                    },
                    None => {
                        self.phase = DhcpPhase::Finished;
                        DhcpStep::Done(None)
                    },
                }
            },
            DhcpPhase::Requesting { offered_ip } => {
                self.phase = DhcpPhase::Finished;
                match reply {
                    Some(r) => {
                        if r.0 != DHCP_ACK {
                            return DhcpStep::Done(None);
                        }
                        let subnet = match r.2 { Some(s) => s, None => [255u8, 255u8, 255u8, 0u8] };
                        let gateway = match r.3 { Some(g) => g, None => [10u8, 0u8, 2u8, 2u8] };
                        let dns = match r.4 { Some(d) => d, None => [8u8, 8u8, 8u8, 8u8] };
                        DhcpStep::Done(Some(NetConfig { ip: offered_ip, subnet, gateway, dns }))
                    },
                    None => DhcpStep::Done(None),
                }
            },
            DhcpPhase::Finished => DhcpStep::Done(None),
        }
    }
}

} // verus!
