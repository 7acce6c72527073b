//! TCP: segment format, sequence arithmetic, and the connection engine.
//!
//! The engine is driven by events (a received segment, a user call, a
//! periodic poll) and answers with the segments to transmit; the caller
//! owns the clock and the network card.

use vstd::prelude::*;
use crate::net::wire::{be16_bytes, be16_value, be32_bytes, be32_value, splice, read_be16,
    read_be32, copy_into, write_be16, write_be32, push_be16, push_be32, lemma_be16_value_inverse,
    lemma_be32_value_inverse};
use crate::net::checksum::{sum_words, fold_complement, finish, ones_sum, words_sum, fold16};

verus! {

pub const TCP_PROTO: u8 = 6;

/// Maximum segment size.
pub const MSS: usize = 536;

/// Receive window advertised in every segment.
pub const WINDOW: u16 = 8192;

/// Initial retransmission timeout in milliseconds.
pub const RTO_MS: u64 = 1000;

/// Retransmissions before a connection is reset.
pub const MAX_RETRIES: u8 = 3;

/// Connection table size.
pub const MAX_CONNS: usize = 4;

/// Send buffer capacity.
pub const SEND_BUF_CAP: usize = 1024;

/// Receive buffer capacity.
pub const RECV_BUF_CAP: usize = 4096;

/// Milliseconds a connection stays in TIME_WAIT.
pub const TIME_WAIT_MS: u64 = 60_000;

pub const FIN: u8 = 0x01;
pub const SYN: u8 = 0x02;
pub const RST: u8 = 0x04;
pub const PSH: u8 = 0x08;
pub const ACK: u8 = 0x10;

#[derive(Debug, Clone, Copy, PartialEq, Eq, Structural)]
pub enum TcpState {
    Closed,
    Listen,
    SynSent,
    SynReceived,
    Established,
    FinWait1,
    FinWait2,
    CloseWait,
    LastAck,
    TimeWait,
}

/// A parsed TCP segment; the payload borrows the received bytes.
pub struct TcpHeader<'a> {
    pub src_port: u16,
    pub dst_port: u16,
    pub seq: u32,
    pub ack: u32,
    pub data_offset: u8,
    pub flags: u8,
    pub window: u16,
    pub checksum: u16,
    pub urgent: u16,
    pub payload: &'a [u8],
}

/// The bytes of a segment with a 20-byte header (data offset 5).
pub open spec fn tcp_bytes(
    src_port: u16, dst_port: u16, seq: u32, ack: u32, flags: u8, window: u16,
    checksum: u16, urgent: u16, payload: Seq<u8>,
) -> Seq<u8> {
    be16_bytes(src_port) + be16_bytes(dst_port) + be32_bytes(seq) + be32_bytes(ack)
        + seq![0x50u8, flags] + be16_bytes(window) + be16_bytes(checksum) + be16_bytes(urgent)
        + payload
}

/// The pseudo-header sum: both addresses as 16-bit words, the protocol
/// number and the segment length.
pub open spec fn pseudo_sum(src_ip: Seq<u8>, dst_ip: Seq<u8>, len: nat) -> nat {
    (be16_value(src_ip[0], src_ip[1]) + be16_value(src_ip[2], src_ip[3])
        + be16_value(dst_ip[0], dst_ip[1]) + be16_value(dst_ip[2], dst_ip[3]) + 6 + len) as nat
}

/// The TCP checksum of `segment` between the two addresses.
pub open spec fn tcp_checksum_spec(src_ip: Seq<u8>, dst_ip: Seq<u8>, segment: Seq<u8>) -> u16 {
    finish(pseudo_sum(src_ip, dst_ip, segment.len()) + ones_sum(segment))
}

/// A built segment with its checksum filled in.
pub open spec fn tcp_segment_checked(
    src_port: u16, dst_port: u16, seq: u32, ack: u32, flags: u8, window: u16,
    src_ip: Seq<u8>, dst_ip: Seq<u8>, payload: Seq<u8>,
) -> Seq<u8> {
    tcp_bytes(src_port, dst_port, seq, ack, flags, window,
        tcp_checksum_spec(src_ip, dst_ip, tcp_bytes(src_port, dst_port, seq, ack, flags, window, 0, 0, payload)),
        0, payload)
}

/// Largest segment `tcp_checksum` accepts (its 32-bit sum cannot overflow).
pub const MAX_CHECKSUM_LEN: usize = 131000;

/// The TCP checksum over the pseudo-header and `segment`.
pub fn tcp_checksum(src_ip: [u8; 4], dst_ip: [u8; 4], segment: &[u8]) -> (r: u16)
    requires
        segment@.len() <= MAX_CHECKSUM_LEN,
    ensures
        r == tcp_checksum_spec(src_ip@, dst_ip@, segment@),
{
    let mut sum: u32 = 0;
    sum = sum + (src_ip[0] as u32) * 256 + (src_ip[1] as u32);
    sum = sum + (src_ip[2] as u32) * 256 + (src_ip[3] as u32);
    sum = sum + (dst_ip[0] as u32) * 256 + (dst_ip[1] as u32);
    sum = sum + (dst_ip[2] as u32) * 256 + (dst_ip[3] as u32);
    sum = sum + 6;
    sum = sum + segment.len() as u32;
    let s = sum_words(segment, sum);
    fold_complement(s)
}

/// `a` precedes `b` in sequence space: `b - a` (mod 2^32) is below 2^31.
/// Note that this holds for `a == b` too.
pub open spec fn seq_lt_spec(a: u32, b: u32) -> bool {
    ((b - a) % 0x1_0000_0000) < 0x8000_0000
}

/// `a` precedes `b` in sequence space (see `seq_lt_spec`).
pub fn seq_lt(a: u32, b: u32) -> (r: bool)
    ensures
        r == seq_lt_spec(a, b),
{
    b.wrapping_sub(a) < 0x8000_0000
}

/// `a == b` or `a` precedes `b`.
pub fn seq_le(a: u32, b: u32) -> (r: bool)
    ensures
        r == (a == b || seq_lt_spec(a, b)),
{
    a == b || seq_lt(a, b)
}

/// The 20-byte header with zero checksum and urgent pointer.
fn tcp_header_vec(src_port: u16, dst_port: u16, seq: u32, ack: u32, flags: u8, window: u16) -> (v: Vec<u8>)
    ensures
        v@ == tcp_bytes(src_port, dst_port, seq, ack, flags, window, 0, 0, seq![]),
{
    let mut v: Vec<u8> = Vec::new();
    push_be16(&mut v, src_port);
    push_be16(&mut v, dst_port);
    push_be32(&mut v, seq);
    push_be32(&mut v, ack);
    v.push(0x50);
    v.push(flags);
    push_be16(&mut v, window);
    push_be16(&mut v, 0);
    push_be16(&mut v, 0);
    assert(v@ =~= tcp_bytes(src_port, dst_port, seq, ack, flags, window, 0, 0, seq![]));
    v
}

impl<'a> TcpHeader<'a> {
    /// Parses a segment starting at its TCP header: `None` below 20 bytes
    /// or when the data offset is below 20 or beyond the data; the flags
    /// keep their low six bits.
    pub fn parse(data: &'a [u8]) -> (r: Option<Self>)
        ensures
            r is Some <==> data@.len() >= 20 && 20 <= (data@[12] / 16) * 4 <= data@.len(),
            r matches Some(h) ==> {
                &&& h.src_port == be16_value(data@[0], data@[1])
                &&& h.dst_port == be16_value(data@[2], data@[3])
                &&& h.seq == be32_value(data@[4], data@[5], data@[6], data@[7])
                &&& h.ack == be32_value(data@[8], data@[9], data@[10], data@[11])
                &&& h.data_offset == (data@[12] / 16) * 4
                &&& h.flags == data@[13] % 64
                &&& h.window == be16_value(data@[14], data@[15])
                &&& h.checksum == be16_value(data@[16], data@[17])
                &&& h.urgent == be16_value(data@[18], data@[19])
                &&& h.payload@ == data@.subrange(h.data_offset as int, data@.len() as int)
            },
    {
        if data.len() < 20 {
            return None;
        }
        let src_port = read_be16(data, 0);
        let dst_port = read_be16(data, 2);
        let seq = read_be32(data, 4);
        let ack = read_be32(data, 8);
        let data_offset = (data[12] / 16) * 4;
        if data_offset < 20 || data_offset as usize > data.len() {
            return None;
        }
        let flags = data[13] % 64;
        let window = read_be16(data, 14);
        let checksum = read_be16(data, 16);
        let urgent = read_be16(data, 18);
        let payload = &data[data_offset as usize..data.len()];
        Some(TcpHeader { src_port, dst_port, seq, ack, data_offset, flags, window, checksum, urgent, payload })
    }

    /// Writes a segment with a 20-byte header and its checksum into `out`
    /// and returns its length; `None` if `out` is too short.
    pub fn build(
        src_port: u16, dst_port: u16, seq: u32, ack: u32, flags: u8, window: u16,
        src_ip: [u8; 4], dst_ip: [u8; 4], payload: &[u8], out: &mut [u8],
    ) -> (r: Option<usize>)
        requires
            20 + payload@.len() <= MAX_CHECKSUM_LEN,
        ensures
            old(out)@.len() < 20 + payload@.len() ==> r is None && final(out)@ == old(out)@,
            old(out)@.len() >= 20 + payload@.len() ==> r == Some((20 + payload@.len()) as usize)
                && final(out)@ == splice(old(out)@, 0, tcp_segment_checked(src_port, dst_port, seq, ack,
                    flags, window, src_ip@, dst_ip@, payload@)),
    {
        let total = 20 + payload.len();
        if out.len() < total {
            return None;
        }
        let header = tcp_header_vec(src_port, dst_port, seq, ack, flags, window);
        copy_into(out, 0, header.as_slice());
        copy_into(out, 20, payload);
        let ghost s0 = tcp_bytes(src_port, dst_port, seq, ack, flags, window, 0, 0, payload@);
        assert(out@.subrange(0, total as int) =~= s0);
        let cksum = tcp_checksum(src_ip, dst_ip, &out[0..total]);
        write_be16(out, 16, cksum);
        assert(out@ =~= splice(old(out)@, 0, tcp_bytes(src_port, dst_port, seq, ack, flags, window,
            cksum, 0, payload@)));
        Some(total)
    }
}

} // verus!

verus! {

// ── Connection engine ───────────────────────────────────────────────────

/// What the engine asks to transmit: one segment on a connection.
pub struct TcpSegment {
    pub local_port: u16,
    pub remote_ip: [u8; 4],
    pub remote_port: u16,
    pub seq: u32,
    pub ack: u32,
    pub flags: u8,
    pub payload: Vec<u8>,
}

/// Model of a segment to transmit.
pub struct SegmentSpec {
    pub local_port: u16,
    pub remote_ip: [u8; 4],
    pub remote_port: u16,
    pub seq: u32,
    pub ack: u32,
    pub flags: u8,
    pub payload: Seq<u8>,
}

impl View for TcpSegment {
    type V = SegmentSpec;

    open spec fn view(&self) -> SegmentSpec {
        SegmentSpec {
            local_port: self.local_port,
            remote_ip: self.remote_ip,
            remote_port: self.remote_port,
            seq: self.seq,
            ack: self.ack,
            flags: self.flags,
            payload: self.payload@,
        }
    }
}

/// One connection slot.
pub struct TcpConn {
    pub state: TcpState,
    pub local_port: u16,
    pub remote_ip: [u8; 4],
    pub remote_port: u16,
    pub local_seq: u32,
    pub remote_seq: u32,
    pub local_ack: u32,
    /// Bytes queued for sending and not yet acknowledged.
    pub send_buf: Vec<u8>,
    pub send_acked: usize,
    /// Bytes received in order and not yet read.
    pub recv_buf: Vec<u8>,
    pub last_tx_time: u64,
    pub last_tx_seq: u32,
    pub last_tx_len: usize,
    pub last_tx_flags: u8,
    pub last_tx_payload: Vec<u8>,
    pub retries: u8,
    pub rto_ms: u64,
}

/// Model of a connection slot.
pub struct ConnView {
    pub state: TcpState,
    pub local_port: u16,
    pub remote_ip: [u8; 4],
    pub remote_port: u16,
    pub local_seq: u32,
    pub remote_seq: u32,
    pub local_ack: u32,
    pub send_buf: Seq<u8>,
    pub send_acked: usize,
    pub recv_buf: Seq<u8>,
    pub last_tx_time: u64,
    pub last_tx_seq: u32,
    pub last_tx_flags: u8,
    pub last_tx_payload: Seq<u8>,
    pub retries: u8,
    pub rto_ms: u64,
}

impl View for TcpConn {
    type V = ConnView;

    open spec fn view(&self) -> ConnView {
        ConnView {
            state: self.state,
            local_port: self.local_port,
            remote_ip: self.remote_ip,
            remote_port: self.remote_port,
            local_seq: self.local_seq,
            remote_seq: self.remote_seq,
            local_ack: self.local_ack,
            send_buf: self.send_buf@,
            send_acked: self.send_acked,
            recv_buf: self.recv_buf@,
            last_tx_time: self.last_tx_time,
            last_tx_seq: self.last_tx_seq,
            last_tx_flags: self.last_tx_flags,
            last_tx_payload: self.last_tx_payload@,
            retries: self.retries,
            rto_ms: self.rto_ms,
        }
    }
}

/// Largest timeout reachable after `retries` doublings of `RTO_MS`.
pub open spec fn rto_bound(retries: u8) -> u64 {
    if retries == 0 { 1000 } else if retries == 1 { 2000 } else if retries == 2 { 4000 } else { 8000 }
}

impl ConnView {
    /// Buffer capacities and the retransmission counters' ranges.
    pub open spec fn wf(self) -> bool {
        &&& self.send_buf.len() <= SEND_BUF_CAP
        &&& self.recv_buf.len() <= RECV_BUF_CAP
        &&& self.last_tx_payload.len() <= MSS
        &&& self.retries <= MAX_RETRIES
        &&& self.rto_ms <= rto_bound(self.retries)
    }
}

impl TcpConn {
    pub open spec fn wf(&self) -> bool {
        &&& self@.wf()
        &&& self.last_tx_len == self.last_tx_payload@.len()
    }
}

/// A fresh, closed slot.
pub open spec fn closed_conn() -> ConnView {
    ConnView {
        state: TcpState::Closed,
        local_port: 0,
        remote_ip: [0u8, 0u8, 0u8, 0u8],
        remote_port: 0,
        local_seq: 0,
        remote_seq: 0,
        local_ack: 0,
        send_buf: seq![],
        send_acked: 0,
        recv_buf: seq![],
        last_tx_time: 0,
        last_tx_seq: 0,
        last_tx_flags: 0,
        last_tx_payload: seq![],
        retries: 0,
        rto_ms: RTO_MS,
    }
}

/// `a + b` modulo 2^32.
pub open spec fn wadd(a: u32, b: u32) -> u32 {
    if a + b > u32::MAX { (a + b - 0x1_0000_0000) as u32 } else { (a + b) as u32 }
}

/// `a - b` modulo 2^32.
pub open spec fn wsub(a: u32, b: u32) -> u32 {
    if a - b < 0 { (a - b + 0x1_0000_0000) as u32 } else { (a - b) as u32 }
}

/// The clock and configuration an event runs under, and the segments it
/// asked to transmit.
pub struct TxContext {
    pub now: u64,
    /// Whether the interface has an address; without one nothing is sent.
    pub configured: bool,
    pub sent: Vec<TcpSegment>,
}

/// The segment `c` sends with these flags and payload.
pub open spec fn segment_of(c: ConnView, flags: u8, payload: Seq<u8>) -> SegmentSpec {
    SegmentSpec {
        local_port: c.local_port,
        remote_ip: c.remote_ip,
        remote_port: c.remote_port,
        seq: c.local_seq,
        ack: c.local_ack,
        flags,
        payload,
    }
}

/// Transmission without advancing the sequence number: nothing happens
/// unless configured; segments carrying SYN, FIN or data are remembered
/// for retransmission.
pub open spec fn raw_send(c: ConnView, flags: u8, payload: Seq<u8>, now: u64, configured: bool) -> (ConnView, Seq<SegmentSpec>) {
    if !configured {
        (c, seq![])
    } else if (flags & (SYN | FIN)) != 0 || payload.len() > 0 {
        (ConnView { last_tx_time: now, last_tx_seq: c.local_seq, last_tx_flags: flags, last_tx_payload: payload, ..c },
            seq![segment_of(c, flags, payload)])
    } else {
        (c, seq![segment_of(c, flags, payload)])
    }
}

/// Sequence space a segment consumes: one for SYN, one for FIN, and its data.
pub open spec fn consumed(flags: u8, len: nat) -> u32 {
    ((if (flags & SYN) != 0 { 1int } else { 0int }) + (if (flags & FIN) != 0 { 1int } else { 0int }) + len) as u32
}

/// Transmission of a segment at the current `local_seq`, which then
/// advances by what the segment consumes (so a SYN carries the initial
/// sequence number, and the peer acknowledges it plus one).
pub open spec fn send_adv(c: ConnView, flags: u8, payload: Seq<u8>, now: u64, configured: bool) -> (ConnView, Seq<SegmentSpec>) {
    let (c1, s1) = raw_send(c, flags, payload, now, configured);
    (ConnView { local_seq: wadd(c.local_seq, consumed(flags, payload.len())), ..c1 }, s1)
}

pub open spec fn min_nat(a: nat, b: nat) -> nat {
    if a < b { a } else { b }
}

/// Sends the head of the send buffer (at most one MSS) with PSH|ACK.
pub open spec fn flush(c: ConnView, now: u64, configured: bool) -> (ConnView, Seq<SegmentSpec>) {
    if c.send_buf.len() == 0 {
        (c, seq![])
    } else {
        send_adv(c, PSH | ACK, c.send_buf.subrange(0, min_nat(c.send_buf.len(), MSS as nat) as int), now, configured)
    }
}

/// `new` is `old` followed by segments with the models `segs`.
pub open spec fn sent_extends(old: Seq<TcpSegment>, new: Seq<TcpSegment>, segs: Seq<SegmentSpec>) -> bool {
    &&& new.len() == old.len() + segs.len()
    &&& forall|i: int| 0 <= i < old.len() ==> new[i] == old[i]
    &&& forall|j: int| 0 <= j < segs.len() ==> (#[trigger] new[old.len() + j])@ == segs[j]
}

proof fn lemma_sent_extends_trans(a: Seq<TcpSegment>, b: Seq<TcpSegment>, c: Seq<TcpSegment>, s1: Seq<SegmentSpec>, s2: Seq<SegmentSpec>)
    requires
        sent_extends(a, b, s1),
        sent_extends(b, c, s2),
    ensures
        sent_extends(a, c, s1 + s2),
{
    assert forall|j: int| 0 <= j < (s1 + s2).len() implies (#[trigger] c[a.len() + j])@ == (s1 + s2)[j] by {
        if j < s1.len() {
            assert(c[a.len() + j] == b[a.len() + j]);
        } else {
            assert(c[b.len() + (j - s1.len())]@ == s2[j - s1.len()]);
        }
    }
}

impl TcpConn {
    /// A fresh, closed slot.
    pub fn new() -> (c: Self)
        ensures
            c@ == closed_conn(),
            c.wf(),
    {
        let c = TcpConn {
            state: TcpState::Closed,
            local_port: 0,
            remote_ip: [0u8, 0u8, 0u8, 0u8],
            remote_port: 0,
            local_seq: 0,
            remote_seq: 0,
            local_ack: 0,
            send_buf: Vec::new(),
            send_acked: 0,
            recv_buf: Vec::new(),
            last_tx_time: 0,
            last_tx_seq: 0,
            last_tx_len: 0,
            last_tx_flags: 0,
            last_tx_payload: Vec::new(),
            retries: 0,
            rto_ms: RTO_MS,
        };
        assert(c.send_buf@ =~= seq![]);
        assert(c.recv_buf@ =~= seq![]);
        assert(c.last_tx_payload@ =~= seq![]);
        assert(c@ == closed_conn());
        c
    }

    /// Closed or in TIME_WAIT.
    pub fn closed(&self) -> (r: bool)
        ensures
            r == (self.state == TcpState::Closed || self.state == TcpState::TimeWait),
    {
        matches!(self.state, TcpState::Closed | TcpState::TimeWait)
    }
}

fn vec_of(s: &[u8]) -> (v: Vec<u8>)
    ensures
        v@ == s@,
{
    let mut v: Vec<u8> = Vec::new();
    crate::net::wire::push_slice(&mut v, s);
    v
}

/// Transmits a segment without advancing `local_seq`.
fn send_segment_raw(conn: &mut TcpConn, flags: u8, payload: &[u8], ctx: &mut TxContext)
    requires
        old(conn).wf(),
        payload@.len() <= MSS,
    ensures
        final(conn).wf(),
        final(ctx).now == old(ctx).now,
        final(ctx).configured == old(ctx).configured,
        ({
            let (c, segs) = raw_send(old(conn)@, flags, payload@, old(ctx).now, old(ctx).configured);
            final(conn)@ == c && sent_extends(old(ctx).sent@, final(ctx).sent@, segs)
        }),
{
    if !ctx.configured {
        return;
    }
    if (flags & (SYN | FIN)) != 0 || payload.len() > 0 {
        conn.last_tx_time = ctx.now;
        conn.last_tx_seq = conn.local_seq;
        conn.last_tx_len = payload.len();
        conn.last_tx_flags = flags;
        conn.last_tx_payload = vec_of(payload);
    }
    let seg = TcpSegment {
        local_port: conn.local_port,
        remote_ip: conn.remote_ip,
        remote_port: conn.remote_port,
        seq: conn.local_seq,
        ack: conn.local_ack,
        flags,
        payload: vec_of(payload),
    };
    ctx.sent.push(seg);
    proof {
        let (c, segs) = raw_send(old(conn)@, flags, payload@, old(ctx).now, old(ctx).configured);
        assert(conn@ == c);
        assert(ctx.sent@[old(ctx).sent@.len() + 0int]@ == segs[0]);
    }
}

/// Transmits a segment without data and without advancing `local_seq`.
fn send_bare(conn: &mut TcpConn, flags: u8, ctx: &mut TxContext)
    requires
        old(conn).wf(),
    ensures
        final(conn).wf(),
        final(ctx).now == old(ctx).now,
        final(ctx).configured == old(ctx).configured,
        ({
            let (c, segs) = raw_send(old(conn)@, flags, seq![], old(ctx).now, old(ctx).configured);
            final(conn)@ == c && sent_extends(old(ctx).sent@, final(ctx).sent@, segs)
        }),
{
    let empty: Vec<u8> = Vec::new();
    assert(empty@ =~= seq![]);
    send_segment_raw(conn, flags, empty.as_slice(), ctx);
}

/// Transmits a segment at the current `local_seq`, then advances it by what
/// the segment consumes.
fn send_segment(conn: &mut TcpConn, flags: u8, payload: &[u8], ctx: &mut TxContext)
    requires
        old(conn).wf(),
        payload@.len() <= MSS,
    ensures
        final(conn).wf(),
        final(ctx).now == old(ctx).now,
        final(ctx).configured == old(ctx).configured,
        ({
            let (c, segs) = send_adv(old(conn)@, flags, payload@, old(ctx).now, old(ctx).configured);
            final(conn)@ == c && sent_extends(old(ctx).sent@, final(ctx).sent@, segs)
        }),
{
    let syn: u32 = if (flags & SYN) != 0 { 1 } else { 0 };
    let fin: u32 = if (flags & FIN) != 0 { 1 } else { 0 };
    let used: u32 = syn + fin + payload.len() as u32;
    send_segment_raw(conn, flags, payload, ctx);
    conn.local_seq = conn.local_seq.wrapping_add(used);
}

/// Sends the head of the send buffer, if any.
fn flush_send(conn: &mut TcpConn, ctx: &mut TxContext)
    requires
        old(conn).wf(),
    ensures
        final(conn).wf(),
        final(ctx).now == old(ctx).now,
        final(ctx).configured == old(ctx).configured,
        ({
            let (c, segs) = flush(old(conn)@, old(ctx).now, old(ctx).configured);
            final(conn)@ == c && sent_extends(old(ctx).sent@, final(ctx).sent@, segs)
        }),
{
    if conn.send_buf.len() == 0 {
        return;
    }
    let to_send = if conn.send_buf.len() < MSS { conn.send_buf.len() } else { MSS };
    let head = vec_of(&conn.send_buf.as_slice()[0..to_send]);
    send_segment(conn, PSH | ACK, head.as_slice(), ctx);
}

} // verus!

verus! {

/// Model of the fields of a received segment the engine reads.
pub struct HdrSpec {
    pub seq: u32,
    pub ack: u32,
    pub flags: u8,
    pub payload: Seq<u8>,
}

pub open spec fn hdr_spec(h: &TcpHeader) -> HdrSpec {
    HdrSpec { seq: h.seq, ack: h.ack, flags: h.flags, payload: h.payload@ }
}

/// `buf` followed by as much of `p` as fits in the receive buffer.
pub open spec fn append_capped(buf: Seq<u8>, p: Seq<u8>) -> Seq<u8> {
    buf + p.subrange(0, min_nat(p.len(), (RECV_BUF_CAP - buf.len()) as nat) as int)
}

pub open spec fn step_listen(c: ConnView, h: HdrSpec, now: u64, cfg: bool) -> (ConnView, Seq<SegmentSpec>) {
    if (h.flags & SYN) == 0 {
        (c, seq![])
    } else {
        send_adv(ConnView { remote_seq: wadd(h.seq, 1), local_ack: wadd(h.seq, 1), state: TcpState::SynReceived, ..c },
            SYN | ACK, seq![], now, cfg)
    }
}

pub open spec fn step_syn_sent(c: ConnView, h: HdrSpec, now: u64, cfg: bool) -> (ConnView, Seq<SegmentSpec>) {
    if (h.flags & (SYN | ACK)) != (SYN | ACK) || h.ack != c.local_seq {
        (c, seq![])
    } else {
        let c1 = ConnView { remote_seq: wadd(h.seq, 1), local_ack: wadd(h.seq, 1), state: TcpState::Established,
            retries: 0, rto_ms: RTO_MS, ..c };
        let (c2, s2) = raw_send(c1, ACK, seq![], now, cfg);
        let (c3, s3) = flush(c2, now, cfg);
        (c3, s2 + s3)
    }
}

pub open spec fn step_syn_received(c: ConnView, h: HdrSpec) -> ConnView {
    if (h.flags & ACK) == 0 || h.ack != c.local_seq {
        c
    } else {
        ConnView { state: TcpState::Established, retries: 0, rto_ms: RTO_MS, ..c }
    }
}

/// Acknowledgement processing in ESTABLISHED: an ACK at or after the
/// first unacknowledged byte drops the acknowledged bytes from the send
/// buffer, resets the timer, and flushes.
pub open spec fn step_est_ack(c: ConnView, h: HdrSpec, now: u64, cfg: bool) -> (ConnView, Seq<SegmentSpec>) {
    let start = wsub(c.local_seq, c.send_buf.len() as u32);
    if (h.flags & ACK) != 0 && (seq_lt_spec(start, h.ack) || h.ack == c.local_seq) {
        let a0 = wsub(h.ack, start);
        let acked = if a0 > c.send_buf.len() { c.send_buf.len() } else { a0 as nat };
        flush(ConnView { retries: 0, rto_ms: RTO_MS, send_buf: c.send_buf.subrange(acked as int, c.send_buf.len() as int),
            send_acked: h.ack as usize, ..c }, now, cfg)
    } else {
        (c, seq![])
    }
}

/// A FIN in ESTABLISHED: acknowledge it and move to CLOSE_WAIT.
pub open spec fn step_est_fin(c: ConnView, h: HdrSpec, now: u64, cfg: bool) -> (ConnView, Seq<SegmentSpec>) {
    if (h.flags & FIN) != 0 {
        let c1 = ConnView { remote_seq: wadd(c.remote_seq, 1), local_ack: wadd(c.remote_seq, 1), ..c };
        let (c2, s2) = raw_send(c1, ACK, seq![], now, cfg);
        (ConnView { state: TcpState::CloseWait, ..c2 }, s2)
    } else {
        (c, seq![])
    }
}

pub open spec fn step_established(c: ConnView, h: HdrSpec, now: u64, cfg: bool) -> (ConnView, Seq<SegmentSpec>) {
    let (c1, s1) = step_est_ack(c, h, now, cfg);
    if h.payload.len() > 0 {
        if h.seq != c1.remote_seq {
            let (c2, s2) = raw_send(c1, ACK, seq![], now, cfg);
            (c2, s1 + s2)
        } else {
            let rs = wadd(c1.remote_seq, h.payload.len() as u32);
            let c2 = ConnView { recv_buf: append_capped(c1.recv_buf, h.payload), remote_seq: rs, local_ack: rs, ..c1 };
            let (c3, s3) = raw_send(c2, ACK, seq![], now, cfg);
            let (c4, s4) = step_est_fin(c3, h, now, cfg);
            (c4, s1 + s3 + s4)
        }
    } else {
        let (c4, s4) = step_est_fin(c1, h, now, cfg);
        (c4, s1 + s4)
    }
}

/// In-order data after our FIN: stored, `remote_seq` advanced, not acknowledged.
pub open spec fn step_late_data(c: ConnView, h: HdrSpec) -> ConnView {
    if h.payload.len() > 0 && h.seq == c.remote_seq {
        ConnView { recv_buf: append_capped(c.recv_buf, h.payload), remote_seq: wadd(c.remote_seq, h.payload.len() as u32), ..c }
    } else {
        c
    }
}

/// A FIN after our FIN: acknowledge it and enter TIME_WAIT, timed from now.
pub open spec fn step_to_time_wait(c: ConnView, now: u64, cfg: bool) -> (ConnView, Seq<SegmentSpec>) {
    let c1 = ConnView { remote_seq: wadd(c.remote_seq, 1), local_ack: wadd(c.remote_seq, 1), ..c };
    let (c2, s2) = raw_send(c1, ACK, seq![], now, cfg);
    (ConnView { state: TcpState::TimeWait, last_tx_time: now, ..c2 }, s2)
}

pub open spec fn step_fin_wait1(c: ConnView, h: HdrSpec, now: u64, cfg: bool) -> (ConnView, Seq<SegmentSpec>) {
    let (c1, s1) = if (h.flags & ACK) != 0 {
        if (h.flags & FIN) != 0 {
            step_to_time_wait(c, now, cfg)
        } else {
            (ConnView { state: TcpState::FinWait2, ..c }, seq![])
        }
    } else {
        (c, seq![])
    };
    (step_late_data(c1, h), s1)
}

pub open spec fn step_fin_wait2(c: ConnView, h: HdrSpec, now: u64, cfg: bool) -> (ConnView, Seq<SegmentSpec>) {
    let (c1, s1) = if (h.flags & FIN) != 0 { step_to_time_wait(c, now, cfg) } else { (c, seq![]) };
    (step_late_data(c1, h), s1)
}

pub open spec fn step_close_wait(c: ConnView, h: HdrSpec, now: u64, cfg: bool) -> (ConnView, Seq<SegmentSpec>) {
    let (c1, s1) = if h.payload.len() > 0 && h.seq == c.remote_seq {
        let rs = wadd(c.remote_seq, h.payload.len() as u32);
        raw_send(ConnView { recv_buf: append_capped(c.recv_buf, h.payload), remote_seq: rs, local_ack: rs, ..c },
            ACK, seq![], now, cfg)
    } else {
        (c, seq![])
    };
    if (h.flags & FIN) != 0 {
        let (c2, s2) = raw_send(ConnView { local_ack: c1.remote_seq, ..c1 }, ACK, seq![], now, cfg);
        (c2, s1 + s2)
    } else {
        (c1, s1)
    }
}

pub open spec fn step_last_ack(c: ConnView, h: HdrSpec) -> ConnView {
    if (h.flags & ACK) != 0 { ConnView { state: TcpState::Closed, ..c } } else { c }
}

/// The transition a received segment causes in each state.
pub open spec fn step_segment(c: ConnView, h: HdrSpec, now: u64, cfg: bool) -> (ConnView, Seq<SegmentSpec>) {
    match c.state {
        TcpState::Listen => step_listen(c, h, now, cfg),
        TcpState::SynSent => step_syn_sent(c, h, now, cfg),
        TcpState::SynReceived => (step_syn_received(c, h), seq![]),
        TcpState::Established => step_established(c, h, now, cfg),
        TcpState::FinWait1 => step_fin_wait1(c, h, now, cfg),
        TcpState::FinWait2 => step_fin_wait2(c, h, now, cfg),
        TcpState::CloseWait => step_close_wait(c, h, now, cfg),
        TcpState::LastAck => (step_last_ack(c, h), seq![]),
        _ => (c, seq![]),
    }
}

/// Retransmission check: after `MAX_RETRIES` the connection is reset
/// (RST|ACK sent, slot cleared); otherwise once the timeout has elapsed
/// the last segment is sent again and the timeout doubles.
pub open spec fn step_retransmit(c: ConnView, now: u64, cfg: bool) -> (ConnView, Seq<SegmentSpec>) {
    if c.retries >= MAX_RETRIES {
        let (c1, s1) = raw_send(c, RST | ACK, seq![], now, cfg);
        (closed_conn(), s1)
    } else if now - c.last_tx_time >= c.rto_ms {
        let (c1, s1) = raw_send(ConnView { local_seq: c.last_tx_seq, ..c }, c.last_tx_flags, c.last_tx_payload, now, cfg);
        (ConnView { local_seq: c.local_seq, retries: (c1.retries + 1) as u8, rto_ms: (c1.rto_ms * 2) as u64,
            last_tx_time: now, ..c1 }, s1)
    } else {
        (c, seq![])
    }
}

/// Ensures shared by the engine's internal steps.
pub open spec fn stepped(old_c: ConnView, new_c: ConnView, old_ctx: TxContext, new_ctx: TxContext,
    res: (ConnView, Seq<SegmentSpec>)) -> bool {
    &&& new_ctx.now == old_ctx.now
    &&& new_ctx.configured == old_ctx.configured
    &&& new_c == res.0
    &&& sent_extends(old_ctx.sent@, new_ctx.sent@, res.1)
}

fn append_capped_exec(buf: &mut Vec<u8>, p: &[u8])
    requires
        old(buf)@.len() <= RECV_BUF_CAP,
    ensures
        final(buf)@ == append_capped(old(buf)@, p@),
        final(buf)@.len() <= RECV_BUF_CAP,
{
    let room = RECV_BUF_CAP - buf.len();
    let n = if p.len() < room { p.len() } else { room };
    crate::net::wire::push_slice(buf, &p[0..n]);
}

fn handle_listen(conn: &mut TcpConn, hdr: &TcpHeader, ctx: &mut TxContext)
    requires
        old(conn).wf(),
    ensures
        final(conn).wf(),
        stepped(old(conn)@, final(conn)@, *old(ctx), *final(ctx), step_listen(old(conn)@, hdr_spec(hdr), old(ctx).now, old(ctx).configured)),
{
    if (hdr.flags & SYN) == 0 {
        return;
    }
    conn.remote_seq = hdr.seq.wrapping_add(1);
    conn.local_ack = hdr.seq.wrapping_add(1);
    conn.state = TcpState::SynReceived;
    let empty: Vec<u8> = Vec::new();
    assert(empty@ =~= seq![]);
    send_segment(conn, SYN | ACK, empty.as_slice(), ctx);
}

fn handle_syn_sent(conn: &mut TcpConn, hdr: &TcpHeader, ctx: &mut TxContext)
    requires
        old(conn).wf(),
    ensures
        final(conn).wf(),
        stepped(old(conn)@, final(conn)@, *old(ctx), *final(ctx), step_syn_sent(old(conn)@, hdr_spec(hdr), old(ctx).now, old(ctx).configured)),
{
    if (hdr.flags & (SYN | ACK)) != (SYN | ACK) {
        return;
    }
    if hdr.ack != conn.local_seq {
        return;
    }
    conn.remote_seq = hdr.seq.wrapping_add(1);
    conn.local_ack = hdr.seq.wrapping_add(1);
    conn.state = TcpState::Established;
    conn.retries = 0;
    conn.rto_ms = RTO_MS;
    let ghost s0 = ctx.sent@;
    send_bare(conn, ACK, ctx);
    let ghost s1 = ctx.sent@;
    flush_send(conn, ctx);
    proof {
        let c1 = ConnView { remote_seq: wadd(hdr.seq, 1), local_ack: wadd(hdr.seq, 1), state: TcpState::Established,
            retries: 0, rto_ms: RTO_MS, ..old(conn)@ };
        let (c2, x2) = raw_send(c1, ACK, seq![], ctx.now, ctx.configured);
        let (c3, x3) = flush(c2, ctx.now, ctx.configured);
        lemma_sent_extends_trans(s0, s1, ctx.sent@, x2, x3);
    }
}

fn handle_syn_received(conn: &mut TcpConn, hdr: &TcpHeader)
    requires
        old(conn).wf(),
    ensures
        final(conn).wf(),
        final(conn)@ == step_syn_received(old(conn)@, hdr_spec(hdr)),
{
    if (hdr.flags & ACK) == 0 {
        return;
    }
    if hdr.ack != conn.local_seq {
        return;
    }
    conn.state = TcpState::Established;
    conn.retries = 0;
    conn.rto_ms = RTO_MS;
}

fn remove_front(buf: &mut Vec<u8>, n: usize)
    requires
        n <= old(buf)@.len(),
    ensures
        final(buf)@ == old(buf)@.subrange(n as int, old(buf)@.len() as int),
{
    let mut rest: Vec<u8> = Vec::new();
    let mut i: usize = n;
    while i < buf.len()
        invariant
            n <= i <= buf@.len(),
            buf@ == old(buf)@,
            rest@ == buf@.subrange(n as int, i as int),
        decreases buf@.len() - i,
    {
        rest.push(buf[i]);
        i = i + 1;
        assert(rest@ =~= buf@.subrange(n as int, i as int));
    }
    *buf = rest;
}

fn est_ack(conn: &mut TcpConn, hdr: &TcpHeader, ctx: &mut TxContext)
    requires
        old(conn).wf(),
    ensures
        final(conn).wf(),
        stepped(old(conn)@, final(conn)@, *old(ctx), *final(ctx), step_est_ack(old(conn)@, hdr_spec(hdr), old(ctx).now, old(ctx).configured)),
{
    if (hdr.flags & ACK) != 0 {
        let ack = hdr.ack;
        let send_len = conn.send_buf.len();
        let acked_start = conn.local_seq.wrapping_sub(send_len as u32);
        if seq_lt(acked_start, ack) || ack == conn.local_seq {
            conn.retries = 0;
            conn.rto_ms = RTO_MS;
            let mut acked = ack.wrapping_sub(acked_start);
            if acked > send_len as u32 {
                acked = send_len as u32;
            }
            if acked > 0 {
                remove_front(&mut conn.send_buf, acked as usize);
            }
            conn.send_acked = ack as usize;
            proof {
                assert(acked == 0 ==> conn.send_buf@ =~= old(conn).send_buf@.subrange(0, send_len as int));
            }
            flush_send(conn, ctx);
        }
    }
}

fn est_fin(conn: &mut TcpConn, hdr: &TcpHeader, ctx: &mut TxContext)
    requires
        old(conn).wf(),
    ensures
        final(conn).wf(),
        stepped(old(conn)@, final(conn)@, *old(ctx), *final(ctx), step_est_fin(old(conn)@, hdr_spec(hdr), old(ctx).now, old(ctx).configured)),
{
    if (hdr.flags & FIN) != 0 {
        conn.remote_seq = conn.remote_seq.wrapping_add(1);
        conn.local_ack = conn.remote_seq;
        send_bare(conn, ACK, ctx);
        conn.state = TcpState::CloseWait;
    }
}

fn handle_established(conn: &mut TcpConn, hdr: &TcpHeader, ctx: &mut TxContext)
    requires
        old(conn).wf(),
    ensures
        final(conn).wf(),
        stepped(old(conn)@, final(conn)@, *old(ctx), *final(ctx), step_established(old(conn)@, hdr_spec(hdr), old(ctx).now, old(ctx).configured)),
{
    let ghost s0 = ctx.sent@;
    est_ack(conn, hdr, ctx);
    let ghost c1 = conn@;
    let ghost s1 = ctx.sent@;
    if hdr.payload.len() > 0 {
        if hdr.seq != conn.remote_seq {
            send_bare(conn, ACK, ctx);
            proof {
                let (_, x1) = step_est_ack(old(conn)@, hdr_spec(hdr), ctx.now, ctx.configured);
                let (_, x2) = raw_send(c1, ACK, seq![], ctx.now, ctx.configured);
                lemma_sent_extends_trans(s0, s1, ctx.sent@, x1, x2);
            }
            return;
        }
        append_capped_exec(&mut conn.recv_buf, hdr.payload);
        conn.remote_seq = conn.remote_seq.wrapping_add(hdr.payload.len() as u32);
        conn.local_ack = conn.remote_seq;
        send_bare(conn, ACK, ctx);
        let ghost c3 = conn@;
        let ghost s3 = ctx.sent@;
        est_fin(conn, hdr, ctx);
        proof {
            let (_, x1) = step_est_ack(old(conn)@, hdr_spec(hdr), ctx.now, ctx.configured);
            let rs = wadd(c1.remote_seq, hdr.payload@.len() as u32);
            let c2 = ConnView { recv_buf: append_capped(c1.recv_buf, hdr.payload@), remote_seq: rs, local_ack: rs, ..c1 };
            let (_, x3) = raw_send(c2, ACK, seq![], ctx.now, ctx.configured);
            let (_, x4) = step_est_fin(c3, hdr_spec(hdr), ctx.now, ctx.configured);
            lemma_sent_extends_trans(s0, s1, s3, x1, x3);
            lemma_sent_extends_trans(s0, s3, ctx.sent@, x1 + x3, x4);
        }
    } else {
        est_fin(conn, hdr, ctx);
        proof {
            let (_, x1) = step_est_ack(old(conn)@, hdr_spec(hdr), ctx.now, ctx.configured);
            let (_, x4) = step_est_fin(c1, hdr_spec(hdr), ctx.now, ctx.configured);
            lemma_sent_extends_trans(s0, s1, ctx.sent@, x1, x4);
        }
    }
}

fn late_data(conn: &mut TcpConn, hdr: &TcpHeader)
    requires
        old(conn).wf(),
    ensures
        final(conn).wf(),
        final(conn)@ == step_late_data(old(conn)@, hdr_spec(hdr)),
{
    if hdr.payload.len() > 0 && hdr.seq == conn.remote_seq {
        append_capped_exec(&mut conn.recv_buf, hdr.payload);
        conn.remote_seq = conn.remote_seq.wrapping_add(hdr.payload.len() as u32);
    }
}

fn to_time_wait(conn: &mut TcpConn, ctx: &mut TxContext)
    requires
        old(conn).wf(),
    ensures
        final(conn).wf(),
        stepped(old(conn)@, final(conn)@, *old(ctx), *final(ctx), step_to_time_wait(old(conn)@, old(ctx).now, old(ctx).configured)),
{
    conn.remote_seq = conn.remote_seq.wrapping_add(1);
    conn.local_ack = conn.remote_seq;
    send_bare(conn, ACK, ctx);
    conn.state = TcpState::TimeWait;
    conn.last_tx_time = ctx.now;
}

fn handle_fin_wait1(conn: &mut TcpConn, hdr: &TcpHeader, ctx: &mut TxContext)
    requires
        old(conn).wf(),
    ensures
        final(conn).wf(),
        stepped(old(conn)@, final(conn)@, *old(ctx), *final(ctx), step_fin_wait1(old(conn)@, hdr_spec(hdr), old(ctx).now, old(ctx).configured)),
{
    if (hdr.flags & ACK) != 0 {
        if (hdr.flags & FIN) != 0 {
            to_time_wait(conn, ctx);
        } else {
            conn.state = TcpState::FinWait2;
        }
    }
    late_data(conn, hdr);
}

fn handle_fin_wait2(conn: &mut TcpConn, hdr: &TcpHeader, ctx: &mut TxContext)
    requires
        old(conn).wf(),
    ensures
        final(conn).wf(),
        stepped(old(conn)@, final(conn)@, *old(ctx), *final(ctx), step_fin_wait2(old(conn)@, hdr_spec(hdr), old(ctx).now, old(ctx).configured)),
{
    if (hdr.flags & FIN) != 0 {
        to_time_wait(conn, ctx);
    }
    late_data(conn, hdr);
}

fn handle_close_wait(conn: &mut TcpConn, hdr: &TcpHeader, ctx: &mut TxContext)
    requires
        old(conn).wf(),
    ensures
        final(conn).wf(),
        stepped(old(conn)@, final(conn)@, *old(ctx), *final(ctx), step_close_wait(old(conn)@, hdr_spec(hdr), old(ctx).now, old(ctx).configured)),
{
    let ghost s0 = ctx.sent@;
    if hdr.payload.len() > 0 && hdr.seq == conn.remote_seq {
        append_capped_exec(&mut conn.recv_buf, hdr.payload);
        conn.remote_seq = conn.remote_seq.wrapping_add(hdr.payload.len() as u32);
        conn.local_ack = conn.remote_seq;
        send_bare(conn, ACK, ctx);
    }
    let ghost s1 = ctx.sent@;
    let ghost c1 = conn@;
    if (hdr.flags & FIN) != 0 {
        conn.local_ack = conn.remote_seq;
        send_bare(conn, ACK, ctx);
        proof {
            let h = hdr_spec(hdr);
            let c = old(conn)@;
            let (_, x1) = if h.payload.len() > 0 && h.seq == c.remote_seq {
                let rs = wadd(c.remote_seq, h.payload.len() as u32);
                raw_send(ConnView { recv_buf: append_capped(c.recv_buf, h.payload), remote_seq: rs, local_ack: rs, ..c },
                    ACK, seq![], ctx.now, ctx.configured)
            } else {
                (c, seq![])
            };
            let (_, x2) = raw_send(ConnView { local_ack: c1.remote_seq, ..c1 }, ACK, seq![], ctx.now, ctx.configured);
            lemma_sent_extends_trans(s0, s1, ctx.sent@, x1, x2);
        }
    }
}

fn handle_last_ack(conn: &mut TcpConn, hdr: &TcpHeader)
    requires
        old(conn).wf(),
    ensures
        final(conn).wf(),
        final(conn)@ == step_last_ack(old(conn)@, hdr_spec(hdr)),
{
    if (hdr.flags & ACK) != 0 {
        conn.state = TcpState::Closed;
    }
}

/// Runs the received segment through the connection's state machine.
pub fn process_segment(conn: &mut TcpConn, hdr: &TcpHeader, ctx: &mut TxContext)
    requires
        old(conn).wf(),
    ensures
        final(conn).wf(),
        stepped(old(conn)@, final(conn)@, *old(ctx), *final(ctx), step_segment(old(conn)@, hdr_spec(hdr), old(ctx).now, old(ctx).configured)),
{
    match conn.state {
        TcpState::Listen => handle_listen(conn, hdr, ctx),
        TcpState::SynSent => handle_syn_sent(conn, hdr, ctx),
        TcpState::SynReceived => handle_syn_received(conn, hdr),
        TcpState::Established => handle_established(conn, hdr, ctx),
        TcpState::FinWait1 => handle_fin_wait1(conn, hdr, ctx),
        TcpState::FinWait2 => handle_fin_wait2(conn, hdr, ctx),
        TcpState::CloseWait => handle_close_wait(conn, hdr, ctx),
        TcpState::LastAck => handle_last_ack(conn, hdr),
        _ => {},
    }
}

/// Retransmits the last segment when its timeout has elapsed, or resets
/// the connection after `MAX_RETRIES` retransmissions.
pub fn check_retransmit(conn: &mut TcpConn, ctx: &mut TxContext)
    requires
        old(conn).wf(),
        old(conn).last_tx_time <= old(ctx).now,
    ensures
        final(conn).wf(),
        final(conn).last_tx_time <= final(ctx).now,
        stepped(old(conn)@, final(conn)@, *old(ctx), *final(ctx), step_retransmit(old(conn)@, old(ctx).now, old(ctx).configured)),
{
    if conn.retries >= MAX_RETRIES {
        send_bare(conn, RST | ACK, ctx);
        *conn = TcpConn::new();
        return;
    }
    let now = ctx.now;
    if now - conn.last_tx_time >= conn.rto_ms {
        let payload = vec_of(conn.last_tx_payload.as_slice());
        let flags = conn.last_tx_flags;
        let next_seq = conn.local_seq;
        conn.local_seq = conn.last_tx_seq;
        send_segment_raw(conn, flags, payload.as_slice(), ctx);
        conn.local_seq = next_seq;
        conn.retries = conn.retries + 1;
        conn.rto_ms = conn.rto_ms * 2;
        conn.last_tx_time = now;
    }
}

} // verus!

verus! {

/// The connection table.
pub struct TcpTable {
    pub conns: Vec<TcpConn>,
}

impl View for TcpTable {
    type V = Seq<ConnView>;

    open spec fn view(&self) -> Seq<ConnView> {
        Seq::new(self.conns@.len(), |i: int| self.conns@[i]@)
    }
}

impl TcpTable {
    /// `MAX_CONNS` well-formed slots.
    pub open spec fn wf(&self) -> bool {
        &&& self.conns@.len() == MAX_CONNS
        &&& forall|i: int| 0 <= i < self.conns@.len() ==> #[trigger] self.conns@[i].wf()
    }

    /// No slot's last transmission time lies after `now`.
    pub open spec fn times_before(&self, now: u64) -> bool {
        forall|i: int| 0 <= i < self.conns@.len() ==> #[trigger] self.conns@[i].last_tx_time <= now
    }

    /// A table of closed slots.
    pub fn new() -> (t: Self)
        ensures
            t.wf(),
            t@ == Seq::new(MAX_CONNS as nat, |i: int| closed_conn()),
    {
        let mut conns: Vec<TcpConn> = Vec::new();
        let mut i: usize = 0;
        while i < MAX_CONNS
            invariant
                i <= MAX_CONNS,
                conns@.len() == i,
                forall|k: int| 0 <= k < i ==> (#[trigger] conns@[k]).wf() && conns@[k]@ == closed_conn(),
            decreases MAX_CONNS - i,
        {
            conns.push(TcpConn::new());
            i = i + 1;
        }
        let t = TcpTable { conns };
        assert(t@ =~= Seq::new(MAX_CONNS as nat, |i: int| closed_conn()));
        t
    }
}

/// `i` is the first slot in state CLOSED.
pub open spec fn first_closed(s: Seq<ConnView>, i: int) -> bool {
    &&& 0 <= i < s.len()
    &&& s[i].state == TcpState::Closed
    &&& forall|j: int| 0 <= j < i ==> s[j].state != TcpState::Closed
}

pub open spec fn has_closed(s: Seq<ConnView>) -> bool {
    exists|i: int| 0 <= i < s.len() && s[i].state == TcpState::Closed
}

/// A slot opened for listening on `port`, its initial sequence number
/// taken from the clock.
pub open spec fn listening(c: ConnView, port: u16, now: u64) -> ConnView {
    ConnView { state: TcpState::Listen, local_port: port, remote_ip: [0u8, 0u8, 0u8, 0u8], remote_port: 0,
        local_seq: now as u32, remote_seq: 0, local_ack: 0, ..c }
}

/// A slot opened towards a peer, before its SYN is sent.
pub open spec fn connecting(c: ConnView, local_port: u16, remote_ip: [u8; 4], remote_port: u16, now: u64) -> ConnView {
    ConnView { state: TcpState::SynSent, local_port, remote_ip, remote_port, local_seq: now as u32, remote_seq: 0,
        local_ack: 0, retries: 0, rto_ms: RTO_MS, ..c }
}

fn open_listen(conn: &mut TcpConn, port: u16, now: u64)
    requires
        old(conn).wf(),
    ensures
        final(conn).wf(),
        final(conn)@ == listening(old(conn)@, port, now),
{
    conn.state = TcpState::Listen;
    conn.local_port = port;
    conn.remote_ip = [0u8, 0u8, 0u8, 0u8];
    conn.remote_port = 0;
    conn.local_seq = #[verifier::truncate] (now as u32);
    conn.remote_seq = 0;
    conn.local_ack = 0;
}

/// Opens the first closed slot for listening on `port`.
pub fn listen(table: &mut TcpTable, port: u16, now: u64) -> (r: Result<(), &'static str>)
    requires
        old(table).wf(),
    ensures
        final(table).wf(),
        r is Ok <==> has_closed(old(table)@),
        r matches Err(e) ==> e@ == "no free connection slots"@ && final(table)@ == old(table)@,
        r is Ok ==> exists|i: int| first_closed(old(table)@, i)
            && final(table)@ == old(table)@.update(i, listening(old(table)@[i], port, now)),
{
    let mut i: usize = 0;
    while i < table.conns.len()
        invariant
            table.wf(),
            table@ == old(table)@,
            table.conns@ == old(table).conns@,
            i <= table.conns@.len(),
            forall|j: int| 0 <= j < i ==> table@[j].state != TcpState::Closed,
        decreases table.conns@.len() - i,
    {
        if table.conns[i].state == TcpState::Closed {
            open_listen(&mut table.conns[i], port, now);
            proof {
                assert forall|j: int| 0 <= j < table.conns@.len() implies #[trigger] table.conns@[j].wf() by {
                    if j != i {
                        assert(table.conns@[j] == old(table).conns@[j]);
                    }
                }
                assert(first_closed(old(table)@, i as int));
                assert(table@ =~= old(table)@.update(i as int, listening(old(table)@[i as int], port, now)));
            }
            return Ok(());
        }
        i = i + 1;
    }
    Err("no free connection slots")
}

} // verus!

verus! {

proof fn lemma_slot_update(a: Seq<TcpConn>, b: Seq<TcpConn>, i: int)
    requires
        0 <= i < a.len(),
        b == a.update(i, b[i]),
        forall|j: int| 0 <= j < a.len() ==> #[trigger] a[j].wf(),
        b[i].wf(),
    ensures
        forall|j: int| 0 <= j < b.len() ==> #[trigger] b[j].wf(),
        Seq::new(b.len(), |k: int| b[k]@) == Seq::new(a.len(), |k: int| a[k]@).update(i, b[i]@),
{
    assert forall|j: int| 0 <= j < b.len() implies #[trigger] b[j].wf() by {
        if j != i {
            assert(b[j] == a[j]);
        }
    }
    assert(Seq::new(b.len(), |k: int| b[k]@) =~= Seq::new(a.len(), |k: int| a[k]@).update(i, b[i]@));
}

fn open_connect(conn: &mut TcpConn, local_port: u16, remote_ip: [u8; 4], remote_port: u16, ctx: &mut TxContext)
    requires
        old(conn).wf(),
    ensures
        final(conn).wf(),
        stepped(old(conn)@, final(conn)@, *old(ctx), *final(ctx),
            send_adv(connecting(old(conn)@, local_port, remote_ip, remote_port, old(ctx).now), SYN, seq![],
                old(ctx).now, old(ctx).configured)),
{
    conn.state = TcpState::SynSent;
    conn.local_port = local_port;
    conn.remote_ip = remote_ip;
    conn.remote_port = remote_port;
    conn.local_seq = #[verifier::truncate] (ctx.now as u32);
    conn.remote_seq = 0;
    conn.local_ack = 0;
    conn.retries = 0;
    conn.rto_ms = RTO_MS;
    let empty: Vec<u8> = Vec::new();
    assert(empty@ =~= seq![]);
    send_segment(conn, SYN, empty.as_slice(), ctx);
}

/// Opens the first closed slot towards `remote_ip:remote_port` and sends
/// a SYN; returns the slot index.
pub fn connect(table: &mut TcpTable, local_port: u16, remote_ip: [u8; 4], remote_port: u16, ctx: &mut TxContext)
    -> (r: Result<usize, &'static str>)
    requires
        old(table).wf(),
    ensures
        final(table).wf(),
        final(ctx).now == old(ctx).now,
        final(ctx).configured == old(ctx).configured,
        r is Ok <==> has_closed(old(table)@),
        r matches Err(e) ==> e@ == "no free connection slots"@ && final(table)@ == old(table)@
            && final(ctx).sent@ == old(ctx).sent@,
        r matches Ok(i) ==> first_closed(old(table)@, i as int) && ({
            let (c, segs) = send_adv(connecting(old(table)@[i as int], local_port, remote_ip, remote_port, old(ctx).now),
                SYN, seq![], old(ctx).now, old(ctx).configured);
            final(table)@ == old(table)@.update(i as int, c) && sent_extends(old(ctx).sent@, final(ctx).sent@, segs)
        }),
{
    let mut i: usize = 0;
    while i < table.conns.len()
        invariant
            table.wf(),
            table.conns@ == old(table).conns@,
            table@ == old(table)@,
            ctx == old(ctx),
            i <= table.conns@.len(),
            forall|j: int| 0 <= j < i ==> table@[j].state != TcpState::Closed,
        decreases table.conns@.len() - i,
    {
        if table.conns[i].state == TcpState::Closed {
            open_connect(&mut table.conns[i], local_port, remote_ip, remote_port, ctx);
            proof {
                lemma_slot_update(old(table).conns@, table.conns@, i as int);
            }
            return Ok(i);
        }
        i = i + 1;
    }
    Err("no free connection slots")
}

/// Whether data may be queued in this state.
pub open spec fn can_send(s: TcpState) -> bool {
    s == TcpState::Established || s == TcpState::CloseWait
}

/// How much of `n` bytes fits in the send buffer.
pub open spec fn send_room(c: ConnView, n: nat) -> nat {
    min_nat(n, (SEND_BUF_CAP - c.send_buf.len()) as nat)
}

fn queue_and_flush(conn: &mut TcpConn, data: &[u8], n: usize, ctx: &mut TxContext)
    requires
        old(conn).wf(),
        n <= data@.len(),
        old(conn).send_buf@.len() + n <= SEND_BUF_CAP,
    ensures
        final(conn).wf(),
        stepped(old(conn)@, final(conn)@, *old(ctx), *final(ctx),
            flush(ConnView { send_buf: old(conn)@.send_buf + data@.subrange(0, n as int), ..old(conn)@ },
                old(ctx).now, old(ctx).configured)),
{
    crate::net::wire::push_slice(&mut conn.send_buf, &data[0..n]);
    flush_send(conn, ctx);
}

/// Queues as much of `data` as fits in the send buffer and sends its head;
/// returns the number of bytes queued.
pub fn send(table: &mut TcpTable, idx: usize, data: &[u8], ctx: &mut TxContext) -> (r: Result<usize, &'static str>)
    requires
        old(table).wf(),
    ensures
        final(table).wf(),
        final(ctx).now == old(ctx).now,
        final(ctx).configured == old(ctx).configured,
        idx >= MAX_CONNS ==> (r matches Err(e) && e@ == "invalid connection index"@),
        idx < MAX_CONNS && !can_send(old(table)@[idx as int].state) ==> (r matches Err(e)
            && e@ == "connection not established"@),
        idx < MAX_CONNS && can_send(old(table)@[idx as int].state) && send_room(old(table)@[idx as int], data@.len()) == 0
            ==> (r matches Err(e) && e@ == "send buffer full"@),
        idx < MAX_CONNS && can_send(old(table)@[idx as int].state) && send_room(old(table)@[idx as int], data@.len()) > 0
            ==> r is Ok,
        r is Err ==> final(table)@ == old(table)@ && final(ctx).sent@ == old(ctx).sent@,
        r matches Ok(n) ==> idx < MAX_CONNS && can_send(old(table)@[idx as int].state)
            && n == send_room(old(table)@[idx as int], data@.len()) && n > 0 && ({
            let c = old(table)@[idx as int];
            let (c2, segs) = flush(ConnView { send_buf: c.send_buf + data@.subrange(0, n as int), ..c },
                old(ctx).now, old(ctx).configured);
            final(table)@ == old(table)@.update(idx as int, c2) && sent_extends(old(ctx).sent@, final(ctx).sent@, segs)
        }),
{
    if idx >= table.conns.len() {
        return Err("invalid connection index");
    }
    let state = table.conns[idx].state;
    if state != TcpState::Established && state != TcpState::CloseWait {
        return Err("connection not established");
    }
    assert(table.conns@[idx as int].wf());
    let room = SEND_BUF_CAP - table.conns[idx].send_buf.len();
    let to_copy = if data.len() < room { data.len() } else { room };
    if to_copy == 0 {
        return Err("send buffer full");
    }
    queue_and_flush(&mut table.conns[idx], data, to_copy, ctx);
    proof {
        lemma_slot_update(old(table).conns@, table.conns@, idx as int);
    }
    Ok(to_copy)
}

fn take_received(conn: &mut TcpConn, buf: &mut [u8]) -> (n: usize)
    requires
        old(conn).wf(),
    ensures
        final(conn).wf(),
        n == min_nat(old(conn).recv_buf@.len(), old(buf)@.len()),
        final(buf)@ == splice(old(buf)@, 0, old(conn).recv_buf@.subrange(0, n as int)),
        final(conn)@ == (ConnView { recv_buf: old(conn)@.recv_buf.subrange(n as int, old(conn)@.recv_buf.len() as int),
            ..old(conn)@ }),
{
    let n = if conn.recv_buf.len() < buf.len() { conn.recv_buf.len() } else { buf.len() };
    copy_into(buf, 0, &conn.recv_buf.as_slice()[0..n]);
    remove_front(&mut conn.recv_buf, n);
    n
}

/// Moves up to `buf.len()` received bytes into `buf`, oldest first, and
/// returns how many; `Ok(0)` when nothing is waiting.
pub fn recv(table: &mut TcpTable, idx: usize, buf: &mut [u8]) -> (r: Result<usize, &'static str>)
    requires
        old(table).wf(),
    ensures
        final(table).wf(),
        idx >= MAX_CONNS <==> r is Err,
        r matches Err(e) ==> e@ == "invalid connection index"@ && final(table)@ == old(table)@
            && final(buf)@ == old(buf)@,
        r matches Ok(n) ==> {
            let c = old(table)@[idx as int];
            &&& n == min_nat(c.recv_buf.len(), old(buf)@.len())
            &&& final(buf)@ == splice(old(buf)@, 0, c.recv_buf.subrange(0, n as int))
            &&& final(table)@ == old(table)@.update(idx as int,
                ConnView { recv_buf: c.recv_buf.subrange(n as int, c.recv_buf.len() as int), ..c })
        },
{
    if idx >= table.conns.len() {
        return Err("invalid connection index");
    }
    if table.conns[idx].recv_buf.len() == 0 {
        proof {
            let c = old(table)@[idx as int];
            assert(old(buf)@ =~= splice(old(buf)@, 0, c.recv_buf.subrange(0, 0)));
            assert(c.recv_buf.subrange(0, c.recv_buf.len() as int) =~= c.recv_buf);
            assert(table@ =~= old(table)@.update(idx as int, ConnView { recv_buf: c.recv_buf.subrange(0, c.recv_buf.len() as int), ..c }));
        }
        return Ok(0);
    }
    let n = take_received(&mut table.conns[idx], buf);
    proof {
        lemma_slot_update(old(table).conns@, table.conns@, idx as int);
    }
    Ok(n)
}

fn close_slot(conn: &mut TcpConn, ctx: &mut TxContext)
    requires
        old(conn).wf(),
        old(conn).state == TcpState::Established || old(conn).state == TcpState::CloseWait,
    ensures
        final(conn).wf(),
        stepped(old(conn)@, final(conn)@, *old(ctx), *final(ctx), step_close(old(conn)@, old(ctx).now, old(ctx).configured)),
{
    let empty: Vec<u8> = Vec::new();
    assert(empty@ =~= seq![]);
    if conn.state == TcpState::Established {
        let ghost s0 = ctx.sent@;
        flush_send(conn, ctx);
        let ghost s1 = ctx.sent@;
        let ghost c1 = conn@;
        conn.state = TcpState::FinWait1;
        send_segment(conn, FIN | ACK, empty.as_slice(), ctx);
        proof {
            let (_, x1) = flush(old(conn)@, ctx.now, ctx.configured);
            let (_, x2) = send_adv(ConnView { state: TcpState::FinWait1, ..c1 }, FIN | ACK, seq![], ctx.now, ctx.configured);
            lemma_sent_extends_trans(s0, s1, ctx.sent@, x1, x2);
        }
    } else {
        conn.state = TcpState::LastAck;
        send_segment(conn, FIN | ACK, empty.as_slice(), ctx);
    }
}

/// Active close from ESTABLISHED (flush, then FIN, to FIN_WAIT_1) or
/// passive close from CLOSE_WAIT (FIN, to LAST_ACK).
pub open spec fn step_close(c: ConnView, now: u64, cfg: bool) -> (ConnView, Seq<SegmentSpec>) {
    if c.state == TcpState::Established {
        let (c1, s1) = flush(c, now, cfg);
        let (c2, s2) = send_adv(ConnView { state: TcpState::FinWait1, ..c1 }, FIN | ACK, seq![], now, cfg);
        (c2, s1 + s2)
    } else {
        send_adv(ConnView { state: TcpState::LastAck, ..c }, FIN | ACK, seq![], now, cfg)
    }
}

/// Closes a connection (see `step_close`).
pub fn close(table: &mut TcpTable, idx: usize, ctx: &mut TxContext) -> (r: Result<(), &'static str>)
    requires
        old(table).wf(),
    ensures
        final(table).wf(),
        final(ctx).now == old(ctx).now,
        final(ctx).configured == old(ctx).configured,
        idx >= MAX_CONNS ==> (r matches Err(e) && e@ == "invalid connection index"@),
        idx < MAX_CONNS && !can_send(old(table)@[idx as int].state) ==> (r matches Err(e)
            && e@ == "connection not in closable state"@),
        idx < MAX_CONNS && can_send(old(table)@[idx as int].state) ==> r is Ok,
        r is Err ==> final(table)@ == old(table)@ && final(ctx).sent@ == old(ctx).sent@,
        r is Ok ==> idx < MAX_CONNS && can_send(old(table)@[idx as int].state) && ({
            let (c2, segs) = step_close(old(table)@[idx as int], old(ctx).now, old(ctx).configured);
            final(table)@ == old(table)@.update(idx as int, c2) && sent_extends(old(ctx).sent@, final(ctx).sent@, segs)
        }),
{
    if idx >= table.conns.len() {
        return Err("invalid connection index");
    }
    let state = table.conns[idx].state;
    if state != TcpState::Established && state != TcpState::CloseWait {
        return Err("connection not in closable state");
    }
    close_slot(&mut table.conns[idx], ctx);
    proof {
        lemma_slot_update(old(table).conns@, table.conns@, idx as int);
    }
    Ok(())
}

/// State, local port, peer address, peer port and bytes waiting, of a slot.
pub fn status(table: &TcpTable, idx: usize) -> (r: Result<(TcpState, u16, [u8; 4], u16, usize), &'static str>)
    requires
        table.wf(),
    ensures
        idx >= MAX_CONNS <==> r is Err,
        r matches Err(e) ==> e@ == "invalid connection index"@,
        r matches Ok(t) ==> {
            let c = table@[idx as int];
            t == (c.state, c.local_port, c.remote_ip, c.remote_port, c.recv_buf.len() as usize)
        },
{
    if idx >= table.conns.len() {
        return Err("invalid connection index");
    }
    let c = &table.conns[idx];
    Ok((c.state, c.local_port, c.remote_ip, c.remote_port, c.recv_buf.len()))
}

/// The list entry of slot `i`.
pub open spec fn list_entry(c: ConnView, i: int) -> (usize, TcpState, u16, [u8; 4], u16) {
    (i as usize, c.state, c.local_port, c.remote_ip, c.remote_port)
}

/// Entries of the slots below `n` that are neither closed nor in TIME_WAIT.
pub open spec fn open_entries(s: Seq<ConnView>, n: nat) -> Seq<(usize, TcpState, u16, [u8; 4], u16)>
    decreases n,
{
    if n == 0 {
        seq![]
    } else {
        let c = s[n - 1];
        let prev = open_entries(s, (n - 1) as nat);
        if c.state == TcpState::Closed || c.state == TcpState::TimeWait { prev } else { prev.push(list_entry(c, n - 1)) }
    }
}

/// The open connections, in slot order.
pub fn list(table: &TcpTable) -> (v: Vec<(usize, TcpState, u16, [u8; 4], u16)>)
    requires
        table.wf(),
    ensures
        v@ == open_entries(table@, MAX_CONNS as nat),
{
    let mut v = Vec::new();
    let mut i: usize = 0;
    while i < table.conns.len()
        invariant
            table.wf(),
            i <= table.conns@.len(),
            v@ == open_entries(table@, i as nat),
        decreases table.conns@.len() - i,
    {
        let c = &table.conns[i];
        if !c.closed() {
            v.push((i, c.state, c.local_port, c.remote_ip, c.remote_port));
        }
        i = i + 1;
    }
    v
}

} // verus!

verus! {

/// Whether `data` parses as a TCP segment.
pub open spec fn tcp_parses(data: Seq<u8>) -> bool {
    data.len() >= 20 && 20 <= (data[12] / 16) * 4 <= data.len()
}

/// The engine's view of a parsed segment.
pub open spec fn parsed_hdr(data: Seq<u8>) -> HdrSpec {
    HdrSpec {
        seq: be32_value(data[4], data[5], data[6], data[7]),
        ack: be32_value(data[8], data[9], data[10], data[11]),
        flags: data[13] % 64,
        payload: data.subrange(((data[12] / 16) * 4) as int, data.len() as int),
    }
}

pub open spec fn zero_ip() -> [u8; 4] {
    [0u8, 0u8, 0u8, 0u8]
}

/// Whether a segment from `src_ip:src_port` to `dst_port` belongs to `c`.
pub open spec fn conn_matches(c: ConnView, src_ip: [u8; 4], src_port: u16, dst_port: u16) -> bool {
    &&& c.state != TcpState::Closed
    &&& c.state != TcpState::TimeWait
    &&& c.local_port == dst_port
    &&& (c.remote_ip == zero_ip() || c.remote_ip == src_ip)
    &&& (c.remote_port == 0 || c.remote_port == src_port)
}

/// `i` is the first slot the segment belongs to.
pub open spec fn first_match(s: Seq<ConnView>, i: int, src_ip: [u8; 4], src_port: u16, dst_port: u16) -> bool {
    &&& 0 <= i < s.len()
    &&& conn_matches(s[i], src_ip, src_port, dst_port)
    &&& forall|j: int| 0 <= j < i ==> !conn_matches(s[j], src_ip, src_port, dst_port)
}

/// A wildcard peer address or port is bound to the segment's source.
pub open spec fn bind_peer(c: ConnView, src_ip: [u8; 4], src_port: u16) -> ConnView {
    ConnView {
        remote_ip: if c.remote_ip == zero_ip() { src_ip } else { c.remote_ip },
        remote_port: if c.remote_port == 0 { src_port } else { c.remote_port },
        ..c
    }
}

/// A segment for `c`: RST clears the slot, anything else runs the state machine.
pub open spec fn step_receive(c: ConnView, h: HdrSpec, src_ip: [u8; 4], src_port: u16, now: u64, cfg: bool)
    -> (ConnView, Seq<SegmentSpec>) {
    if (h.flags & RST) != 0 {
        (closed_conn(), seq![])
    } else {
        step_segment(bind_peer(c, src_ip, src_port), h, now, cfg)
    }
}

/// Whether two IPv4 addresses are equal.
pub fn ip_eq(a: [u8; 4], b: [u8; 4]) -> (r: bool)
    ensures
        r == (a == b),
        r == (a@ == b@),
{
    let r = a[0] == b[0] && a[1] == b[1] && a[2] == b[2] && a[3] == b[3];
    proof {
        if r {
            assert(a =~= b);
        } else {
            assert(a != b);
            assert(a@ != b@) by {
                if a[0] != b[0] { assert(a@[0] != b@[0]); }
                else if a[1] != b[1] { assert(a@[1] != b@[1]); }
                else if a[2] != b[2] { assert(a@[2] != b@[2]); }
                else { assert(a@[3] != b@[3]); }
            }
        }
    }
    r
}

} // verus!

verus! {

fn find_conn(table: &TcpTable, src_ip: [u8; 4], src_port: u16, dst_port: u16) -> (r: Option<usize>)
    requires
        table.wf(),
    ensures
        r matches Some(i) ==> first_match(table@, i as int, src_ip, src_port, dst_port),
        r is None ==> forall|j: int| 0 <= j < table@.len() ==> !conn_matches(#[trigger] table@[j], src_ip, src_port, dst_port),
{
    let mut i: usize = 0;
    while i < table.conns.len()
        invariant
            table.wf(),
            i <= table.conns@.len(),
            forall|j: int| 0 <= j < i ==> !conn_matches(#[trigger] table@[j], src_ip, src_port, dst_port),
        decreases table.conns@.len() - i,
    {
        let c = &table.conns[i];
        let m = c.state != TcpState::Closed && c.state != TcpState::TimeWait && c.local_port == dst_port
            && (ip_eq(c.remote_ip, [0u8, 0u8, 0u8, 0u8]) || ip_eq(c.remote_ip, src_ip))
            && (c.remote_port == 0 || c.remote_port == src_port);
        if m {
            return Some(i);
        }
        i = i + 1;
    }
    None
}

fn deliver(conn: &mut TcpConn, hdr: &TcpHeader, src_ip: [u8; 4], ctx: &mut TxContext)
    requires
        old(conn).wf(),
    ensures
        final(conn).wf(),
        stepped(old(conn)@, final(conn)@, *old(ctx), *final(ctx),
            step_receive(old(conn)@, hdr_spec(hdr), src_ip, hdr.src_port, old(ctx).now, old(ctx).configured)),
{
    if ip_eq(conn.remote_ip, [0u8, 0u8, 0u8, 0u8]) {
        conn.remote_ip = src_ip;
    }
    if conn.remote_port == 0 {
        conn.remote_port = hdr.src_port;
    }
    if (hdr.flags & RST) != 0 {
        *conn = TcpConn::new();
        return;
    }
    process_segment(conn, hdr, ctx);
}

/// Handles a TCP segment received from `src_ip`: it goes to the first
/// open slot on its destination port whose peer matches (a slot without a
/// peer takes the sender as its peer); unparsable or unmatched segments
/// are dropped.
pub fn receive(table: &mut TcpTable, src_ip: [u8; 4], dst_ip: [u8; 4], data: &[u8], ctx: &mut TxContext)
    requires
        old(table).wf(),
    ensures
        final(table).wf(),
        final(ctx).now == old(ctx).now,
        final(ctx).configured == old(ctx).configured,
        ({
            let d = data@;
            let sp = be16_value(d[0], d[1]);
            let dp = be16_value(d[2], d[3]);
            if tcp_parses(d) && exists|i: int| first_match(old(table)@, i, src_ip, sp, dp) {
                exists|i: int| first_match(old(table)@, i, src_ip, sp, dp) && ({
                    let (c, segs) = step_receive(old(table)@[i], parsed_hdr(d), src_ip, sp, old(ctx).now, old(ctx).configured);
                    final(table)@ == old(table)@.update(i, c) && sent_extends(old(ctx).sent@, final(ctx).sent@, segs)
                })
            } else {
                final(table)@ == old(table)@ && final(ctx).sent@ == old(ctx).sent@
            }
        }),
{
    let hdr = match TcpHeader::parse(data) {
        Some(h) => h,
        None => {
            return;
        },
    };
    assert(hdr_spec(&hdr) == parsed_hdr(data@));
    let idx = match find_conn(table, src_ip, hdr.src_port, hdr.dst_port) {
        Some(i) => i,
        None => {
            return;
        },
    };
    deliver(&mut table.conns[idx], &hdr, src_ip, ctx);
    proof {
        lemma_slot_update(old(table).conns@, table.conns@, idx as int);
    }
}

/// What a periodic poll does to one slot: handshake and closing states
/// check retransmission, data states flush pending data, and TIME_WAIT
/// closes after `TIME_WAIT_MS`.
pub open spec fn step_poll(c: ConnView, now: u64, cfg: bool) -> (ConnView, Seq<SegmentSpec>) {
    match c.state {
        TcpState::SynSent | TcpState::SynReceived | TcpState::FinWait1 | TcpState::LastAck => step_retransmit(c, now, cfg),
        TcpState::Established | TcpState::CloseWait => flush(c, now, cfg),
        TcpState::TimeWait => if now - c.last_tx_time >= TIME_WAIT_MS {
            (ConnView { state: TcpState::Closed, ..c }, seq![])
        } else {
            (c, seq![])
        },
        _ => (c, seq![]),
    }
}

/// Segments a poll sends for the first `n` slots, in slot order.
pub open spec fn poll_segments(s: Seq<ConnView>, now: u64, cfg: bool, n: nat) -> Seq<SegmentSpec>
    decreases n,
{
    if n == 0 { seq![] } else { poll_segments(s, now, cfg, (n - 1) as nat) + step_poll(s[n - 1], now, cfg).1 }
}

fn poll_slot(conn: &mut TcpConn, ctx: &mut TxContext)
    requires
        old(conn).wf(),
        old(conn).last_tx_time <= old(ctx).now,
    ensures
        final(conn).wf(),
        final(conn).last_tx_time <= final(ctx).now,
        stepped(old(conn)@, final(conn)@, *old(ctx), *final(ctx), step_poll(old(conn)@, old(ctx).now, old(ctx).configured)),
{
    match conn.state {
        TcpState::SynSent | TcpState::SynReceived => check_retransmit(conn, ctx),
        TcpState::Established | TcpState::CloseWait => {
            if conn.send_buf.len() > 0 {
                flush_send(conn, ctx);
            }
        },
        TcpState::FinWait1 | TcpState::LastAck => check_retransmit(conn, ctx),
        TcpState::TimeWait => {
            if ctx.now - conn.last_tx_time >= TIME_WAIT_MS {
                conn.state = TcpState::Closed;
            }
        },
        _ => {},
    }
}

/// Periodic work on every slot (see `step_poll`).
pub fn poll(table: &mut TcpTable, ctx: &mut TxContext)
    requires
        old(table).wf(),
        old(table).times_before(old(ctx).now),
    ensures
        final(table).wf(),
        final(table).times_before(final(ctx).now),
        final(ctx).now == old(ctx).now,
        final(ctx).configured == old(ctx).configured,
        final(table)@.len() == old(table)@.len(),
        forall|i: int| 0 <= i < old(table)@.len() ==> #[trigger] final(table)@[i]
            == step_poll(old(table)@[i], old(ctx).now, old(ctx).configured).0,
        sent_extends(old(ctx).sent@, final(ctx).sent@,
            poll_segments(old(table)@, old(ctx).now, old(ctx).configured, MAX_CONNS as nat)),
{
    let mut i: usize = 0;
    while i < table.conns.len()
        invariant
            table.wf(),
            table.conns@.len() == old(table).conns@.len(),
            i <= table.conns@.len(),
            ctx.now == old(ctx).now,
            ctx.configured == old(ctx).configured,
            forall|j: int| 0 <= j < table.conns@.len() ==> #[trigger] table.conns@[j].last_tx_time <= ctx.now,
            forall|j: int| 0 <= j < i ==> #[trigger] table@[j] == step_poll(old(table)@[j], ctx.now, ctx.configured).0,
            forall|j: int| i <= j < table.conns@.len() ==> #[trigger] table.conns@[j] == old(table).conns@[j],
            sent_extends(old(ctx).sent@, ctx.sent@, poll_segments(old(table)@, ctx.now, ctx.configured, i as nat)),
        decreases table.conns@.len() - i,
    {
        let ghost before = table.conns@;
        let ghost before_view = table@;
        let ghost s0 = ctx.sent@;
        assert(table.conns@[i as int].wf());
        poll_slot(&mut table.conns[i], ctx);
        proof {
            lemma_slot_update(before, table.conns@, i as int);
            let (_, x) = step_poll(old(table)@[i as int], ctx.now, ctx.configured);
            lemma_sent_extends_trans(old(ctx).sent@, s0, ctx.sent@,
                poll_segments(old(table)@, ctx.now, ctx.configured, i as nat), x);
            assert forall|j: int| 0 <= j < table.conns@.len() implies #[trigger] table.conns@[j].last_tx_time <= ctx.now by {
                if j != i {
                    assert(table.conns@[j] == before[j]);
                }
            }
            assert forall|j: int| 0 <= j < i + 1 implies #[trigger] table@[j] == step_poll(old(table)@[j], ctx.now, ctx.configured).0 by {
                if j != i {
                    assert(table.conns@[j] == before[j]);
                    assert(before_view[j] == step_poll(old(table)@[j], ctx.now, ctx.configured).0);
                } else {
                    assert(before[j] == old(table).conns@[j]);
                }
            }
        }
        i = i + 1;
    }
}

} // verus!

verus! {

/// Sender address used in the ARP probes of `resolve_mac`.
pub const PROBE_SENDER_IP: [u8; 4] = [10, 0, 2, 15];

pub open spec fn broadcast_mac() -> [u8; 6] {
    [0xFFu8, 0xFFu8, 0xFFu8, 0xFFu8, 0xFFu8, 0xFFu8]
}

/// The broadcast ARP who-has frame for `ip` that `resolve_mac` sends.
pub open spec fn arp_probe_frame(ip: [u8; 4], mac: [u8; 6]) -> Seq<u8> {
    crate::net::ethernet::ethernet_bytes(broadcast_mac()@, mac@, crate::net::ethernet::ETHERTYPE_ARP,
        crate::net::arp::arp_bytes(1, 0x0800, crate::net::arp::ARP_REQUEST, mac@, seq![10u8, 0u8, 2u8, 15u8],
            seq![0u8, 0, 0, 0, 0, 0], ip@))
}

/// A zero-filled buffer of `n` bytes.
pub fn zeroed(n: usize) -> (v: Vec<u8>)
    ensures
        v@ == Seq::new(n as nat, |i: int| 0u8),
{
    let mut v: Vec<u8> = Vec::new();
    let mut i: usize = 0;
    while i < n
        invariant
            i <= n,
            v@ == Seq::new(i as nat, |k: int| 0u8),
        decreases n - i,
    {
        v.push(0);
        i = i + 1;
        assert(v@ =~= Seq::new(i as nat, |k: int| 0u8));
    }
    v
}

/// Queues a broadcast ARP request for `ip` in `frames` and returns the
/// broadcast address as the destination to use (no reply is awaited).
pub fn resolve_mac(ip: [u8; 4], mac: [u8; 6], frames: &mut Vec<Vec<u8>>) -> (r: [u8; 6])
    ensures
        r == broadcast_mac(),
        final(frames)@.len() == old(frames)@.len() + 1,
        forall|i: int| 0 <= i < old(frames)@.len() ==> final(frames)@[i] == old(frames)@[i],
        final(frames)@[old(frames)@.len() as int]@ == arp_probe_frame(ip, mac),
{
    let mut arp_buf = zeroed(28);
    let len = crate::net::arp::ArpPacket::build_request(mac, PROBE_SENDER_IP, ip, arp_buf.as_mut_slice());
    let mut eth_buf = zeroed(42);
    let bcast: [u8; 6] = [0xFF, 0xFF, 0xFF, 0xFF, 0xFF, 0xFF];
    let eth_len = crate::net::ethernet::EthernetFrame::build(bcast, mac, crate::net::ethernet::ETHERTYPE_ARP,
        arp_buf.as_slice(), eth_buf.as_mut_slice());
    proof {
        assert(PROBE_SENDER_IP@ =~= seq![10u8, 0u8, 2u8, 15u8]);
        assert(arp_buf@ =~= crate::net::arp::arp_bytes(1, 0x0800, crate::net::arp::ARP_REQUEST, mac@,
            seq![10u8, 0u8, 2u8, 15u8], seq![0u8, 0, 0, 0, 0, 0], ip@));
        assert(eth_buf@ =~= arp_probe_frame(ip, mac));
    }
    frames.push(eth_buf);
    bcast
}

/// The IPv4 packet carrying a segment from `cfg_ip`.
pub open spec fn segment_packet(seg: SegmentSpec, src_ip: [u8; 4]) -> Seq<u8> {
    let tcp = tcp_segment_checked(seg.local_port, seg.remote_port, seg.seq, seg.ack, seg.flags, WINDOW,
        src_ip@, seg.remote_ip@, seg.payload);
    crate::net::ipv4::ipv4_header_checked((20 + tcp.len()) as u16, TCP_PROTO, src_ip@, seg.remote_ip@) + tcp
}

/// The frames that transmit `seg`: an ARP probe for the gateway, then the
/// segment in an IPv4 packet in a broadcast Ethernet frame.
pub fn segment_frames(seg: &TcpSegment, cfg: crate::net::NetConfig, mac: [u8; 6]) -> (frames: Vec<Vec<u8>>)
    requires
        seg.payload@.len() <= MSS,
    ensures
        frames@.len() == 2,
        frames@[0]@ == arp_probe_frame(cfg.gateway, mac),
        frames@[1]@ == crate::net::ethernet::ethernet_bytes(broadcast_mac()@, mac@,
            crate::net::ethernet::ETHERTYPE_IPV4, segment_packet(seg@, cfg.ip)),
{
    let mut tcp_buf = zeroed(20 + MSS);
    let tcp_len = TcpHeader::build(seg.local_port, seg.remote_port, seg.seq, seg.ack, seg.flags, WINDOW,
        cfg.ip, seg.remote_ip, seg.payload.as_slice(), tcp_buf.as_mut_slice());
    let tcp_len = tcp_len.unwrap();
    tcp_buf.truncate(tcp_len);
    let mut ip_buf = zeroed(20 + 20 + MSS);
    let ip_len = crate::net::ipv4::Ipv4Packet::build(cfg.ip, seg.remote_ip, TCP_PROTO, tcp_len as u16,
        ip_buf.as_mut_slice());
    let ip_len = ip_len.unwrap();
    copy_into(ip_buf.as_mut_slice(), ip_len, tcp_buf.as_slice());
    ip_buf.truncate(ip_len + tcp_len);
    let mut frames: Vec<Vec<u8>> = Vec::new();
    let dst_mac = resolve_mac(cfg.gateway, mac, &mut frames);
    let mut eth_buf = zeroed(14 + 20 + 20 + MSS);
    let eth_len = crate::net::ethernet::EthernetFrame::build(dst_mac, mac, crate::net::ethernet::ETHERTYPE_IPV4,
        ip_buf.as_slice(), eth_buf.as_mut_slice());
    let eth_len = eth_len.unwrap();
    eth_buf.truncate(eth_len);
    proof {
        let tcp = tcp_segment_checked(seg.local_port, seg.remote_port, seg.seq, seg.ack, seg.flags, WINDOW,
            cfg.ip@, seg.remote_ip@, seg.payload@);
        assert(tcp_buf@ =~= tcp);
        assert(ip_buf@ =~= segment_packet(seg@, cfg.ip));
        assert(eth_buf@ =~= crate::net::ethernet::ethernet_bytes(broadcast_mac()@, mac@,
            crate::net::ethernet::ETHERTYPE_IPV4, segment_packet(seg@, cfg.ip)));
    }
    frames.push(eth_buf);
    frames
}

} // verus!

verus! {

proof fn lemma_words_sum_same(d0: Seq<u8>, d1: Seq<u8>, n: nat)
    requires
        2 * n <= d0.len(),
        2 * n <= d1.len(),
        forall|j: int| 0 <= j < 2 * n ==> d0[j] == d1[j],
    ensures
        words_sum(d0, n) == words_sum(d1, n),
    decreases n,
{
    if n > 0 {
        lemma_words_sum_same(d0, d1, (n - 1) as nat);
    }
}

/// Filling in a zero word `k` with `w` raises the word sum by `w`.
proof fn lemma_words_sum_word(d0: Seq<u8>, d1: Seq<u8>, n: nat, k: int, w: nat)
    requires
        d0.len() == d1.len(),
        2 * n <= d0.len(),
        0 <= k < n,
        d0[2 * k] == 0,
        d0[2 * k + 1] == 0,
        d1[2 * k] * 256 + d1[2 * k + 1] == w,
        forall|j: int| 0 <= j < d0.len() && j != 2 * k && j != 2 * k + 1 ==> d1[j] == d0[j],
    ensures
        words_sum(d1, n) == words_sum(d0, n) + w,
    decreases n,
{
    if n - 1 == k {
        lemma_words_sum_same(d0, d1, (n - 1) as nat);
    } else {
        lemma_words_sum_word(d0, d1, (n - 1) as nat, k, w);
    }
}

/// A segment that `TcpHeader::build` writes parses back to what it was
/// built from (data offset 20, the flags' low six bits, urgent pointer 0,
/// the payload after the header), and its checksum verifies: the TCP
/// checksum of the whole segment between the same addresses is zero.
pub proof fn tcp_built_segment_parses_and_verifies(
    src_port: u16, dst_port: u16, seq: u32, ack: u32, flags: u8, window: u16,
    src_ip: Seq<u8>, dst_ip: Seq<u8>, payload: Seq<u8>,
)
    requires
        src_ip.len() == 4,
        dst_ip.len() == 4,
    ensures
        ({
            let b = tcp_segment_checked(src_port, dst_port, seq, ack, flags, window, src_ip, dst_ip, payload);
            &&& b.len() == 20 + payload.len()
            &&& be16_value(b[0], b[1]) == src_port
            &&& be16_value(b[2], b[3]) == dst_port
            &&& be32_value(b[4], b[5], b[6], b[7]) == seq
            &&& be32_value(b[8], b[9], b[10], b[11]) == ack
            &&& (b[12] / 16) * 4 == 20
            &&& b[13] % 64 == flags % 64
            &&& be16_value(b[14], b[15]) == window
            &&& be16_value(b[18], b[19]) == 0
            &&& b.subrange(20, b.len() as int) == payload
            &&& tcp_checksum_spec(src_ip, dst_ip, b) == 0
        }),
{
    let b0 = tcp_bytes(src_port, dst_port, seq, ack, flags, window, 0, 0, payload);
    let c = tcp_checksum_spec(src_ip, dst_ip, b0);
    let b = tcp_bytes(src_port, dst_port, seq, ack, flags, window, c, 0, payload);
    crate::net::wire::lemma_be16_inverse(src_port);
    crate::net::wire::lemma_be16_inverse(dst_port);
    crate::net::wire::lemma_be16_inverse(window);
    crate::net::wire::lemma_be16_inverse(c);
    crate::net::wire::lemma_be16_inverse(0);
    crate::net::wire::lemma_be32_inverse(seq);
    crate::net::wire::lemma_be32_inverse(ack);
    assert(b.len() == 20 + payload.len());
    assert(b0.len() == b.len());
    assert(b[12] == 0x50u8 && b[13] == flags);
    assert(b.subrange(20, b.len() as int) =~= payload);
    // the checksum word (bytes 16 and 17) is the only difference
    assert(b0[16] == 0 && b0[17] == 0);
    assert(b[16] * 256 + b[17] == c);
    assert forall|j: int| 0 <= j < b0.len() && j != 16 && j != 17 implies b[j] == b0[j] by {
        if j < 16 {
        } else {
        }
    }
    let n = (b.len() / 2) as nat;
    lemma_words_sum_word(b0, b, n, 8, c as nat);
    if b.len() % 2 == 1 {
        assert(b[b.len() - 1] == b0[b0.len() - 1]);
    }
    assert(ones_sum(b) == ones_sum(b0) + c);
    let s0 = pseudo_sum(src_ip, dst_ip, b0.len()) + ones_sum(b0);
    crate::net::checksum::lemma_fold16_bound(s0 as nat);
    crate::net::ipv4::lemma_fold16_mod(s0 as nat);
    assert(c == 0xFFFF - fold16(s0 as nat));
    let s1 = s0 + c;
    assert(s1 > 0);
    assert(s1 % 65535 == 0) by (nonlinear_arith)
        requires
            s1 == s0 + 0xFFFF - fold16(s0 as nat),
            fold16(s0 as nat) % 65535 == s0 % 65535,
            fold16(s0 as nat) < 0x1_0000,
    {
    }
    crate::net::ipv4::lemma_fold16_mod(s1 as nat);
    crate::net::checksum::lemma_fold16_bound(s1 as nat);
    assert(fold16(s1 as nat) == 65535);
    assert(tcp_checksum_spec(src_ip, dst_ip, b) == finish(s1 as nat));
}

/// Acknowledged data leaves the send buffer: on an established connection,
/// a bare ACK for everything sent (`local_seq`) empties the send buffer and
/// nothing is transmitted in answer.
pub proof fn tcp_full_ack_drains(c: ConnView, h: HdrSpec, now: u64, cfg: bool)
    requires
        c.wf(),
        c.state == TcpState::Established,
        (h.flags & ACK) != 0,
        (h.flags & FIN) == 0,
        h.payload.len() == 0,
        h.ack == c.local_seq,
    ensures
        ({
            let (c1, segs) = step_segment(c, h, now, cfg);
            &&& c1.send_buf.len() == 0
            &&& segs.len() == 0
            &&& c1.state == TcpState::Established
        }),
{
    let n = c.send_buf.len();
    let start = wsub(c.local_seq, n as u32);
    assert(wsub(h.ack, start) == n);
    let c0 = ConnView { retries: 0, rto_ms: RTO_MS, send_buf: c.send_buf.subrange(n as int, n as int),
        send_acked: h.ack as usize, ..c };
    assert(c0.send_buf.len() == 0);
    assert(step_est_ack(c, h, now, cfg) == (c0, Seq::<SegmentSpec>::empty()));
    assert(step_est_fin(c0, h, now, cfg) == (c0, Seq::<SegmentSpec>::empty()));
    assert(Seq::<SegmentSpec>::empty() + Seq::<SegmentSpec>::empty() =~= Seq::<SegmentSpec>::empty());
}

/// An ACK for the first `k` bytes of the send buffer removes exactly those
/// bytes from its front; what remains is at most one segment's head sent
/// again (nothing when nothing remains).
pub proof fn tcp_ack_removes_acked(c: ConnView, h: HdrSpec, now: u64, cfg: bool, k: nat)
    requires
        c.wf(),
        c.state == TcpState::Established,
        (h.flags & ACK) != 0,
        (h.flags & FIN) == 0,
        h.payload.len() == 0,
        0 < k <= c.send_buf.len(),
        h.ack == wadd(wsub(c.local_seq, c.send_buf.len() as u32), k as u32),
    ensures
        ({
            let (c1, segs) = step_segment(c, h, now, cfg);
            &&& c1.send_buf == c.send_buf.subrange(k as int, c.send_buf.len() as int)
            &&& segs.len() <= 1
            &&& c1.send_buf.len() == 0 ==> segs.len() == 0
            &&& c1.state == TcpState::Established
        }),
{
    let n = c.send_buf.len();
    let start = wsub(c.local_seq, n as u32);
    assert(wsub(h.ack, start) == k);
    assert(seq_lt_spec(start, h.ack));
    let c0 = ConnView { retries: 0, rto_ms: RTO_MS, send_buf: c.send_buf.subrange(k as int, n as int),
        send_acked: h.ack as usize, ..c };
    let (c2, s2) = flush(c0, now, cfg);
    assert(step_est_ack(c, h, now, cfg) == (c2, s2));
    assert(c2.send_buf == c0.send_buf);
    assert(s2.len() <= 1);
    assert(step_est_fin(c2, h, now, cfg) == (c2, Seq::<SegmentSpec>::empty()));
    assert(s2 + Seq::<SegmentSpec>::empty() =~= s2);
}

/// Passive open: a listening slot answers a SYN with one SYN|ACK that
/// carries its initial sequence number and acknowledges the peer's sequence
/// number plus one, and enters SYN_RECEIVED; the peer's ACK of that SYN|ACK
/// (its sequence number plus one) then establishes the connection.
pub proof fn tcp_passive_open(c: ConnView, syn: HdrSpec, ack: HdrSpec, now: u64)
    requires
        c.state == TcpState::Listen,
        (syn.flags & SYN) != 0,
        (ack.flags & ACK) != 0,
        ack.ack == wadd(c.local_seq, 1),
    ensures
        ({
            let (c1, s1) = step_segment(c, syn, now, true);
            &&& c1.state == TcpState::SynReceived
            &&& c1.remote_seq == wadd(syn.seq, 1)
            &&& s1.len() == 1
            &&& s1[0].flags == SYN | ACK
            &&& s1[0].seq == c.local_seq
            &&& s1[0].ack == wadd(syn.seq, 1)
            &&& step_segment(c1, ack, now, true).0.state == TcpState::Established
        }),
{
    assert(((SYN | ACK) & SYN) != 0 && ((SYN | ACK) & FIN) == 0) by (bit_vector);
}

/// In-order data on an established connection is appended to the receive
/// buffer (when it fits) and acknowledged: the peer's next sequence number
/// advances by its length and the ACK segment carries it.
pub proof fn tcp_in_order_delivery(c: ConnView, h: HdrSpec, now: u64)
    requires
        c.state == TcpState::Established,
        (h.flags & (ACK | FIN)) == 0,
        h.payload.len() > 0,
        h.seq == c.remote_seq,
        c.recv_buf.len() + h.payload.len() <= RECV_BUF_CAP,
    ensures
        ({
            let (c1, s1) = step_segment(c, h, now, true);
            &&& c1.recv_buf == c.recv_buf + h.payload
            &&& c1.remote_seq == wadd(c.remote_seq, h.payload.len() as u32)
            &&& s1.len() == 1
            &&& s1[0].flags == ACK
            &&& s1[0].ack == c1.remote_seq
            &&& c1.state == TcpState::Established
        }),
{
    let f = h.flags;
    assert((f & (ACK | FIN)) == 0 ==> (f & ACK) == 0 && (f & FIN) == 0) by (bit_vector);
    assert(h.payload.subrange(0, h.payload.len() as int) =~= h.payload);
}

/// Out-of-order data on an established connection is not stored; the
/// connection re-acknowledges what it expects.
pub proof fn tcp_out_of_order_dropped(c: ConnView, h: HdrSpec, now: u64)
    requires
        c.state == TcpState::Established,
        (h.flags & ACK) == 0,
        h.payload.len() > 0,
        h.seq != c.remote_seq,
    ensures
        ({
            let (c1, s1) = step_segment(c, h, now, true);
            &&& c1.recv_buf == c.recv_buf
            &&& c1.remote_seq == c.remote_seq
            &&& s1.len() == 1
            &&& s1[0].flags == ACK
            &&& s1[0].ack == c.local_ack
        }),
{
}

/// A reset from the peer clears the slot, whatever its state.
pub proof fn tcp_reset_clears(c: ConnView, h: HdrSpec, src_ip: [u8; 4], src_port: u16, now: u64, cfg: bool)
    requires
        (h.flags & RST) != 0,
    ensures
        step_receive(c, h, src_ip, src_port, now, cfg) == (closed_conn(), Seq::<SegmentSpec>::empty()),
{
}

/// Active open: `connect` sends one SYN carrying the initial sequence
/// number (the clock's low 32 bits) and waits in SYN_SENT; a SYN|ACK that
/// acknowledges it (that number plus one) establishes the connection, and
/// the first segment sent back acknowledges the peer's sequence number plus
/// one.
pub proof fn tcp_active_open(c: ConnView, local_port: u16, remote_ip: [u8; 4], remote_port: u16, now: u64, synack: HdrSpec)
    requires
        (synack.flags & (SYN | ACK)) == (SYN | ACK),
        synack.ack == wadd(now as u32, 1),
    ensures
        ({
            let (c1, s1) = send_adv(connecting(c, local_port, remote_ip, remote_port, now), SYN, seq![], now, true);
            let (c2, s2) = step_segment(c1, synack, now, true);
            &&& c1.state == TcpState::SynSent
            &&& s1.len() == 1
            &&& s1[0].flags == SYN
            &&& s1[0].seq == now as u32
            &&& s1[0].ack == 0
            &&& s1[0].remote_ip == remote_ip
            &&& s1[0].remote_port == remote_port
            &&& c2.state == TcpState::Established
            &&& c2.remote_seq == wadd(synack.seq, 1)
            &&& s2.len() >= 1
            &&& s2[0].flags == ACK
            &&& s2[0].ack == wadd(synack.seq, 1)
        }),
{
    assert((SYN & (SYN | FIN)) != 0 && (SYN & SYN) != 0 && (SYN & FIN) == 0) by (bit_vector);
    assert(consumed(SYN, 0) == 1);
    let c0 = connecting(c, local_port, remote_ip, remote_port, now);
    assert(c0.local_seq == now as u32);
    assert(raw_send(c0, SYN, seq![], now, true).1 == seq![segment_of(c0, SYN, seq![])]);
}

/// Active close: closing an established connection sends FIN|ACK (after
/// any data it still holds) and enters FIN_WAIT_1; the peer's ACK moves it
/// to FIN_WAIT_2, and the peer's FIN to TIME_WAIT, answered by one ACK of
/// that FIN.
pub proof fn tcp_active_close(c: ConnView, ack: HdrSpec, fin: HdrSpec, now: u64)
    requires
        c.state == TcpState::Established,
        (ack.flags & ACK) != 0,
        (ack.flags & FIN) == 0,
        (fin.flags & FIN) != 0,
    ensures
        ({
            let (c1, s1) = step_close(c, now, true);
            let (c2, s2) = step_segment(c1, ack, now, true);
            let (c3, s3) = step_segment(c2, fin, now, true);
            &&& c1.state == TcpState::FinWait1
            &&& s1.len() >= 1
            &&& s1.last().flags == FIN | ACK
            &&& c2.state == TcpState::FinWait2
            &&& s2.len() == 0
            &&& c3.state == TcpState::TimeWait
            &&& s3.len() == 1
            &&& s3[0].flags == ACK
            &&& s3[0].ack == wadd(c2.remote_seq, 1)
        }),
{
    assert(((FIN | ACK) & (SYN | FIN)) != 0) by (bit_vector);
}

/// Passive close: after the peer's FIN (CLOSE_WAIT), closing sends FIN|ACK
/// and enters LAST_ACK; the peer's ACK then closes the slot.
pub proof fn tcp_passive_close(c: ConnView, ack: HdrSpec, now: u64)
    requires
        c.state == TcpState::CloseWait,
        (ack.flags & ACK) != 0,
    ensures
        ({
            let (c1, s1) = step_close(c, now, true);
            &&& c1.state == TcpState::LastAck
            &&& s1.len() == 1
            &&& s1[0].flags == FIN | ACK
            &&& step_segment(c1, ack, now, true).0.state == TcpState::Closed
        }),
{
    assert(((FIN | ACK) & (SYN | FIN)) != 0) by (bit_vector);
}

/// Passive open through `receive`: a listening slot without a peer takes a
/// SYN's sender as its peer, answers with one SYN|ACK to it (carrying the
/// slot's initial sequence number and acknowledging the SYN's plus one) and
/// enters SYN_RECEIVED; the slot then matches that peer's segments, and the
/// peer's ACK of the SYN|ACK establishes the connection.
pub proof fn tcp_passive_open_received(c: ConnView, syn: HdrSpec, ack: HdrSpec, src_ip: [u8; 4], sp: u16, now: u64)
    requires
        c.state == TcpState::Listen,
        c.remote_ip == zero_ip(),
        c.remote_port == 0,
        (syn.flags & SYN) != 0,
        (syn.flags & RST) == 0,
        (ack.flags & ACK) != 0,
        (ack.flags & RST) == 0,
        ack.ack == wadd(c.local_seq, 1),
    ensures
        ({
            let (c1, s1) = step_receive(c, syn, src_ip, sp, now, true);
            &&& c1.state == TcpState::SynReceived
            &&& c1.local_port == c.local_port
            &&& c1.remote_ip == src_ip
            &&& c1.remote_port == sp
            &&& s1.len() == 1
            &&& s1[0].flags == SYN | ACK
            &&& s1[0].seq == c.local_seq
            &&& s1[0].ack == wadd(syn.seq, 1)
            &&& s1[0].remote_ip == src_ip
            &&& s1[0].remote_port == sp
            &&& conn_matches(c1, src_ip, sp, c.local_port)
            &&& step_receive(c1, ack, src_ip, sp, now, true).0.state == TcpState::Established
        }),
{
    let b = bind_peer(c, src_ip, sp);
    tcp_passive_open(b, syn, ack, now);
    let c1 = step_receive(c, syn, src_ip, sp, now, true).0;
    assert(bind_peer(c1, src_ip, sp) == c1);
}

/// A poll sends, in slot order, what each slot's own poll step sends; so
/// when only slot `i` has something to send, the poll sends exactly that.
pub proof fn tcp_poll_sends_slot(s: Seq<ConnView>, now: u64, cfg: bool, i: int, n: nat)
    requires
        0 <= i < n <= s.len(),
        forall|j: int| 0 <= j < n && j != i ==> (#[trigger] step_poll(s[j], now, cfg)).1.len() == 0,
    ensures
        poll_segments(s, now, cfg, n) == step_poll(s[i], now, cfg).1,
    decreases n,
{
    if n - 1 == i {
        lemma_poll_quiet(s, now, cfg, (n - 1) as nat);
        assert(poll_segments(s, now, cfg, (n - 1) as nat) + step_poll(s[i], now, cfg).1 =~= step_poll(s[i], now, cfg).1);
    } else {
        tcp_poll_sends_slot(s, now, cfg, i, (n - 1) as nat);
        assert(step_poll(s[n - 1], now, cfg).1.len() == 0);
        assert(poll_segments(s, now, cfg, (n - 1) as nat) + step_poll(s[n - 1], now, cfg).1
            =~= poll_segments(s, now, cfg, (n - 1) as nat));
    }
}

proof fn lemma_poll_quiet(s: Seq<ConnView>, now: u64, cfg: bool, n: nat)
    requires
        n <= s.len(),
        forall|j: int| 0 <= j < n ==> (#[trigger] step_poll(s[j], now, cfg)).1.len() == 0,
    ensures
        poll_segments(s, now, cfg, n).len() == 0,
    decreases n,
{
    if n > 0 {
        lemma_poll_quiet(s, now, cfg, (n - 1) as nat);
        assert(step_poll(s[n - 1], now, cfg).1.len() == 0);
    }
}

/// Retransmission on a poll: a slot waiting for an acknowledgement
/// (SYN_SENT, SYN_RECEIVED, FIN_WAIT_1, LAST_ACK) with retries left sends its
/// last segment again, with the same sequence number, flags and data, once
/// the timeout has passed since it went out; the retry count grows by one
/// and the timeout doubles. Before the timeout nothing is sent and nothing
/// changes. With the retries used up the peer is sent RST|ACK and the slot
/// is cleared.
pub proof fn tcp_retransmit_on_poll(c: ConnView, now: u64)
    requires
        c.wf(),
        now >= c.last_tx_time,
        c.state == TcpState::SynSent || c.state == TcpState::SynReceived || c.state == TcpState::FinWait1
            || c.state == TcpState::LastAck,
    ensures
        ({
            let (c1, s1) = step_poll(c, now, true);
            &&& c.retries < MAX_RETRIES && now - c.last_tx_time >= c.rto_ms ==> {
                &&& s1.len() == 1
                &&& s1[0].seq == c.last_tx_seq
                &&& s1[0].flags == c.last_tx_flags
                &&& s1[0].payload == c.last_tx_payload
                &&& s1[0] == segment_of(ConnView { local_seq: c.last_tx_seq, ..c }, c.last_tx_flags, c.last_tx_payload)
                &&& c1.retries == c.retries + 1
                &&& c1.rto_ms == c.rto_ms * 2
                &&& c1.last_tx_time == now
                &&& c1.local_seq == c.local_seq
                &&& c1.last_tx_seq == c.last_tx_seq
                &&& c1.state == c.state
            }
            &&& c.retries < MAX_RETRIES && now - c.last_tx_time < c.rto_ms ==> c1 == c && s1.len() == 0
            &&& c.retries >= MAX_RETRIES ==> {
                &&& s1 == seq![segment_of(c, RST | ACK, seq![])]
                &&& c1 == closed_conn()
            }
        }),
{
}

} // verus!
