//! Realtek RTL8139: register layout, receive-ring parsing and transmit
//! descriptor rotation. Port and memory accesses are the caller's.

use vstd::prelude::*;

verus! {

pub const CR: u16 = 0x37;
pub const CAPR: u16 = 0x38;
pub const CBR: u16 = 0x3A;
pub const IMR: u16 = 0x3C;
pub const ISR: u16 = 0x3E;
pub const TCR: u16 = 0x40;
pub const RCR: u16 = 0x44;
pub const TSD0: u16 = 0x10;
pub const TSD1: u16 = 0x14;
pub const TSD2: u16 = 0x18;
pub const TSD3: u16 = 0x1C;
pub const TSAD0: u16 = 0x20;
pub const TSAD1: u16 = 0x24;
pub const TSAD2: u16 = 0x28;
pub const TSAD3: u16 = 0x2C;
pub const RBSTART: u16 = 0x30;
pub const TPOLL: u16 = 0xD9;
pub const CR_RST: u8 = 0x10;
pub const CR_RE: u8 = 0x08;
pub const CR_TE: u8 = 0x04;

/// Receive ring size: 8 KiB plus 16 bytes.
pub const RX_BUF_SIZE: usize = 8192 + 16;

/// Largest frame the card transmits.
pub const MAX_TX_FRAME: usize = 1514;

/// QEMU's default RTL8139 MAC address.
pub fn default_mac() -> (r: [u8; 6])
    ensures
        r == [0x52u8, 0x54u8, 0x00u8, 0xABu8, 0xCDu8, 0xEFu8],
{
    [0x52, 0x54, 0x00, 0xAB, 0xCD, 0xEF]
}

/// The MAC address from the ID registers: IDR0..3 read as a little-endian
/// dword and IDR4..5 as a little-endian word.
pub fn mac_from_regs(low: u32, high: u16) -> (r: [u8; 6])
    ensures
        r == [(low % 256) as u8, ((low / 256) % 256) as u8, ((low / 0x1_0000) % 256) as u8,
            (low / 0x100_0000) as u8, (high % 256) as u8, (high / 256) as u8],
{
    [(low % 256) as u8, ((low / 256) % 256) as u8, ((low / 0x1_0000) % 256) as u8, (low / 0x100_0000) as u8,
        (high % 256) as u8, (high / 256) as u8]
}

/// The transmit configuration with MAC loopback (bits 9-8 = 01) on, or
/// off with the default interframe gap and CRC settings restored.
pub fn loopback_tcr(tcr: u32, on: bool) -> (r: u32)
    ensures
        on ==> r == (tcr & !0x300u32) | 0x100u32,
        !on ==> r == (tcr & !0x300u32) | 0xE0u32,
{
    if on {
        (tcr & !0x300u32) | 0x100u32
    } else {
        (tcr & !0x300u32) | 0xE0u32
    }
}

/// The status and address registers of transmit descriptor
/// `counter % 4`, used in rotation.
pub fn tx_registers(counter: u8) -> (r: (usize, u16, u16))
    ensures
        r.0 == counter % 4,
        r.1 == TSD0 + 4 * r.0,
        r.2 == TSAD0 + 4 * r.0,
{
    let desc = (counter % 4) as usize;
    let r = match desc {
        0 => (desc, TSD0, TSAD0),
        1 => (desc, TSD1, TSAD1),
        2 => (desc, TSD2, TSAD2),
        _ => (desc, TSD3, TSAD3),
    };
    r
}

/// Whether a frame can be handed to the card.
pub fn tx_length_ok(len: usize) -> (r: bool)
    ensures
        r == (len <= MAX_TX_FRAME),
{
    len <= MAX_TX_FRAME
}

/// Little-endian word at `at` of the ring, or 0 when its second byte
/// would lie at or past the ring's end.
pub open spec fn ring_u16(ring: Seq<u8>, at: int) -> nat {
    if at + 1 >= RX_BUF_SIZE { 0 } else { (ring[at] + ring[at + 1] * 256) as nat }
}

/// Whether a packet header's size field is plausible (4..=1522, CRC included).
pub open spec fn rx_size_ok(size: nat) -> bool {
    4 <= size <= 1518 + 4
}

/// The read pointer after a packet: past its 4-byte header and data,
/// rounded up to 4 bytes, wrapping to 0 at the ring's end.
pub open spec fn next_capr_spec(capr: nat, size: nat) -> nat {
    let next = ((capr + 4 + size + 3) / 4) * 4;
    if next >= RX_BUF_SIZE { 0 } else { next as nat }
}

/// The packet's data (size minus the 4 CRC bytes) read from `start`,
/// wrapping to the ring's start at its end.
pub open spec fn ring_data(ring: Seq<u8>, start: int, n: int) -> Seq<u8> {
    if start + n <= RX_BUF_SIZE {
        ring.subrange(start, start + n)
    } else {
        ring.subrange(start, RX_BUF_SIZE as int) + ring.subrange(0, n - (RX_BUF_SIZE - start))
    }
}

fn ring_u16_at(ring: &[u8], at: usize) -> (r: u16)
    requires
        ring@.len() == RX_BUF_SIZE,
    ensures
        r == ring_u16(ring@, at as int),
{
    if at >= RX_BUF_SIZE - 1 {
        return 0;
    }
    (ring[at] as u16) + (ring[at + 1] as u16) * 256
}

fn copy_range(v: &mut Vec<u8>, ring: &[u8], start: usize, end: usize)
    requires
        start <= end <= ring@.len(),
    ensures
        final(v)@ == old(v)@ + ring@.subrange(start as int, end as int),
{
    let mut i = start;
    while i < end
        invariant
            start <= i <= end <= ring@.len(),
            v@ == old(v)@ + ring@.subrange(start as int, i as int),
        decreases end - i,
    {
        v.push(ring[i]);
        i = i + 1;
        assert(v@ =~= old(v)@ + ring@.subrange(start as int, i as int));
    }
}

/// One receive step on a snapshot of the ring, given the card's read
/// (CAPR) and write (CBR) offsets: the packet at CAPR, if any, and the
/// value to write back to CAPR, if any. An empty ring gives neither; a
/// packet with an implausible size is skipped by moving CAPR to CBR.
pub fn poll_rx_ring(ring: &[u8], capr: usize, cbr: usize) -> (r: (Option<Vec<u8>>, Option<u16>))
    requires
        ring@.len() == RX_BUF_SIZE,
        cbr <= u16::MAX,
    ensures
        capr == cbr ==> r.0 is None && r.1 is None,
        capr != cbr && !rx_size_ok(ring_u16(ring@, capr + 2)) ==> r.0 is None && r.1 == Some(cbr as u16),
        capr != cbr && rx_size_ok(ring_u16(ring@, capr + 2)) ==> {
            let size = ring_u16(ring@, capr + 2);
            &&& r.0 matches Some(p) && p@ == ring_data(ring@, capr + 4, size - 4)
            &&& r.1 == Some(next_capr_spec(capr as nat, size) as u16)
        },
{
    if capr == cbr {
        return (None, None);
    }
    let _status = ring_u16_at(ring, capr);
    let pkt_size = if capr >= RX_BUF_SIZE { 0 } else { ring_u16_at(ring, capr + 2) as usize };
    if pkt_size < 4 || pkt_size > 1518 + 4 {
        return (None, Some(cbr as u16));
    }
    let actual = pkt_size - 4;
    let data_start = capr + 4;
    let mut data: Vec<u8> = Vec::new();
    if data_start + actual <= RX_BUF_SIZE {
        copy_range(&mut data, ring, data_start, data_start + actual);
    } else {
        let first = RX_BUF_SIZE - data_start;
        copy_range(&mut data, ring, data_start, RX_BUF_SIZE);
        copy_range(&mut data, ring, 0, actual - first);
    }
    proof {
        assert(data@ =~= ring_data(ring@, capr + 4, pkt_size - 4));
    }
    let next = ((capr + 4 + pkt_size + 3) / 4) * 4;
    let new_capr = if next >= RX_BUF_SIZE { 0 } else { next };
    (Some(data), Some(new_capr as u16))
}

} // verus!
