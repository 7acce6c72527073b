//! The COM1 serial port (16550 UART): its set-up sequence, what is sent
//! and when a byte is waiting. The port accesses are the caller's.

use vstd::prelude::*;

verus! {

pub const COM1: u16 = 0x3F8;

/// Whether the port has been set up.
pub struct SerialPort {
    initialized: bool,
}

impl SerialPort {
    pub closed spec fn ready(&self) -> bool {
        self.initialized
    }

    /// A port not yet set up.
    pub fn new() -> (r: Self)
        ensures
            !r.ready(),
    {
        SerialPort { initialized: false }
    }
}

/// Whether the port has been set up.
pub fn is_initialized(p: &SerialPort) -> (r: bool)
    ensures
        r == p.ready(),
{
    p.initialized
}

/// The register writes that set COM1 to 115200 baud, 8N1, FIFOs on, in
/// order: interrupts off, divisor latch on, divisor 1, 8N1, FIFO enable and
/// clear with a 14-byte threshold, DTR/RTS/OUT2. The port counts as set up
/// afterwards.
pub fn init(p: &mut SerialPort) -> (r: Vec<(u16, u8)>)
    ensures
        final(p).ready(),
        r@ == seq![(0x3F9u16, 0x00u8), (0x3FBu16, 0x80u8), (0x3F8u16, 0x01u8), (0x3F9u16, 0x00u8),
            (0x3FBu16, 0x03u8), (0x3FAu16, 0xC7u8), (0x3FCu16, 0x0Bu8)],
{
    let mut w: Vec<(u16, u8)> = Vec::new();
    w.push((COM1 + 1, 0x00));
    w.push((COM1 + 3, 0x80));
    w.push((COM1, 0x01));
    w.push((COM1 + 1, 0x00));
    w.push((COM1 + 3, 0x03));
    w.push((COM1 + 2, 0xC7));
    w.push((COM1 + 4, 0x0B));
    p.initialized = true;
    w
}

/// The bytes to send for `s`: all of them once the port is set up, none
/// before.
pub fn write(p: &SerialPort, s: &str) -> (r: Vec<u8>)
    ensures
        p.ready() ==> r@ == vstd::utf8::encode_utf8(s@),
        !p.ready() ==> r@.len() == 0,
{
    if !p.initialized {
        return Vec::new();
    }
    vstd::slice::slice_to_vec(s.as_bytes())
}

/// The transmitter can take a byte (line status bit 5).
pub fn tx_ready(lsr: u8) -> (r: bool)
    ensures
        r == (lsr & 0x20 != 0),
{
    lsr & 0x20 != 0
}

/// A received byte is waiting (line status bit 0), on a port that is set
/// up.
pub fn rx_ready(p: &SerialPort, lsr: u8) -> (r: bool)
    ensures
        r == (p.ready() && lsr & 0x01 != 0),
{
    p.initialized && lsr & 0x01 != 0
}

} // verus!
