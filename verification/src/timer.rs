//! The millisecond tick counter driven by the programmable interval timer.

use vstd::prelude::*;

verus! {

pub const PIT_CMD: u16 = 0x43;
pub const PIT_DATA: u16 = 0x40;

/// 1193182 Hz / 1193 gives about 1000 Hz: one tick per millisecond.
pub const PIT_DIVISOR: u16 = 1193;

/// Ticks since boot; 32 bits wrap after about 49.7 days.
pub struct Timer {
    pub ticks: u32,
}

impl Timer {
    pub fn new() -> (t: Self)
        ensures
            t.ticks == 0,
    {
        Timer { ticks: 0 }
    }
}

/// The PIT reload value's low and high bytes.
pub fn divisor_bytes() -> (r: (u8, u8))
    ensures
        r == ((PIT_DIVISOR % 256) as u8, (PIT_DIVISOR / 256) as u8),
{
    ((PIT_DIVISOR % 256) as u8, (PIT_DIVISOR / 256) as u8)
}

/// One timer interrupt: the counter advances, wrapping at 2^32.
pub fn tick(t: &mut Timer)
    ensures
        final(t).ticks == (if old(t).ticks == u32::MAX { 0 } else { old(t).ticks + 1 }),
{
    t.ticks = t.ticks.wrapping_add(1);
}

/// Milliseconds since boot.
pub fn millis(t: &Timer) -> (r: u64)
    ensures
        r == t.ticks,
{
    t.ticks as u64
}

/// Seconds and milliseconds since boot.
pub fn elapsed(t: &Timer) -> (r: (u64, u64))
    ensures
        r.0 == t.ticks / 1000,
        r.1 == t.ticks % 1000,
        r.0 * 1000 + r.1 == t.ticks,
{
    let ms = millis(t);
    (ms / 1000, ms % 1000)
}

} // verus!
