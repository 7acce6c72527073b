//! CMOS real-time clock: register decoding. The port reads are the caller's.

use vstd::prelude::*;

verus! {

#[derive(Clone, Copy, Debug)]
pub struct RtcTime {
    pub hours: u8,
    pub minutes: u8,
    pub seconds: u8,
}

pub open spec fn bcd_spec(b: u8) -> u8 {
    ((b / 16) * 10 + b % 16) as u8
}

/// Binary value of a packed-BCD byte.
pub fn bcd_to_bin(bcd: u8) -> (r: u8)
    ensures
        r == bcd_spec(bcd),
{
    (bcd / 16) * 10 + (bcd % 16)
}

/// The hour in 24-hour form from a 12-hour clock hour and its PM flag:
/// 12 AM is 0, 12 PM stays 12.
pub open spec fn hour24_spec(hour: u8, pm: bool) -> u8 {
    if pm {
        if hour + 12 == 24 { 12 } else { (hour + 12) as u8 }
    } else if hour == 12 {
        0
    } else {
        hour
    }
}

/// The time from status register B and the seconds, minutes and hours
/// registers: BCD unless B bit 2 is set, 12-hour unless B bit 1 is set (then
/// bit 7 of the hours register is the PM flag, taken off before the hour is
/// decoded). The reading is `first`, unless the seconds register read again
/// (`sec_again`) differs, when `second` (read after the update) is used.
pub fn read(reg_b: u8, first: (u8, u8, u8), sec_again: u8, second: (u8, u8, u8)) -> (r: RtcTime)
    ensures
        ({
            let (s0, m0, h0) = if sec_again != first.0 { second } else { first };
            let binary = reg_b & 0x04 != 0;
            let h24 = reg_b & 0x02 != 0;
            let pm = !h24 && h0 >= 0x80;
            let hr = if h24 { h0 } else { (h0 % 0x80) as u8 };
            let (s, m, h) = if binary { (s0, m0, hr) } else { (bcd_spec(s0), bcd_spec(m0), bcd_spec(hr)) };
            r == (RtcTime { hours: if h24 { h } else { hour24_spec(h, pm) }, minutes: m, seconds: s })
        }),
{
    let is_binary = (reg_b & 0x04) != 0;
    let is_24h = (reg_b & 0x02) != 0;
    let (mut sec, mut min, mut hour) = if sec_again != first.0 { second } else { first };
    let mut pm = false;
    if !is_24h {
        pm = (hour & 0x80) != 0;
        assert((hour & 0x80u8 != 0) == (hour >= 0x80u8) && hour & 0x7Fu8 == hour % 0x80u8) by (bit_vector);
        hour = hour & 0x7F;
    }
    if !is_binary {
        sec = bcd_to_bin(sec);
        min = bcd_to_bin(min);
        hour = bcd_to_bin(hour);
    }
    if !is_24h {
        assert(hour < 0x80);
        if pm {
            hour = hour + 12;
            if hour == 24 {
                hour = 12;
            }
        } else if hour == 12 {
            hour = 0;
        }
    }
    RtcTime { hours: hour, minutes: min, seconds: sec }
}

} // verus!
