//! Log levels and the log lines written to the screen and the serial log.

use vstd::prelude::*;
use crate::text::{dec_spec, push_decimal};
use crate::rtc::RtcTime;

verus! {

#[derive(Clone, Copy, PartialEq, Eq, Structural)]
pub enum LogLevel {
    Info,
    Warn,
    Error,
    Debug,
}

impl LogLevel {
    /// The one-letter tag printed before a message.
    pub fn prefix(self) -> (r: &'static str)
        ensures
            self == LogLevel::Info ==> r@ == "I"@,
            self == LogLevel::Warn ==> r@ == "W"@,
            self == LogLevel::Error ==> r@ == "E"@,
            self == LogLevel::Debug ==> r@ == "D"@,
    {
        match self {
            LogLevel::Info => "I",
            LogLevel::Warn => "W",
            LogLevel::Error => "E",
            LogLevel::Debug => "D",
        }
    }
}


impl LogLevel {
    pub open spec fn tag_spec(self) -> u8 {
        match self {
            LogLevel::Info => 73,
            LogLevel::Warn => 87,
            LogLevel::Error => 69,
            LogLevel::Debug => 68,
        }
    }

    /// The tag letter as a byte.
    pub fn tag(self) -> (r: u8)
        ensures
            r == self.tag_spec(),
    {
        match self {
            LogLevel::Info => 73,
            LogLevel::Warn => 87,
            LogLevel::Error => 69,
            LogLevel::Debug => 68,
        }
    }
}

/// `n` in decimal with at least `w` digits, zeros in front.
pub open spec fn padded(n: nat, w: nat) -> Seq<u8> {
    let d = dec_spec(n);
    if d.len() >= w { d } else { Seq::new((w - d.len()) as nat, |i: int| 48u8) + d }
}

fn push_padded(out: &mut Vec<u8>, n: u64, w: usize)
    ensures
        final(out)@ == old(out)@ + padded(n as nat, w as nat),
{
    let mut d: Vec<u8> = Vec::new();
    push_decimal(&mut d, n);
    assert(d@ =~= dec_spec(n as nat));
    let ghost start = out@;
    if d.len() < w {
        let zeros = w - d.len();
        let mut k: usize = 0;
        while k < zeros
            invariant
                k <= zeros,
                out@ == start + Seq::new(k as nat, |i: int| 48u8),
            decreases zeros - k,
        {
            out.push(48);
            k = k + 1;
            assert(out@ =~= start + Seq::new(k as nat, |i: int| 48u8));
        }
    }
    let ghost mid = out@;
    let mut k: usize = 0;
    while k < d.len()
        invariant
            k <= d@.len(),
            out@ == mid + d@.subrange(0, k as int),
        decreases d@.len() - k,
    {
        out.push(d[k]);
        k = k + 1;
        assert(out@ =~= mid + d@.subrange(0, k as int));
    }
    assert(d@.subrange(0, k as int) =~= d@);
    assert(out@ =~= start + padded(n as nat, w as nat));
}

fn push_all(out: &mut Vec<u8>, b: &[u8])
    ensures
        final(out)@ == old(out)@ + b@,
{
    let ghost start = out@;
    let mut k: usize = 0;
    while k < b.len()
        invariant
            k <= b@.len(),
            out@ == start + b@.subrange(0, k as int),
        decreases b@.len() - k,
    {
        out.push(b[k]);
        k = k + 1;
        assert(out@ =~= start + b@.subrange(0, k as int));
    }
    assert(b@.subrange(0, k as int) =~= b@);
}

/// The screen line: `[L] message` and a line feed.
pub open spec fn screen_line(level: LogLevel, msg: Seq<u8>) -> Seq<u8> {
    seq![91u8, level.tag_spec(), 93u8, 32u8] + msg + seq![10u8]
}

/// The serial log line: `[hh:mm:ss] [seconds.millis] [L] message` and a
/// line feed.
pub open spec fn serial_line(level: LogLevel, msg: Seq<u8>, t: RtcTime, sec: nat, ms: nat) -> Seq<u8> {
    seq![91u8] + padded(t.hours as nat, 2) + seq![58u8] + padded(t.minutes as nat, 2) + seq![58u8]
        + padded(t.seconds as nat, 2) + seq![93u8, 32u8, 91u8] + dec_spec(sec) + seq![46u8] + padded(ms, 3)
        + seq![93u8, 32u8, 91u8, level.tag_spec(), 93u8, 32u8] + msg + seq![10u8]
}

/// The two lines a log message produces: the plain one for the screen and
/// the time-stamped one for the serial log (wall clock `t`, `sec.ms` since
/// boot).
pub fn log(level: LogLevel, msg: &str, t: RtcTime, sec: u64, ms: u64) -> (r: (Vec<u8>, Vec<u8>))
    ensures
        r.0@ == screen_line(level, vstd::utf8::encode_utf8(msg@)),
        r.1@ == serial_line(level, vstd::utf8::encode_utf8(msg@), t, sec as nat, ms as nat),
{
    let m = msg.as_bytes();
    let tag = level.tag();
    let mut a: Vec<u8> = Vec::new();
    a.push(91);
    a.push(tag);
    a.push(93);
    a.push(32);
    push_all(&mut a, m);
    a.push(10);
    assert(a@ =~= screen_line(level, m@));
    let mut b: Vec<u8> = Vec::new();
    b.push(91);
    push_padded(&mut b, t.hours as u64, 2);
    b.push(58);
    push_padded(&mut b, t.minutes as u64, 2);
    b.push(58);
    push_padded(&mut b, t.seconds as u64, 2);
    b.push(93);
    b.push(32);
    b.push(91);
    push_decimal(&mut b, sec);
    b.push(46);
    push_padded(&mut b, ms, 3);
    b.push(93);
    b.push(32);
    b.push(91);
    b.push(tag);
    b.push(93);
    b.push(32);
    push_all(&mut b, m);
    b.push(10);
    assert(b@ =~= serial_line(level, m@, t, sec as nat, ms as nat));
    (a, b)
}
} // verus!
