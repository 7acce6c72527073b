//! Stack traces: following the saved frame-pointer chain, which frame
//! addresses are believable, and the lines the trace prints. Reading the
//! frames is the caller's.

use vstd::prelude::*;
use crate::shell::hexdump::{hex_spec, push_hex};

verus! {

/// Frames a trace follows at most.
pub const TRACE_DEPTH: usize = 16;

/// Lowest address a frame may lie at (1 MiB).
pub const FRAME_LOW: u64 = 0x10_0000;

/// Highest address a frame may lie at (512 GiB).
pub const FRAME_HIGH: u64 = 0x8000_0000_0000;

/// What a trace does with the frame address it holds.
#[derive(Clone, Copy, Debug, PartialEq, Eq, Structural)]
pub enum TraceStep {
    /// The chain ends (address zero).
    End,
    /// The address is out of range or not 8-aligned: reported, and the
    /// trace stops.
    BadFrame,
    /// The return-address slot after the frame is out of range: reported,
    /// and the trace stops.
    BadPointer,
    /// The return address is read at `frame + 8` and the next frame at
    /// `frame`.
    Follow,
}

pub open spec fn in_range(a: int) -> bool {
    FRAME_LOW <= a <= FRAME_HIGH
}

/// The step for frame address `frame`.
pub open spec fn step_spec(frame: u64) -> TraceStep {
    if frame == 0 {
        TraceStep::End
    } else if !in_range(frame as int) || frame % 8 != 0 {
        TraceStep::BadFrame
    } else if !in_range(frame + 8) {
        TraceStep::BadPointer
    } else {
        TraceStep::Follow
    }
}

/// Decides what to do with frame address `frame` (see `TraceStep`).
pub fn trace_step(frame: u64) -> (r: TraceStep)
    ensures
        r == step_spec(frame),
{
    if frame == 0 {
        TraceStep::End
    } else if frame < FRAME_LOW || frame > FRAME_HIGH || frame % 8 != 0 {
        TraceStep::BadFrame
    } else if frame + 8 > FRAME_HIGH {
        TraceStep::BadPointer
    } else {
        TraceStep::Follow
    }
}

/// `  #` and the frame number in two digits, then two spaces.
pub open spec fn index_text(i: nat) -> Seq<u8> {
    seq![32u8, 32u8, 35u8, (48 + i / 10) as u8, (48 + i % 10) as u8, 32u8, 32u8]
}

/// The line for a return address: `  #NN  0x` and 16 hex digits.
pub open spec fn frame_line_spec(i: nat, ret: u64) -> Seq<u8> {
    index_text(i) + seq![48u8, 120u8] + hex_spec(ret as nat, 16) + seq![10u8]
}

/// The line for a frame address that is not believable.
pub open spec fn bad_frame_line_spec(i: nat, frame: u64) -> Seq<u8> {
    index_text(i) + seq![60u8, 105u8, 110u8, 118u8, 97u8, 108u8, 105u8, 100u8, 32u8, 102u8, 114u8, 97u8, 109u8,
        101u8, 32u8, 48u8, 120u8] + hex_spec(frame as nat, 16) + seq![62u8, 10u8]
}

/// The line for a return-address slot out of range.
pub open spec fn bad_pointer_line_spec(i: nat) -> Seq<u8> {
    index_text(i) + seq![60u8, 105u8, 110u8, 118u8, 97u8, 108u8, 105u8, 100u8, 32u8, 112u8, 111u8, 105u8, 110u8,
        116u8, 101u8, 114u8, 62u8, 10u8]
}

fn index_bytes(i: usize) -> (r: Vec<u8>)
    requires
        i < 100,
    ensures
        r@ == index_text(i as nat),
{
    let tens = (i / 10) as u8;
    let ones = (i % 10) as u8;
    let r: Vec<u8> = vec![32u8, 32u8, 35u8, 48 + tens, 48 + ones, 32u8, 32u8];
    assert(r@ =~= index_text(i as nat));
    r
}

/// The trace line for return address `ret` of frame `i`.
pub fn frame_line(i: usize, ret: u64) -> (r: Vec<u8>)
    requires
        i < 100,
    ensures
        r@ == frame_line_spec(i as nat, ret),
{
    let mut r = index_bytes(i);
    r.push(48);
    r.push(120);
    push_hex(&mut r, ret, 16);
    r.push(10);
    assert(r@ =~= frame_line_spec(i as nat, ret));
    r
}

/// The trace line for frame `i` whose address `frame` is not believable.
pub fn bad_frame_line(i: usize, frame: u64) -> (r: Vec<u8>)
    requires
        i < 100,
    ensures
        r@ == bad_frame_line_spec(i as nat, frame),
{
    let mut r = index_bytes(i);
    let text: Vec<u8> = vec![60u8, 105u8, 110u8, 118u8, 97u8, 108u8, 105u8, 100u8, 32u8, 102u8, 114u8, 97u8, 109u8,
        101u8, 32u8, 48u8, 120u8];
    crate::net::wire::push_slice(&mut r, text.as_slice());
    push_hex(&mut r, frame, 16);
    r.push(62);
    r.push(10);
    assert(r@ =~= bad_frame_line_spec(i as nat, frame));
    r
}

/// The trace line for frame `i` whose return-address slot is out of range.
pub fn bad_pointer_line(i: usize) -> (r: Vec<u8>)
    requires
        i < 100,
    ensures
        r@ == bad_pointer_line_spec(i as nat),
{
    let mut r = index_bytes(i);
    let text: Vec<u8> = vec![60u8, 105u8, 110u8, 118u8, 97u8, 108u8, 105u8, 100u8, 32u8, 112u8, 111u8, 105u8, 110u8,
        116u8, 101u8, 114u8, 62u8, 10u8];
    crate::net::wire::push_slice(&mut r, text.as_slice());
    assert(r@ =~= bad_pointer_line_spec(i as nat));
    r
}

} // verus!
