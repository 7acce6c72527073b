//! The `hexdump` command's arguments and the layout of its lines: an
//! address, sixteen hex cells split in two groups of eight, and the bytes
//! as text between bars.

use vstd::prelude::*;
use crate::shell::args::{parse_hex, parse_hex_spec, parse_usize, parse_unsigned_spec};

verus! {

/// The most bytes one `hexdump` shows.
pub const MAX_DUMP: usize = 4096;

/// Start address and length: the address defaults to 0 and the length to
/// 128 (also where they do not parse); `None` for a length of 0 or above
/// 4096.
pub open spec fn dump_args_spec(addr: Option<Seq<char>>, len: Option<Seq<char>>) -> Option<(nat, nat)> {
    let a = match addr {
        Some(s) => match parse_hex_spec(s) { Some(v) => v, None => 0 },
        None => 0,
    };
    let n = match len {
        Some(s) => match parse_unsigned_spec(s, 10, usize::MAX as nat) { Some(v) => v, None => 128 },
        None => 128,
    };
    if n == 0 || n > MAX_DUMP { None } else { Some((a, n)) }
}

/// Reads `hexdump`'s optional address and length.
pub fn dump_args(addr: Option<&str>, len: Option<&str>) -> (r: Option<(u32, usize)>)
    ensures
        match dump_args_spec(
            match addr { Some(s) => Some(s@), None => None },
            match len { Some(s) => Some(s@), None => None },
        ) {
            Some((a, n)) => r == Some((a as u32, n as usize)),
            None => r is None,
        },
{
    let a: u32 = match addr {
        Some(s) => match parse_hex(s) { Some(v) => v, None => 0 },
        None => 0,
    };
    let n: usize = match len {
        Some(s) => match parse_usize(s) { Some(v) => v, None => 128 },
        None => 128,
    };
    if n == 0 || n > MAX_DUMP { None } else { Some((a, n)) }
}

/// The lowercase hex digit of `d` (below 16).
pub open spec fn hex_digit(d: nat) -> u8 {
    if d < 10 { (48 + d) as u8 } else { (87 + d) as u8 }
}

/// The last `n` hex digits of `v`, most significant first.
pub open spec fn hex_spec(v: nat, n: nat) -> Seq<u8>
    decreases n,
{
    if n == 0 { Seq::empty() } else { hex_spec(v / 16, (n - 1) as nat).push(hex_digit(v % 16)) }
}

/// Appends the last `n` hex digits of `v`.
pub fn push_hex(out: &mut Vec<u8>, v: u64, n: u64)
    ensures
        final(out)@ == old(out)@ + hex_spec(v as nat, n as nat),
    decreases n,
{
    if n > 0 {
        push_hex(out, v / 16, n - 1);
        let d = (v % 16) as u8;
        let c: u8 = if d < 10 { 48 + d } else { 87 + d };
        out.push(c);
        assert(out@ =~= old(out)@ + hex_spec(v as nat, n as nat));
    }
}

/// The three columns of cell `i`: two hex digits and a space, or three
/// spaces past the end; cell 7 gets one more space.
pub open spec fn cell_spec(bytes: Seq<u8>, i: int) -> Seq<u8> {
    let cell = if i < bytes.len() {
        hex_spec(bytes[i] as nat, 2).push(32u8)
    } else {
        seq![32u8, 32u8, 32u8]
    };
    if i == 7 { cell.push(32u8) } else { cell }
}

/// Cells 0 up to `n`.
pub open spec fn cells_spec(bytes: Seq<u8>, n: nat) -> Seq<u8>
    decreases n,
{
    if n == 0 { Seq::empty() } else { cells_spec(bytes, (n - 1) as nat) + cell_spec(bytes, n - 1) }
}

/// A byte as text: printable ASCII and space stand for themselves, any
/// other byte is a dot.
pub open spec fn shown_char(b: u8) -> u8 {
    if 0x20 <= b <= 0x7E { b } else { 46u8 }
}

/// One line of the dump for up to 16 bytes at `start`:
/// `{start:08x}`, two spaces, sixteen cells, ` |`, the text, `|`.
pub open spec fn dump_line_spec(start: u32, bytes: Seq<u8>) -> Seq<u8> {
    hex_spec(start as nat, 8) + seq![32u8, 32u8] + cells_spec(bytes, 16) + seq![32u8, 124u8]
        + bytes.map_values(|b: u8| shown_char(b)) + seq![124u8]
}

/// Lays out one line of the dump.
pub fn dump_line(start: u32, bytes: &[u8]) -> (r: Vec<u8>)
    requires
        bytes@.len() <= 16,
    ensures
        r@ == dump_line_spec(start, bytes@),
{
    let mut out: Vec<u8> = Vec::new();
    push_hex(&mut out, start as u64, 8);
    out.push(32);
    out.push(32);
    let ghost head = out@;
    let mut i: usize = 0;
    while i < 16
        invariant
            i <= 16,
            bytes@.len() <= 16,
            out@ == head + cells_spec(bytes@, i as nat),
        decreases 16 - i,
    {
        let ghost before = out@;
        if i < bytes.len() {
            push_hex(&mut out, bytes[i] as u64, 2);
            out.push(32);
        } else {
            out.push(32);
            out.push(32);
            out.push(32);
        }
        if i == 7 {
            out.push(32);
        }
        assert(out@ =~= before + cell_spec(bytes@, i as int));
        i = i + 1;
        assert(out@ =~= head + cells_spec(bytes@, i as nat));
    }
    out.push(32);
    out.push(124);
    let ghost mid = out@;
    let mut k: usize = 0;
    while k < bytes.len()
        invariant
            k <= bytes@.len(),
            out@ == mid + bytes@.subrange(0, k as int).map_values(|b: u8| shown_char(b)),
        decreases bytes@.len() - k,
    {
        let b = bytes[k];
        let c: u8 = if 0x20 <= b && b <= 0x7E { b } else { 46 };
        out.push(c);
        k = k + 1;
        assert(bytes@.subrange(0, k as int).map_values(|b: u8| shown_char(b))
            =~= bytes@.subrange(0, k - 1).map_values(|b: u8| shown_char(b)).push(shown_char(b)));
        assert(out@ =~= mid + bytes@.subrange(0, k as int).map_values(|b: u8| shown_char(b)));
    }
    out.push(124);
    assert(bytes@.subrange(0, bytes@.len() as int) =~= bytes@);
    assert(out@ =~= dump_line_spec(start, bytes@));
    out
}

} // verus!
