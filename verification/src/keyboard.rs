//! PS/2 keyboard: scancode translation, modifier state, the event
//! encoding and the event ring between the interrupt handler and the shell.

use vstd::prelude::*;

verus! {

pub const PS2_DATA: u16 = 0x60;

/// Ring capacity in slots (one stays free).
pub const BUF_SIZE: usize = 64;

#[derive(Clone, Copy, Debug, PartialEq, Eq, Structural)]
pub enum KeyEvent {
    Char(u8),
    Up,
    Down,
    Left,
    Right,
    Backspace,
    Enter,
    Escape,
    Ctrl(char),
    PageUp,
    PageDown,
}

/// The 32-bit code of an event: its kind in bits 8.. and its byte or
/// character in the low bits.
pub open spec fn encode_spec(ev: KeyEvent) -> u32 {
    match ev {
        KeyEvent::Char(c) => (256 + c) as u32,
        KeyEvent::Up => 512u32,
        KeyEvent::Down => 768u32,
        KeyEvent::Left => 1024u32,
        KeyEvent::Right => 1280u32,
        KeyEvent::Backspace => 1536u32,
        KeyEvent::Enter => 1792u32,
        KeyEvent::Escape => 2048u32,
        KeyEvent::Ctrl(c) => 0x900u32 | (c as u32),
        KeyEvent::PageUp => 2560u32,
        KeyEvent::PageDown => 2816u32,
    }
}

/// The event of a code: zero is no event, an unknown kind is none either.
pub open spec fn decode_spec(val: u32) -> Option<KeyEvent> {
    let typ = val / 256;
    let data = (val % 256) as u8;
    if val == 0 {
        None
    } else if typ == 1 {
        Some(KeyEvent::Char(data))
    } else if typ == 2 {
        Some(KeyEvent::Up)
    } else if typ == 3 {
        Some(KeyEvent::Down)
    } else if typ == 4 {
        Some(KeyEvent::Left)
    } else if typ == 5 {
        Some(KeyEvent::Right)
    } else if typ == 6 {
        Some(KeyEvent::Backspace)
    } else if typ == 7 {
        Some(KeyEvent::Enter)
    } else if typ == 8 {
        Some(KeyEvent::Escape)
    } else if typ == 9 {
        Some(KeyEvent::Ctrl(data as char))
    } else if typ == 10 {
        Some(KeyEvent::PageUp)
    } else if typ == 11 {
        Some(KeyEvent::PageDown)
    } else {
        None
    }
}

pub fn encode(ev: KeyEvent) -> (r: u32)
    ensures
        r == encode_spec(ev),
{
    match ev {
        KeyEvent::Char(c) => 256 + c as u32,
        KeyEvent::Up => 2 * 256,
        KeyEvent::Down => 3 * 256,
        KeyEvent::Left => 4 * 256,
        KeyEvent::Right => 5 * 256,
        KeyEvent::Backspace => 6 * 256,
        KeyEvent::Enter => 7 * 256,
        KeyEvent::Escape => 8 * 256,
        KeyEvent::Ctrl(c) => 0x900u32 | (c as u32),
        KeyEvent::PageUp => 10 * 256,
        KeyEvent::PageDown => 11 * 256,
    }
}

pub fn decode(val: u32) -> (r: Option<KeyEvent>)
    ensures
        r == decode_spec(val),
{
    if val == 0 {
        return None;
    }
    let typ = val / 256;
    let data = (val % 256) as u8;
    match typ {
        1 => Some(KeyEvent::Char(data)),
        2 => Some(KeyEvent::Up),
        3 => Some(KeyEvent::Down),
        4 => Some(KeyEvent::Left),
        5 => Some(KeyEvent::Right),
        6 => Some(KeyEvent::Backspace),
        7 => Some(KeyEvent::Enter),
        8 => Some(KeyEvent::Escape),
        9 => Some(KeyEvent::Ctrl(data as char)),
        10 => Some(KeyEvent::PageUp),
        11 => Some(KeyEvent::PageDown),
        _ => None,
    }
}

/// Decoding undoes encoding, for every event whose character fits in a
/// byte (control events carry a char but keep only its low byte).
pub proof fn key_event_roundtrip(ev: KeyEvent)
    requires
        ev matches KeyEvent::Ctrl(c) ==> (c as u32) < 256,
    ensures
        decode_spec(encode_spec(ev)) == Some(ev),
        encode_spec(ev) != 0,
{
    if let KeyEvent::Ctrl(c) = ev {
        let x = c as u32;
        assert(x < 256 ==> 0x900u32 | x == 2304u32 + x) by (bit_vector);
        assert(((2304 + x) % 256) as u8 == x);
        assert((x as u8) as char == c);
    }
}

/// The event ring: a single-producer, single-consumer queue of event
/// codes; one slot is kept free to tell full from empty.
pub struct KeyRing {
    buf: Vec<u32>,
    head: usize,
    tail: usize,
}

impl KeyRing {
    pub closed spec fn wf(&self) -> bool {
        &&& self.buf@.len() == BUF_SIZE
        &&& self.head < BUF_SIZE
        &&& self.tail < BUF_SIZE
    }

    /// The codes waiting, oldest first.
    pub closed spec fn view(&self) -> Seq<u32> {
        let n = if self.head >= self.tail { self.head - self.tail } else { self.head + BUF_SIZE - self.tail };
        Seq::new(n as nat, |i: int| self.buf@[(self.tail + i) % (BUF_SIZE as int)])
    }

    pub closed spec fn well_formed(&self) -> bool {
        self.wf()
    }

    pub proof fn lemma_capacity(&self)
        requires
            self.well_formed(),
        ensures
            self.view().len() < BUF_SIZE,
    {
    }

    /// An empty ring.
    pub fn new() -> (r: Self)
        ensures
            r.well_formed(),
            r.view() == Seq::<u32>::empty(),
    {
        let mut buf: Vec<u32> = Vec::new();
        let mut i: usize = 0;
        while i < BUF_SIZE
            invariant
                i <= BUF_SIZE,
                buf@.len() == i,
            decreases BUF_SIZE - i,
        {
            buf.push(0);
            i = i + 1;
        }
        let r = KeyRing { buf, head: 0, tail: 0 };
        assert(r.view() =~= Seq::<u32>::empty());
        r
    }

    /// Appends an event's code; when the ring is full the event is dropped.
    pub fn push(&mut self, ev: KeyEvent)
        requires
            old(self).well_formed(),
        ensures
            final(self).well_formed(),
            old(self).view().len() < BUF_SIZE - 1 ==> final(self).view() == old(self).view().push(encode_spec(ev)),
            old(self).view().len() == BUF_SIZE - 1 ==> final(self).view() == old(self).view(),
            final(self).view() == ring_push(old(self).view(), ev),
    {
        proof { self.lemma_capacity(); }
        let h = self.head;
        let t = self.tail;
        let next = (h + 1) % BUF_SIZE;
        if next == t {
            return;
        }
        self.buf.set(h, encode(ev));
        self.head = next;
        proof {
            assert(self.view() =~= old(self).view().push(encode_spec(ev)));
        }
    }

    /// Takes the oldest code and decodes it; `None` when empty.
    pub fn pop(&mut self) -> (r: Option<KeyEvent>)
        requires
            old(self).well_formed(),
        ensures
            final(self).well_formed(),
            old(self).view().len() == 0 ==> r is None && final(self).view() == old(self).view(),
            old(self).view().len() > 0 ==> r == decode_spec(old(self).view()[0])
                && final(self).view() == old(self).view().subrange(1, old(self).view().len() as int),
            seq![r] == ring_pops(old(self).view(), 1),
    {
        proof { reveal_with_fuel(ring_pops, 2); }
        let t = self.tail;
        let h = self.head;
        if t == h {
            return None;
        }
        let val = self.buf[t];
        self.tail = (t + 1) % BUF_SIZE;
        proof {
            assert(self.view() =~= old(self).view().subrange(1, old(self).view().len() as int));
        }
        decode(val)
    }

    /// Drops everything waiting.
    pub fn clear(&mut self)
        requires
            old(self).well_formed(),
        ensures
            final(self).well_formed(),
            final(self).view() == Seq::<u32>::empty(),
    {
        self.tail = self.head;
        assert(self.view() =~= Seq::<u32>::empty());
    }
}

/// The next keyboard event, if any.
pub fn pop_event(ring: &mut KeyRing) -> (r: Option<KeyEvent>)
    requires
        old(ring).well_formed(),
    ensures
        final(ring).well_formed(),
        old(ring).view().len() == 0 ==> r is None && final(ring).view() == old(ring).view(),
        old(ring).view().len() > 0 ==> r == decode_spec(old(ring).view()[0])
            && final(ring).view() == old(ring).view().subrange(1, old(ring).view().len() as int),
{
    ring.pop()
}

/// Discards pending keyboard events.
pub fn flush(ring: &mut KeyRing)
    requires
        old(ring).well_formed(),
    ensures
        final(ring).well_formed(),
        final(ring).view() == Seq::<u32>::empty(),
{
    ring.clear()
}

/// The codes waiting after `push` of `ev`: appended while there is room,
/// dropped when the ring is full.
pub open spec fn ring_push(v: Seq<u32>, ev: KeyEvent) -> Seq<u32> {
    if v.len() < BUF_SIZE - 1 { v.push(encode_spec(ev)) } else { v }
}

/// The codes waiting after pushing `evs` in order.
pub open spec fn ring_pushes(v: Seq<u32>, evs: Seq<KeyEvent>) -> Seq<u32>
    decreases evs.len(),
{
    if evs.len() == 0 { v } else { ring_push(ring_pushes(v, evs.drop_last()), evs.last()) }
}

/// What `k` calls of `pop` return, in order, starting from the codes `v`.
pub open spec fn ring_pops(v: Seq<u32>, k: nat) -> Seq<Option<KeyEvent>>
    decreases k,
{
    if k == 0 {
        Seq::empty()
    } else if v.len() == 0 {
        seq![None].add(ring_pops(v, (k - 1) as nat))
    } else {
        seq![decode_spec(v[0])].add(ring_pops(v.subrange(1, v.len() as int), (k - 1) as nat))
    }
}

/// An event whose code decodes back to it (a control event keeps only the
/// low byte of its character).
pub open spec fn codable(ev: KeyEvent) -> bool {
    ev matches KeyEvent::Ctrl(c) ==> (c as u32) < 256
}

proof fn lemma_pushes_fill(evs: Seq<KeyEvent>)
    ensures
        ring_pushes(Seq::empty(), evs) == evs.take(if evs.len() < BUF_SIZE - 1 { evs.len() as int } else { BUF_SIZE - 1 })
            .map_values(|e: KeyEvent| encode_spec(e)),
    decreases evs.len(),
{
    if evs.len() > 0 {
        let prev = evs.drop_last();
        lemma_pushes_fill(prev);
        let n = if evs.len() < BUF_SIZE - 1 { evs.len() as int } else { BUF_SIZE - 1 };
        let m = if prev.len() < BUF_SIZE - 1 { prev.len() as int } else { BUF_SIZE - 1 };
        let v = ring_pushes(Seq::empty(), prev);
        assert(v.len() == m);
        if prev.len() < BUF_SIZE - 1 {
            assert(evs.take(n).map_values(|e: KeyEvent| encode_spec(e))
                =~= prev.take(m).map_values(|e: KeyEvent| encode_spec(e)).push(encode_spec(evs.last())));
        } else {
            assert(evs.take(n) =~= prev.take(m));
        }
    } else {
        assert(evs.take(0).map_values(|e: KeyEvent| encode_spec(e)) =~= Seq::<u32>::empty());
    }
}

proof fn lemma_pops_codes(es: Seq<KeyEvent>)
    requires
        forall|i: int| 0 <= i < es.len() ==> codable(#[trigger] es[i]),
    ensures
        ring_pops(es.map_values(|e: KeyEvent| encode_spec(e)), (es.len() + 1) as nat)
            == es.map_values(|e: KeyEvent| Some(e)).push(None),
    decreases es.len(),
{
    let v = es.map_values(|e: KeyEvent| encode_spec(e));
    if es.len() == 0 {
        reveal_with_fuel(ring_pops, 2);
        assert(ring_pops(v, 1) =~= seq![None::<KeyEvent>]);
        assert(es.map_values(|e: KeyEvent| Some(e)).push(None) =~= seq![None::<KeyEvent>]);
    } else {
        let rest = es.subrange(1, es.len() as int);
        assert forall|i: int| 0 <= i < rest.len() implies codable(#[trigger] rest[i]) by {
            assert(rest[i] == es[i + 1]);
        }
        lemma_pops_codes(rest);
        key_event_roundtrip(es[0]);
        assert(v.subrange(1, v.len() as int) =~= rest.map_values(|e: KeyEvent| encode_spec(e)));
        assert(es.map_values(|e: KeyEvent| Some(e)).push(None)
            =~= seq![Some(es[0])].add(rest.map_values(|e: KeyEvent| Some(e)).push(None)));
    }
}

/// Events come out in the order they went in: pushing events onto an empty
/// ring keeps the first 63 of them (later ones are dropped while it is
/// full), and popping one more time than it holds yields them in order,
/// then `None`.
pub proof fn key_ring_fifo(evs: Seq<KeyEvent>)
    requires
        forall|i: int| 0 <= i < evs.len() ==> codable(#[trigger] evs[i]),
    ensures
        ({
            let n = if evs.len() < BUF_SIZE - 1 { evs.len() as int } else { BUF_SIZE - 1 };
            let kept = evs.take(n);
            &&& ring_pushes(Seq::empty(), evs) == kept.map_values(|e: KeyEvent| encode_spec(e))
            &&& ring_pops(ring_pushes(Seq::empty(), evs), (n + 1) as nat) == kept.map_values(|e: KeyEvent| Some(e)).push(None)
        }),
{
    lemma_pushes_fill(evs);
    let n = if evs.len() < BUF_SIZE - 1 { evs.len() as int } else { BUF_SIZE - 1 };
    let kept = evs.take(n);
    assert forall|i: int| 0 <= i < kept.len() implies codable(#[trigger] kept[i]) by {
        assert(kept[i] == evs[i]);
    }
    lemma_pops_codes(kept);
}

} // verus!

verus! {

/// Set-1 scancodes 0..57 to ASCII without shift (0 and 27: no character).
pub open spec fn lower_table() -> Seq<u8> {
    seq![0u8, 27, 0x31, 0x32, 0x33, 0x34, 0x35, 0x36, 0x37, 0x38, 0x39, 0x30, 0x2d, 0x3d, 8,
        0x09, 0x71, 0x77, 0x65, 0x72, 0x74, 0x79, 0x75, 0x69, 0x6f, 0x70, 0x5b, 0x5d, 0x0a,
        0, 0x61, 0x73, 0x64, 0x66, 0x67, 0x68, 0x6a, 0x6b, 0x6c, 0x3b, 0x27, 0x60, 0,
        0x5c, 0x7a, 0x78, 0x63, 0x76, 0x62, 0x6e, 0x6d, 0x2c, 0x2e, 0x2f, 0, 0x2a, 0, 0x20]
}

/// Set-1 scancodes 0..57 to ASCII with shift.
pub open spec fn upper_table() -> Seq<u8> {
    seq![0u8, 27, 0x21, 0x40, 0x23, 0x24, 0x25, 0x5e, 0x26, 0x2a, 0x28, 0x29, 0x5f, 0x2b, 8,
        0x09, 0x51, 0x57, 0x45, 0x52, 0x54, 0x59, 0x55, 0x49, 0x4f, 0x50, 0x7b, 0x7d, 0x0a,
        0, 0x41, 0x53, 0x44, 0x46, 0x47, 0x48, 0x4a, 0x4b, 0x4c, 0x3a, 0x22, 0x7e, 0,
        0x7c, 0x5a, 0x58, 0x43, 0x56, 0x42, 0x4e, 0x4d, 0x3c, 0x3e, 0x3f, 0, 0x2a, 0, 0x20]
}

/// The character of a make code, `None` beyond the table or for keys
/// without one (0) and Escape (27).
pub open spec fn ascii_spec(sc: u8, shift: bool) -> Option<u8> {
    if sc >= 58 {
        None
    } else {
        let c = if shift { upper_table()[sc as int] } else { lower_table()[sc as int] };
        if c == 0 || c == 27 { None } else { Some(c) }
    }
}

pub fn scancode_to_ascii(sc: u8, shift: bool) -> (r: Option<u8>)
    ensures
        r == ascii_spec(sc, shift),
{
    let lower: [u8; 58] = [0u8, 27, 0x31, 0x32, 0x33, 0x34, 0x35, 0x36, 0x37, 0x38, 0x39, 0x30, 0x2d, 0x3d, 8,
        0x09, 0x71, 0x77, 0x65, 0x72, 0x74, 0x79, 0x75, 0x69, 0x6f, 0x70, 0x5b, 0x5d, 0x0a,
        0, 0x61, 0x73, 0x64, 0x66, 0x67, 0x68, 0x6a, 0x6b, 0x6c, 0x3b, 0x27, 0x60, 0,
        0x5c, 0x7a, 0x78, 0x63, 0x76, 0x62, 0x6e, 0x6d, 0x2c, 0x2e, 0x2f, 0, 0x2a, 0, 0x20];
    let upper: [u8; 58] = [0u8, 27, 0x21, 0x40, 0x23, 0x24, 0x25, 0x5e, 0x26, 0x2a, 0x28, 0x29, 0x5f, 0x2b, 8,
        0x09, 0x51, 0x57, 0x45, 0x52, 0x54, 0x59, 0x55, 0x49, 0x4f, 0x50, 0x7b, 0x7d, 0x0a,
        0, 0x41, 0x53, 0x44, 0x46, 0x47, 0x48, 0x4a, 0x4b, 0x4c, 0x3a, 0x22, 0x7e, 0,
        0x7c, 0x5a, 0x58, 0x43, 0x56, 0x42, 0x4e, 0x4d, 0x3c, 0x3e, 0x3f, 0, 0x2a, 0, 0x20];
    assert(lower@ =~= lower_table());
    assert(upper@ =~= upper_table());
    if sc as usize >= 58 {
        return None;
    }
    let c = if shift { upper[sc as usize] } else { lower[sc as usize] };
    if c == 0 || c == 27 {
        None
    } else {
        Some(c)
    }
}

/// The letters of the top, home and bottom rows of the US keyboard, left to
/// right, and the digit row.
pub open spec fn top_row() -> Seq<u8> {
    seq![0x71u8, 0x77, 0x65, 0x72, 0x74, 0x79, 0x75, 0x69, 0x6f, 0x70]
}

pub open spec fn home_row() -> Seq<u8> {
    seq![0x61u8, 0x73, 0x64, 0x66, 0x67, 0x68, 0x6a, 0x6b, 0x6c]
}

pub open spec fn bottom_row() -> Seq<u8> {
    seq![0x7au8, 0x78, 0x63, 0x76, 0x62, 0x6e, 0x6d]
}

pub open spec fn digit_row() -> Seq<u8> {
    seq![0x31u8, 0x32, 0x33, 0x34, 0x35, 0x36, 0x37, 0x38, 0x39, 0x30]
}

/// The key at make code `first + k` of a row gives the row's `k`-th letter,
/// and with Shift its capital.
pub open spec fn row_gives(first: int, row: Seq<u8>) -> bool {
    forall|k: int| 0 <= k < row.len() ==> {
        &&& #[trigger] ascii_spec((first + k) as u8, false) == Some(row[k])
        &&& ascii_spec((first + k) as u8, true) == Some((row[k] - 32) as u8)
    }
}

pub open spec fn is_lower_letter(c: u8) -> bool {
    0x61 <= c <= 0x7a
}

/// The US set-1 layout: the letter keys 0x10..0x19 give `q w e r t y u i o
/// p`, 0x1E..0x26 give `a s d f g h j k l` and 0x2C..0x32 give `z x c v b n
/// m` (capitals with Shift), the digit keys 0x02..0x0B give `1`..`9`, `0`;
/// and no two keys give the same letter.
pub proof fn us_layout()
    ensures
        row_gives(0x10, top_row()),
        row_gives(0x1E, home_row()),
        row_gives(0x2C, bottom_row()),
        forall|k: int| 0 <= k < 10 ==> #[trigger] ascii_spec((2 + k) as u8, false) == Some(digit_row()[k]),
        forall|s1: u8, s2: u8| #![trigger ascii_spec(s1, false), ascii_spec(s2, false)]
            ascii_spec(s1, false) == ascii_spec(s2, false) && ascii_spec(s1, false) is Some && is_lower_letter(ascii_spec(s1, false)->0)
            ==> s1 == s2,
{
    assert(ascii_spec(16u8, false) == Some(113u8) && ascii_spec(16u8, true) == Some(81u8));
    assert(ascii_spec(17u8, false) == Some(119u8) && ascii_spec(17u8, true) == Some(87u8));
    assert(ascii_spec(18u8, false) == Some(101u8) && ascii_spec(18u8, true) == Some(69u8));
    assert(ascii_spec(19u8, false) == Some(114u8) && ascii_spec(19u8, true) == Some(82u8));
    assert(ascii_spec(20u8, false) == Some(116u8) && ascii_spec(20u8, true) == Some(84u8));
    assert(ascii_spec(21u8, false) == Some(121u8) && ascii_spec(21u8, true) == Some(89u8));
    assert(ascii_spec(22u8, false) == Some(117u8) && ascii_spec(22u8, true) == Some(85u8));
    assert(ascii_spec(23u8, false) == Some(105u8) && ascii_spec(23u8, true) == Some(73u8));
    assert(ascii_spec(24u8, false) == Some(111u8) && ascii_spec(24u8, true) == Some(79u8));
    assert(ascii_spec(25u8, false) == Some(112u8) && ascii_spec(25u8, true) == Some(80u8));
    assert(ascii_spec(30u8, false) == Some(97u8) && ascii_spec(30u8, true) == Some(65u8));
    assert(ascii_spec(31u8, false) == Some(115u8) && ascii_spec(31u8, true) == Some(83u8));
    assert(ascii_spec(32u8, false) == Some(100u8) && ascii_spec(32u8, true) == Some(68u8));
    assert(ascii_spec(33u8, false) == Some(102u8) && ascii_spec(33u8, true) == Some(70u8));
    assert(ascii_spec(34u8, false) == Some(103u8) && ascii_spec(34u8, true) == Some(71u8));
    assert(ascii_spec(35u8, false) == Some(104u8) && ascii_spec(35u8, true) == Some(72u8));
    assert(ascii_spec(36u8, false) == Some(106u8) && ascii_spec(36u8, true) == Some(74u8));
    assert(ascii_spec(37u8, false) == Some(107u8) && ascii_spec(37u8, true) == Some(75u8));
    assert(ascii_spec(38u8, false) == Some(108u8) && ascii_spec(38u8, true) == Some(76u8));
    assert(ascii_spec(44u8, false) == Some(122u8) && ascii_spec(44u8, true) == Some(90u8));
    assert(ascii_spec(45u8, false) == Some(120u8) && ascii_spec(45u8, true) == Some(88u8));
    assert(ascii_spec(46u8, false) == Some(99u8) && ascii_spec(46u8, true) == Some(67u8));
    assert(ascii_spec(47u8, false) == Some(118u8) && ascii_spec(47u8, true) == Some(86u8));
    assert(ascii_spec(48u8, false) == Some(98u8) && ascii_spec(48u8, true) == Some(66u8));
    assert(ascii_spec(49u8, false) == Some(110u8) && ascii_spec(49u8, true) == Some(78u8));
    assert(ascii_spec(50u8, false) == Some(109u8) && ascii_spec(50u8, true) == Some(77u8));
    assert(ascii_spec(2u8, false) == Some(49u8));
    assert(ascii_spec(3u8, false) == Some(50u8));
    assert(ascii_spec(4u8, false) == Some(51u8));
    assert(ascii_spec(5u8, false) == Some(52u8));
    assert(ascii_spec(6u8, false) == Some(53u8));
    assert(ascii_spec(7u8, false) == Some(54u8));
    assert(ascii_spec(8u8, false) == Some(55u8));
    assert(ascii_spec(9u8, false) == Some(56u8));
    assert(ascii_spec(10u8, false) == Some(57u8));
    assert(ascii_spec(11u8, false) == Some(48u8));
    assert forall|k: int| 0 <= k < top_row().len() implies {
        &&& #[trigger] ascii_spec((0x10 + k) as u8, false) == Some(top_row()[k])
        &&& ascii_spec((0x10 + k) as u8, true) == Some((top_row()[k] - 32) as u8)
    } by {
        assert(0 <= k < 10);
    }
    assert forall|k: int| 0 <= k < home_row().len() implies {
        &&& #[trigger] ascii_spec((0x1E + k) as u8, false) == Some(home_row()[k])
        &&& ascii_spec((0x1E + k) as u8, true) == Some((home_row()[k] - 32) as u8)
    } by {
        assert(0 <= k < 9);
    }
    assert forall|k: int| 0 <= k < bottom_row().len() implies {
        &&& #[trigger] ascii_spec((0x2C + k) as u8, false) == Some(bottom_row()[k])
        &&& ascii_spec((0x2C + k) as u8, true) == Some((bottom_row()[k] - 32) as u8)
    } by {
        assert(0 <= k < 7);
    }
    assert(is_lower_letter(lower_table()[0]) ==> letter_key(lower_table()[0]) == 0);
    assert(is_lower_letter(lower_table()[1]) ==> letter_key(lower_table()[1]) == 1);
    assert(is_lower_letter(lower_table()[2]) ==> letter_key(lower_table()[2]) == 2);
    assert(is_lower_letter(lower_table()[3]) ==> letter_key(lower_table()[3]) == 3);
    assert(is_lower_letter(lower_table()[4]) ==> letter_key(lower_table()[4]) == 4);
    assert(is_lower_letter(lower_table()[5]) ==> letter_key(lower_table()[5]) == 5);
    assert(is_lower_letter(lower_table()[6]) ==> letter_key(lower_table()[6]) == 6);
    assert(is_lower_letter(lower_table()[7]) ==> letter_key(lower_table()[7]) == 7);
    assert(is_lower_letter(lower_table()[8]) ==> letter_key(lower_table()[8]) == 8);
    assert(is_lower_letter(lower_table()[9]) ==> letter_key(lower_table()[9]) == 9);
    assert(is_lower_letter(lower_table()[10]) ==> letter_key(lower_table()[10]) == 10);
    assert(is_lower_letter(lower_table()[11]) ==> letter_key(lower_table()[11]) == 11);
    assert(is_lower_letter(lower_table()[12]) ==> letter_key(lower_table()[12]) == 12);
    assert(is_lower_letter(lower_table()[13]) ==> letter_key(lower_table()[13]) == 13);
    assert(is_lower_letter(lower_table()[14]) ==> letter_key(lower_table()[14]) == 14);
    assert(is_lower_letter(lower_table()[15]) ==> letter_key(lower_table()[15]) == 15);
    assert(is_lower_letter(lower_table()[16]) ==> letter_key(lower_table()[16]) == 16);
    assert(is_lower_letter(lower_table()[17]) ==> letter_key(lower_table()[17]) == 17);
    assert(is_lower_letter(lower_table()[18]) ==> letter_key(lower_table()[18]) == 18);
    assert(is_lower_letter(lower_table()[19]) ==> letter_key(lower_table()[19]) == 19);
    assert(is_lower_letter(lower_table()[20]) ==> letter_key(lower_table()[20]) == 20);
    assert(is_lower_letter(lower_table()[21]) ==> letter_key(lower_table()[21]) == 21);
    assert(is_lower_letter(lower_table()[22]) ==> letter_key(lower_table()[22]) == 22);
    assert(is_lower_letter(lower_table()[23]) ==> letter_key(lower_table()[23]) == 23);
    assert(is_lower_letter(lower_table()[24]) ==> letter_key(lower_table()[24]) == 24);
    assert(is_lower_letter(lower_table()[25]) ==> letter_key(lower_table()[25]) == 25);
    assert(is_lower_letter(lower_table()[26]) ==> letter_key(lower_table()[26]) == 26);
    assert(is_lower_letter(lower_table()[27]) ==> letter_key(lower_table()[27]) == 27);
    assert(is_lower_letter(lower_table()[28]) ==> letter_key(lower_table()[28]) == 28);
    assert(is_lower_letter(lower_table()[29]) ==> letter_key(lower_table()[29]) == 29);
    assert(is_lower_letter(lower_table()[30]) ==> letter_key(lower_table()[30]) == 30);
    assert(is_lower_letter(lower_table()[31]) ==> letter_key(lower_table()[31]) == 31);
    assert(is_lower_letter(lower_table()[32]) ==> letter_key(lower_table()[32]) == 32);
    assert(is_lower_letter(lower_table()[33]) ==> letter_key(lower_table()[33]) == 33);
    assert(is_lower_letter(lower_table()[34]) ==> letter_key(lower_table()[34]) == 34);
    assert(is_lower_letter(lower_table()[35]) ==> letter_key(lower_table()[35]) == 35);
    assert(is_lower_letter(lower_table()[36]) ==> letter_key(lower_table()[36]) == 36);
    assert(is_lower_letter(lower_table()[37]) ==> letter_key(lower_table()[37]) == 37);
    assert(is_lower_letter(lower_table()[38]) ==> letter_key(lower_table()[38]) == 38);
    assert(is_lower_letter(lower_table()[39]) ==> letter_key(lower_table()[39]) == 39);
    assert(is_lower_letter(lower_table()[40]) ==> letter_key(lower_table()[40]) == 40);
    assert(is_lower_letter(lower_table()[41]) ==> letter_key(lower_table()[41]) == 41);
    assert(is_lower_letter(lower_table()[42]) ==> letter_key(lower_table()[42]) == 42);
    assert(is_lower_letter(lower_table()[43]) ==> letter_key(lower_table()[43]) == 43);
    assert(is_lower_letter(lower_table()[44]) ==> letter_key(lower_table()[44]) == 44);
    assert(is_lower_letter(lower_table()[45]) ==> letter_key(lower_table()[45]) == 45);
    assert(is_lower_letter(lower_table()[46]) ==> letter_key(lower_table()[46]) == 46);
    assert(is_lower_letter(lower_table()[47]) ==> letter_key(lower_table()[47]) == 47);
    assert(is_lower_letter(lower_table()[48]) ==> letter_key(lower_table()[48]) == 48);
    assert(is_lower_letter(lower_table()[49]) ==> letter_key(lower_table()[49]) == 49);
    assert(is_lower_letter(lower_table()[50]) ==> letter_key(lower_table()[50]) == 50);
    assert(is_lower_letter(lower_table()[51]) ==> letter_key(lower_table()[51]) == 51);
    assert(is_lower_letter(lower_table()[52]) ==> letter_key(lower_table()[52]) == 52);
    assert(is_lower_letter(lower_table()[53]) ==> letter_key(lower_table()[53]) == 53);
    assert(is_lower_letter(lower_table()[54]) ==> letter_key(lower_table()[54]) == 54);
    assert(is_lower_letter(lower_table()[55]) ==> letter_key(lower_table()[55]) == 55);
    assert(is_lower_letter(lower_table()[56]) ==> letter_key(lower_table()[56]) == 56);
    assert(is_lower_letter(lower_table()[57]) ==> letter_key(lower_table()[57]) == 57);
    assert forall|s1: u8, s2: u8| #![trigger ascii_spec(s1, false), ascii_spec(s2, false)]
        ascii_spec(s1, false) == ascii_spec(s2, false) && ascii_spec(s1, false) is Some && is_lower_letter(ascii_spec(s1, false)->0)
        implies s1 == s2 by {
        assert(s1 < 58 && s2 < 58);
        let c = lower_table()[s1 as int];
        assert(lower_table()[s2 as int] == c);
        assert(letter_key(c) == s1);
        assert(letter_key(c) == s2);
    }
}

/// The make code of the key for lowercase letter `c` (-1 for other bytes).
spec fn letter_key(c: u8) -> int {
    if c == 97 { 30
    } else if c == 98 { 48
    } else if c == 99 { 46
    } else if c == 100 { 32
    } else if c == 101 { 18
    } else if c == 102 { 33
    } else if c == 103 { 34
    } else if c == 104 { 35
    } else if c == 105 { 23
    } else if c == 106 { 36
    } else if c == 107 { 37
    } else if c == 108 { 38
    } else if c == 109 { 50
    } else if c == 110 { 49
    } else if c == 111 { 24
    } else if c == 112 { 25
    } else if c == 113 { 16
    } else if c == 114 { 19
    } else if c == 115 { 31
    } else if c == 116 { 20
    } else if c == 117 { 22
    } else if c == 118 { 47
    } else if c == 119 { 17
    } else if c == 120 { 45
    } else if c == 121 { 21
    } else if c == 122 { 44
    } else { -1 }
}

/// The symbols above the digits on the US keyboard, `!` over `1` to `)`
/// over `0`.
pub open spec fn shifted_digit_row() -> Seq<u8> {
    seq![0x21u8, 0x40, 0x23, 0x24, 0x25, 0x5e, 0x26, 0x2a, 0x28, 0x29]
}

/// With Shift the digit keys 0x02..0x0B give `! @ # $ % ^ & * ( )`; Enter,
/// Backspace, Tab and Space give their control character (or space) with
/// or without Shift; Escape and every code past Space (0x3A and up, release
/// codes among them) give no character.
pub proof fn us_layout_shift_and_controls()
    ensures
        forall|k: int| 0 <= k < 10 ==> #[trigger] ascii_spec((2 + k) as u8, true) == Some(shifted_digit_row()[k]),
        forall|s: bool| #![trigger ascii_spec(0x1Cu8, s)] ascii_spec(0x1Cu8, s) == Some(0x0Au8),
        forall|s: bool| #![trigger ascii_spec(0x0Eu8, s)] ascii_spec(0x0Eu8, s) == Some(8u8),
        forall|s: bool| #![trigger ascii_spec(0x0Fu8, s)] ascii_spec(0x0Fu8, s) == Some(0x09u8),
        forall|s: bool| #![trigger ascii_spec(0x39u8, s)] ascii_spec(0x39u8, s) == Some(0x20u8),
        forall|s: bool| #![trigger ascii_spec(1u8, s)] ascii_spec(1u8, s) is None,
        forall|sc: u8, s: bool| sc >= 0x3A ==> #[trigger] ascii_spec(sc, s) is None,
{
    assert(ascii_spec(2u8, true) == Some(0x21u8));
    assert(ascii_spec(3u8, true) == Some(0x40u8));
    assert(ascii_spec(4u8, true) == Some(0x23u8));
    assert(ascii_spec(5u8, true) == Some(0x24u8));
    assert(ascii_spec(6u8, true) == Some(0x25u8));
    assert(ascii_spec(7u8, true) == Some(0x5eu8));
    assert(ascii_spec(8u8, true) == Some(0x26u8));
    assert(ascii_spec(9u8, true) == Some(0x2au8));
    assert(ascii_spec(10u8, true) == Some(0x28u8));
    assert(ascii_spec(11u8, true) == Some(0x29u8));
    assert forall|k: int| 0 <= k < 10 implies #[trigger] ascii_spec((2 + k) as u8, true) == Some(shifted_digit_row()[k]) by {
        assert(0 <= k < 10);
    }
    assert(lower_table()[0x1C] == 0x0Au8 && upper_table()[0x1C] == 0x0Au8);
    assert(lower_table()[0x0E] == 8u8 && upper_table()[0x0E] == 8u8);
    assert(lower_table()[0x0F] == 0x09u8 && upper_table()[0x0F] == 0x09u8);
    assert(lower_table()[0x39] == 0x20u8 && upper_table()[0x39] == 0x20u8);
    assert(lower_table()[1] == 27u8 && upper_table()[1] == 27u8);
}

/// The arrow and page keys behind the 0xE0 prefix.
pub fn translate_extended(sc: u8) -> (r: Option<KeyEvent>)
    ensures
        r == (if sc == 0x48 { Some(KeyEvent::Up) } else if sc == 0x50 { Some(KeyEvent::Down) }
            else if sc == 0x4B { Some(KeyEvent::Left) } else if sc == 0x4D { Some(KeyEvent::Right) }
            else if sc == 0x49 { Some(KeyEvent::PageUp) } else if sc == 0x51 { Some(KeyEvent::PageDown) } else { None }),
{
    match sc {
        0x48 => Some(KeyEvent::Up),
        0x50 => Some(KeyEvent::Down),
        0x4B => Some(KeyEvent::Left),
        0x4D => Some(KeyEvent::Right),
        0x49 => Some(KeyEvent::PageUp),
        0x51 => Some(KeyEvent::PageDown),
        _ => None,
    }
}

/// Modifier and prefix state of the keyboard decoder.
pub struct KeyboardState {
    pub shift: bool,
    pub ctrl: bool,
    /// A 0xE0 prefix was received.
    pub extended: bool,
}

/// The event of a make code under the current modifiers: Shift and Ctrl
/// only change the modifiers; Backspace, Enter and Escape are named; other
/// keys give their character, as a control event while Ctrl is held.
pub open spec fn translate_spec(sc: u8, shift: bool, ctrl: bool) -> Option<KeyEvent> {
    if sc == 0x2A || sc == 0x36 || sc == 0x1D {
        None
    } else if sc == 0x0E {
        Some(KeyEvent::Backspace)
    } else if sc == 0x1C {
        Some(KeyEvent::Enter)
    } else if sc == 0x01 {
        Some(KeyEvent::Escape)
    } else {
        match ascii_spec(sc, shift) {
            Some(c) => if ctrl { Some(KeyEvent::Ctrl(c as char)) } else { Some(KeyEvent::Char(c)) },
            None => None,
        }
    }
}

impl KeyboardState {
    pub fn new() -> (r: Self)
        ensures
            !r.shift && !r.ctrl && !r.extended,
    {
        KeyboardState { shift: false, ctrl: false, extended: false }
    }
}

/// Translates a make code, pressing Shift or Ctrl when it is one.
pub fn translate(st: &mut KeyboardState, sc: u8) -> (r: Option<KeyEvent>)
    ensures
        r == translate_spec(sc, old(st).shift, old(st).ctrl),
        final(st).shift == (old(st).shift || sc == 0x2A || sc == 0x36),
        final(st).ctrl == (old(st).ctrl || sc == 0x1D),
        final(st).extended == old(st).extended,
{
    match sc {
        0x2A | 0x36 => {
            st.shift = true;
            None
        },
        0x1D => {
            st.ctrl = true;
            None
        },
        0x0E => Some(KeyEvent::Backspace),
        0x1C => Some(KeyEvent::Enter),
        0x01 => Some(KeyEvent::Escape),
        _ => {
            let c = match scancode_to_ascii(sc, st.shift) {
                Some(c) => c,
                None => {
                    return None;
                },
            };
            if st.ctrl {
                Some(KeyEvent::Ctrl(c as char))
            } else {
                Some(KeyEvent::Char(c))
            }
        },
    }
}

/// Releases Shift or Ctrl when the break code (without its top bit) is one.
pub fn handle_release(st: &mut KeyboardState, sc: u8)
    ensures
        final(st).shift == (old(st).shift && sc != 0x2A && sc != 0x36),
        final(st).ctrl == (old(st).ctrl && sc != 0x1D),
        final(st).extended == old(st).extended,
{
    match sc {
        0x2A | 0x36 => st.shift = false,
        0x1D => st.ctrl = false,
        _ => {},
    }
}

/// One scancode from the keyboard: 0xE0 marks the next code as extended;
/// an extended code gives an arrow or page key; a break code (top bit set)
/// releases a modifier; a make code is translated.
pub fn process_scancode(st: &mut KeyboardState, sc: u8) -> (r: Option<KeyEvent>)
    ensures
        sc == 0xE0 ==> r is None && final(st).extended && final(st).shift == old(st).shift && final(st).ctrl == old(st).ctrl,
        sc != 0xE0 && old(st).extended ==> !final(st).extended && final(st).shift == old(st).shift
            && final(st).ctrl == old(st).ctrl && r == (if sc == 0x48 { Some(KeyEvent::Up) } else if sc == 0x50 { Some(KeyEvent::Down) }
            else if sc == 0x4B { Some(KeyEvent::Left) } else if sc == 0x4D { Some(KeyEvent::Right) }
            else if sc == 0x49 { Some(KeyEvent::PageUp) } else if sc == 0x51 { Some(KeyEvent::PageDown) } else { None }),
        sc != 0xE0 && !old(st).extended && sc >= 0x80 ==> r is None && !final(st).extended
            && final(st).shift == (old(st).shift && sc % 128 != 0x2A && sc % 128 != 0x36)
            && final(st).ctrl == (old(st).ctrl && sc % 128 != 0x1D),
        sc != 0xE0 && !old(st).extended && sc < 0x80 ==> !final(st).extended
            && r == translate_spec(sc, old(st).shift, old(st).ctrl)
            && final(st).shift == (old(st).shift || sc == 0x2A || sc == 0x36)
            && final(st).ctrl == (old(st).ctrl || sc == 0x1D),
{
    if sc == 0xE0 {
        st.extended = true;
        return None;
    }
    if st.extended {
        st.extended = false;
        return translate_extended(sc);
    }
    if sc >= 0x80 {
        handle_release(st, sc % 128);
        return None;
    }
    translate(st, sc)
}

} // verus!
