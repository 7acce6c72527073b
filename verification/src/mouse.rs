//! PS/2 mouse: packet assembly and decoding, and the event queue.

use vstd::prelude::*;

verus! {

/// Queue capacity in slots (one stays free).
pub const QUEUE_SIZE: usize = 32;

#[derive(Clone, Copy, Debug, PartialEq, Eq, Structural)]
pub enum MouseEvent {
    Move { dx: i16, dy: i16 },
    Scroll { delta: i8 },
    LeftClick,
    RightClick,
    MiddleClick,
}

/// A fixed-size FIFO of mouse events; one slot is kept free.
pub struct EventRing {
    buf: Vec<Option<MouseEvent>>,
    head: usize,
    tail: usize,
}

impl EventRing {
    pub closed spec fn well_formed(&self) -> bool {
        &&& self.buf@.len() == QUEUE_SIZE
        &&& self.head < QUEUE_SIZE
        &&& self.tail < QUEUE_SIZE
    }

    /// The queued slots, oldest first.
    pub closed spec fn view(&self) -> Seq<Option<MouseEvent>> {
        let n = if self.head >= self.tail { self.head - self.tail } else { self.head + QUEUE_SIZE - self.tail };
        Seq::new(n as nat, |i: int| self.buf@[(self.tail + i) % (QUEUE_SIZE as int)])
    }

    pub proof fn lemma_capacity(&self)
        requires
            self.well_formed(),
        ensures
            self.view().len() < QUEUE_SIZE,
    {
    }

    pub fn new() -> (r: Self)
        ensures
            r.well_formed(),
            r.view() == Seq::<Option<MouseEvent>>::empty(),
    {
        let mut buf: Vec<Option<MouseEvent>> = Vec::new();
        let mut i: usize = 0;
        while i < QUEUE_SIZE
            invariant
                i <= QUEUE_SIZE,
                buf@.len() == i,
            decreases QUEUE_SIZE - i,
        {
            buf.push(None);
            i = i + 1;
        }
        let r = EventRing { buf, head: 0, tail: 0 };
        assert(r.view() =~= Seq::<Option<MouseEvent>>::empty());
        r
    }

    /// Appends an event; returns false (and drops it) when full.
    pub fn push(&mut self, ev: MouseEvent) -> (r: bool)
        requires
            old(self).well_formed(),
        ensures
            final(self).well_formed(),
            r == (old(self).view().len() < QUEUE_SIZE - 1),
            r ==> final(self).view() == old(self).view().push(Some(ev)),
            !r ==> final(self).view() == old(self).view(),
    {
        let next = (self.head + 1) % QUEUE_SIZE;
        if next == self.tail {
            return false;
        }
        self.buf.set(self.head, Some(ev));
        self.head = next;
        assert(self.view() =~= old(self).view().push(Some(ev)));
        true
    }

    /// Takes the oldest event; `None` when empty.
    pub fn pop(&mut self) -> (r: Option<MouseEvent>)
        requires
            old(self).well_formed(),
        ensures
            final(self).well_formed(),
            old(self).view().len() == 0 ==> r is None && final(self).view() == old(self).view(),
            old(self).view().len() > 0 ==> r == old(self).view()[0]
                && final(self).view() == old(self).view().subrange(1, old(self).view().len() as int),
    {
        if self.tail == self.head {
            return None;
        }
        let t = self.tail;
        let ev = self.buf[t];
        self.buf.set(t, None);
        self.tail = (t + 1) % QUEUE_SIZE;
        assert(self.view() =~= old(self).view().subrange(1, old(self).view().len() as int));
        ev
    }
}

/// The packet being assembled and the device's capabilities.
pub struct MouseState {
    pub cycle: u8,
    pub bytes: [u8; 4],
    /// The device reported a wheel: packets have four bytes.
    pub has_scroll: bool,
    pub initialized: bool,
}

/// Bytes per packet.
pub open spec fn packet_size(has_scroll: bool) -> u8 {
    if has_scroll { 4 } else { 3 }
}

impl MouseState {
    pub open spec fn wf(&self) -> bool {
        self.cycle < packet_size(self.has_scroll)
    }

    pub fn new() -> (r: Self)
        ensures
            r.wf(),
            r.cycle == 0,
            r.bytes@ == seq![0u8, 0u8, 0u8, 0u8],
            !r.has_scroll,
            !r.initialized,
    {
        let r = MouseState { cycle: 0, bytes: [0u8; 4], has_scroll: false, initialized: false };
        assert(r.bytes@ =~= seq![0u8, 0u8, 0u8, 0u8]);
        r
    }
}

/// Whether a device id (3 or 4) denotes a wheel mouse.
pub fn has_scroll_wheel(device_id: u8) -> (r: bool)
    ensures
        r == (device_id == 0x03 || device_id == 0x04),
{
    device_id == 0x03 || device_id == 0x04
}

/// Marks the mouse ready, with a wheel according to its device id.
pub fn init(st: &mut MouseState, device_id: u8)
    ensures
        final(st).has_scroll == (device_id == 0x03 || device_id == 0x04),
        final(st).initialized,
        final(st).cycle == 0,
        final(st).wf(),
{
    st.has_scroll = has_scroll_wheel(device_id);
    st.initialized = true;
    st.cycle = 0;
}

pub fn is_initialized(st: &MouseState) -> (r: bool)
    ensures
        r == st.initialized,
{
    st.initialized
}

pub open spec fn abs16(x: i16) -> int {
    if x < 0 { -x } else { x as int }
}

/// The events of a complete packet, in the order they are queued: none
/// unless bit 3 of the flags is set; then a scroll (fourth byte, signed)
/// when non-zero, a move when a delta exceeds 2 (deltas read unsigned),
/// then left, right and middle clicks by flag bits 0, 1, 2.
pub open spec fn packet_events(b: Seq<u8>, has_scroll: bool) -> Seq<MouseEvent> {
    let flags = b[0];
    let dx = b[1] as i16;
    let dy = b[2] as i16;
    if flags & 0x08 == 0 {
        seq![]
    } else {
        (if has_scroll && b[3] != 0 { seq![MouseEvent::Scroll { delta: b[3] as i8 }] } else { seq![] })
            + (if abs16(dx) > 2 || abs16(dy) > 2 { seq![MouseEvent::Move { dx, dy }] } else { seq![] })
            + (if flags & 0x01 != 0 { seq![MouseEvent::LeftClick] } else { seq![] })
            + (if flags & 0x02 != 0 { seq![MouseEvent::RightClick] } else { seq![] })
            + (if flags & 0x04 != 0 { seq![MouseEvent::MiddleClick] } else { seq![] })
    }
}

/// A packet byte from the device: stored; when the packet is complete
/// its events are returned (to be queued) and assembly restarts.
/// Bytes before initialisation are ignored.
pub fn handle_byte(st: &mut MouseState, byte: u8) -> (evs: Vec<MouseEvent>)
    requires
        old(st).wf(),
    ensures
        final(st).wf(),
        final(st).has_scroll == old(st).has_scroll,
        final(st).initialized == old(st).initialized,
        !old(st).initialized ==> evs@.len() == 0 && final(st).cycle == old(st).cycle,
        old(st).initialized && old(st).cycle + 1 < packet_size(old(st).has_scroll) ==> evs@.len() == 0
            && final(st).cycle == old(st).cycle + 1 && final(st).bytes@ == old(st).bytes@.update(old(st).cycle as int, byte),
        old(st).initialized && old(st).cycle + 1 == packet_size(old(st).has_scroll) ==> final(st).cycle == 0
            && evs@ == packet_events(old(st).bytes@.update(old(st).cycle as int, byte), old(st).has_scroll),
{
    let mut evs: Vec<MouseEvent> = Vec::new();
    if !st.initialized {
        return evs;
    }
    let c = st.cycle as usize;
    st.bytes[c] = byte;
    st.cycle = st.cycle + 1;
    let size: u8 = if st.has_scroll { 4 } else { 3 };
    if st.cycle >= size {
        st.cycle = 0;
        let b = st.bytes;
        assert(b@ == old(st).bytes@.update(old(st).cycle as int, byte));
        let flags = b[0];
        let dx = b[1] as i16;
        let dy = b[2] as i16;
        if flags & 0x08 == 0 {
            return evs;
        }
        if st.has_scroll && b[3] != 0 {
            evs.push(MouseEvent::Scroll { delta: b[3] as i8 });
        }
        let adx: i16 = if dx < 0 { -dx } else { dx };
        let ady: i16 = if dy < 0 { -dy } else { dy };
        if adx > 2 || ady > 2 {
            evs.push(MouseEvent::Move { dx, dy });
        }
        if flags & 0x01 != 0 {
            evs.push(MouseEvent::LeftClick);
        }
        if flags & 0x02 != 0 {
            evs.push(MouseEvent::RightClick);
        }
        if flags & 0x04 != 0 {
            evs.push(MouseEvent::MiddleClick);
        }
    }
    evs
}

/// The next mouse event, if any.
pub fn pop_event(q: &mut EventRing) -> (r: Option<MouseEvent>)
    requires
        old(q).well_formed(),
    ensures
        final(q).well_formed(),
        old(q).view().len() == 0 ==> r is None && final(q).view() == old(q).view(),
        old(q).view().len() > 0 ==> r == old(q).view()[0]
            && final(q).view() == old(q).view().subrange(1, old(q).view().len() as int),
{
    q.pop()
}

} // verus!
