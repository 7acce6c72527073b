//! The shell's input line: keys and serial bytes edit a line of up to 256
//! bytes, the arrow keys walk the history, and a finished line becomes a
//! command.

use vstd::prelude::*;
use crate::keyboard::KeyEvent;
use crate::shell::history::{History, prev_spec, next_spec, push_spec};
use crate::text::{trim, trim_spec, utf8_text};
use vstd::utf8::{valid_utf8, decode_utf8};

verus! {

pub const LINE_MAX: usize = 256;

/// One input: a keyboard event or a byte from the serial line.
#[derive(Clone, Copy, Debug, PartialEq, Eq, Structural)]
pub enum LineInput {
    Key(KeyEvent),
    Serial(u8),
}

/// What the screen should show after an input.
pub enum LineAction {
    /// Nothing changes.
    Nothing,
    /// The character is added at the end.
    Echo(u8),
    /// The last character is rubbed out.
    Erase,
    /// `erase` characters are rubbed out and `text` is shown instead.
    Load(usize, Vec<u8>),
    /// `erase` characters are rubbed out.
    Clear(usize),
    /// A line feed; the line is complete.
    Submit,
    /// `erase` characters are rubbed out, `^C` and a line feed are shown;
    /// the (now empty) line is complete.
    Cancel(usize),
}

/// The character an input types, if any: a character key, or a printable
/// ASCII byte from the serial line.
pub open spec fn typed_char(input: LineInput) -> Option<u8> {
    match input {
        LineInput::Key(KeyEvent::Char(c)) => Some(c),
        LineInput::Serial(c) => if 0x20 <= c <= 0x7E { Some(c) } else { None },
        _ => None,
    }
}

/// `char::is_control`: the C0 controls, DEL and the C1 controls.
pub open spec fn is_control(c: char) -> bool {
    let u = c as u32;
    u <= 0x1F || (0x7F <= u && u <= 0x9F)
}

/// A character a command line may hold: no NUL, and no control character
/// but line feed and tab.
pub open spec fn accepted_char(c: char) -> bool {
    c != '\0' && (!is_control(c) || c == '\n' || c == '\t')
}

/// The text of a finished line: its bytes decoded as UTF-8 (nothing if
/// they are not valid UTF-8), without surrounding whitespace.
pub open spec fn line_text(b: Seq<u8>) -> Seq<char> {
    if valid_utf8(b) { trim_spec(decode_utf8(b)) } else { Seq::empty() }
}

/// What a finished line amounts to.
pub enum LineOutcome {
    /// Nothing but whitespace (or bytes that are not UTF-8).
    Empty,
    /// A character that no command may hold: "Invalid input".
    Invalid,
    /// A command, trimmed.
    Command(String),
}

fn accepted(c: char) -> (r: bool)
    ensures
        r == accepted_char(c),
{
    let u = c as u32;
    let control = u <= 0x1F || (0x7F <= u && u <= 0x9F);
    c != '\0' && (!control || c == '\n' || c == '\t')
}

fn all_accepted(s: &str) -> (r: bool)
    ensures
        r == (forall|i: int| 0 <= i < s@.len() ==> accepted_char(#[trigger] s@[i])),
{
    let n = s.unicode_len();
    let mut k: usize = 0;
    while k < n
        invariant
            k <= n == s@.len(),
            forall|i: int| 0 <= i < k ==> accepted_char(#[trigger] s@[i]),
        decreases n - k,
    {
        if !accepted(s.get_char(k)) {
            return false;
        }
        k = k + 1;
    }
    true
}

/// The line being typed.
pub struct LineEditor {
    buf: Vec<u8>,
}

/// Up to 256 leading bytes.
pub open spec fn clip(b: Seq<u8>) -> Seq<u8> {
    if b.len() <= LINE_MAX { b } else { b.subrange(0, LINE_MAX as int) }
}

impl LineEditor {
    pub closed spec fn text(&self) -> Seq<u8> {
        self.buf@
    }

    pub closed spec fn wf(&self) -> bool {
        self.buf@.len() <= LINE_MAX
    }

    /// An empty line.
    pub fn new() -> (r: Self)
        ensures
            r.wf(),
            r.text() == Seq::<u8>::empty(),
    {
        LineEditor { buf: Vec::new() }
    }

    fn add(&mut self, c: u8) -> (r: LineAction)
        requires
            old(self).wf(),
        ensures
            final(self).wf(),
            old(self).text().len() < LINE_MAX ==> final(self).text() == old(self).text().push(c) && r == LineAction::Echo(c),
            old(self).text().len() >= LINE_MAX ==> final(self).text() == old(self).text() && r == LineAction::Nothing,
    {
        if self.buf.len() < LINE_MAX {
            self.buf.push(c);
            LineAction::Echo(c)
        } else {
            LineAction::Nothing
        }
    }

    fn rub(&mut self) -> (r: LineAction)
        requires
            old(self).wf(),
        ensures
            final(self).wf(),
            old(self).text().len() > 0 ==> final(self).text() == old(self).text().drop_last() && r == LineAction::Erase,
            old(self).text().len() == 0 ==> final(self).text() == old(self).text() && r == LineAction::Nothing,
    {
        if self.buf.len() > 0 {
            self.buf.pop();
            LineAction::Erase
        } else {
            LineAction::Nothing
        }
    }

    fn load(&mut self, s: &String) -> (r: LineAction)
        requires
            old(self).wf(),
        ensures
            final(self).wf(),
            final(self).text() == clip(vstd::utf8::encode_utf8(s@)),
            r matches LineAction::Load(n, t) && n == old(self).text().len() && t@ == final(self).text(),
    {
        let erase = self.buf.len();
        let b = s.as_str().as_bytes();
        let mut v: Vec<u8> = Vec::new();
        let mut k: usize = 0;
        while k < b.len() && k < LINE_MAX
            invariant
                k <= b@.len(),
                k <= LINE_MAX,
                v@ == b@.subrange(0, k as int),
            decreases b@.len() - k,
        {
            v.push(b[k]);
            k = k + 1;
            assert(v@ =~= b@.subrange(0, k as int));
        }
        assert(v@ =~= clip(b@));
        self.buf = v;
        let shown = vstd::slice::slice_to_vec(self.buf.as_slice());
        LineAction::Load(erase, shown)
    }

    fn cancel(&mut self) -> (r: LineAction)
        ensures
            final(self).wf(),
            final(self).text() == Seq::<u8>::empty(),
            r matches LineAction::Cancel(n) && n == old(self).text().len(),
    {
        let erase = self.buf.len();
        self.buf = Vec::new();
        LineAction::Cancel(erase)
    }

    /// Handles one input (see the cases of `LineAction`): printable keys and
    /// serial bytes 0x20..0x7E are added while the line has room,
    /// Backspace, DEL and BS rub out, Enter, CR and LF complete the line,
    /// Ctrl+C and ETX cancel it, the up and down arrows replace the line by
    /// the previous and next history entry (the down arrow past the newest
    /// clears it).
    pub fn step(&mut self, hist: &mut History, input: LineInput) -> (r: LineAction)
        requires
            old(self).wf(),
        ensures
            final(self).wf(),
            final(hist).entries() == old(hist).entries(),
            typed_char(input) matches Some(c) ==> if old(self).text().len() < LINE_MAX {
                final(self).text() == old(self).text().push(c) && r == LineAction::Echo(c)
            } else {
                final(self).text() == old(self).text() && r == LineAction::Nothing
            },
            input == LineInput::Key(KeyEvent::Backspace) || input == LineInput::Serial(0x7F) || input == LineInput::Serial(0x08)
                ==> if old(self).text().len() > 0 {
                    final(self).text() == old(self).text().drop_last() && r == LineAction::Erase
                } else {
                    final(self).text() == old(self).text() && r == LineAction::Nothing
                },
            input == LineInput::Key(KeyEvent::Enter) || input == LineInput::Serial(13) || input == LineInput::Serial(10)
                ==> final(self).text() == old(self).text() && r == LineAction::Submit,
            input == LineInput::Key(KeyEvent::Ctrl('c')) || input == LineInput::Serial(3)
                ==> final(self).text() == Seq::<u8>::empty() && (r matches LineAction::Cancel(n) && n == old(self).text().len()),
            input == LineInput::Key(KeyEvent::Up) ==> {
                &&& final(hist).position() == prev_spec(old(hist).entries(), old(hist).position()).0
                &&& match prev_spec(old(hist).entries(), old(hist).position()).1 {
                    Some(c) => final(self).text() == clip(vstd::utf8::encode_utf8(c))
                        && (r matches LineAction::Load(n, t) && n == old(self).text().len() && t@ == final(self).text()),
                    None => final(self).text() == old(self).text() && r == LineAction::Nothing,
                }
            },
            input == LineInput::Key(KeyEvent::Down) ==> {
                &&& final(hist).position() == next_spec(old(hist).entries(), old(hist).position()).0
                &&& match next_spec(old(hist).entries(), old(hist).position()).1 {
                    Some(c) => final(self).text() == clip(vstd::utf8::encode_utf8(c))
                        && (r matches LineAction::Load(n, t) && n == old(self).text().len() && t@ == final(self).text()),
                    None => final(self).text() == Seq::<u8>::empty()
                        && (r matches LineAction::Clear(n) && n == old(self).text().len()),
                }
            },
            !(input is Key && (input->Key_0 is Up || input->Key_0 is Down)) ==> final(hist).position() == old(hist).position(),
    {
        match input {
            LineInput::Key(ev) => match ev {
                KeyEvent::Char(c) => self.add(c),
                KeyEvent::Backspace => self.rub(),
                KeyEvent::Enter => LineAction::Submit,
                KeyEvent::Up => match hist.prev() {
                    Some(cmd) => self.load(&cmd),
                    None => LineAction::Nothing,
                },
                KeyEvent::Down => match hist.next() {
                    Some(cmd) => self.load(&cmd),
                    None => {
                        let erase = self.buf.len();
                        self.buf = Vec::new();
                        LineAction::Clear(erase)
                    },
                },
                KeyEvent::Ctrl(k) => if k == 'c' {
                    self.cancel()
                } else {
                    LineAction::Nothing
                },
                _ => LineAction::Nothing,
            },
            LineInput::Serial(b) => if b == 13 || b == 10 {
                LineAction::Submit
            } else if b == 0x7F || b == 0x08 {
                self.rub()
            } else if b == 0x03 {
                self.cancel()
            } else if b >= 0x20 && b <= 0x7E {
                self.add(b)
            } else {
                LineAction::Nothing
            },
        }
    }

    /// Completes the line: its text, decoded and trimmed, is a command
    /// (recorded in the history) if every character is accepted, "Invalid
    /// input" if not, and nothing if it is empty. The line starts afresh.
    pub fn submit(&mut self, hist: &mut History) -> (r: LineOutcome)
        requires
            old(self).wf(),
        ensures
            final(self).wf(),
            final(self).text() == Seq::<u8>::empty(),
            ({
                let t = line_text(old(self).text());
                if t.len() == 0 {
                    r is Empty && final(hist).entries() == old(hist).entries()
                        && final(hist).position() == old(hist).position()
                } else if forall|i: int| 0 <= i < t.len() ==> accepted_char(#[trigger] t[i]) {
                    (r matches LineOutcome::Command(c) && c@ == t)
                        && final(hist).entries() == push_spec(old(hist).entries(), t)
                        && final(hist).position() == -1
                } else {
                    r is Invalid && final(hist).entries() == old(hist).entries()
                        && final(hist).position() == old(hist).position()
                }
            }),
    {
        let decoded = utf8_text(self.buf.as_slice());
        self.buf = Vec::new();
        let whole = match decoded {
            Some(s) => s,
            None => String::new(),
        };
        let t = trim(whole.as_str());
        if t.unicode_len() == 0 {
            return LineOutcome::Empty;
        }
        if all_accepted(t) {
            hist.push(t);
            LineOutcome::Command(t.to_owned())
        } else {
            LineOutcome::Invalid
        }
    }
}

} // verus!
