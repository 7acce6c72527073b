//! Text positions for the screen editor: lines of a buffer and the row and
//! column of a byte offset.

use vstd::prelude::*;
use vstd::utf8::{encode_utf8, is_char_boundary, valid_utf8, decode_utf8, length_of_first_scalar};
use crate::keyboard::KeyEvent;
use crate::fs::ramfs::{RamFs, name_ok, key_of};
use crate::vga::{Console, blank_row, text_at, status_spec, same_cursor, same_history, CONTENT_ROWS};
use crate::net::wire::push_slice;

verus! {

/// Rows of the editing area.
pub const EDITOR_ROWS: usize = 24;

/// Index of the first line feed in `b` from `i` (the length if none).
pub open spec fn nl_from(b: Seq<u8>, i: int) -> int
    decreases b.len() - i,
{
    if i < 0 || i >= b.len() {
        b.len() as int
    } else if b[i] == 10 {
        i
    } else {
        nl_from(b, i + 1)
    }
}

proof fn lemma_nl_from(b: Seq<u8>, i: int)
    requires
        0 <= i <= b.len(),
    ensures
        i <= nl_from(b, i) <= b.len(),
        nl_from(b, i) < b.len() ==> b[nl_from(b, i)] == 10,
    decreases b.len() - i,
{
    if i < b.len() && b[i] != 10 {
        lemma_nl_from(b, i + 1);
    }
}

/// Length in bytes of the line starting at `i`: up to the line feed, without
/// a carriage return just before it; the last line runs to the end.
pub open spec fn seg_len(b: Seq<u8>, i: int) -> int {
    let j = nl_from(b, i);
    if j < b.len() {
        if j > i && b[j - 1] == 13 { j - 1 - i } else { j - i }
    } else {
        b.len() - i
    }
}

/// The lengths of the lines from `i` on; text ending in a line feed has no
/// empty line after it, and empty text has no lines.
pub open spec fn line_lens_from(b: Seq<u8>, i: int) -> Seq<int>
    decreases b.len() - i,
{
    let j = nl_from(b, i);
    if i < 0 || i >= b.len() {
        Seq::empty()
    } else if i <= j < b.len() {
        seq![seg_len(b, i)] + line_lens_from(b, j + 1)
    } else {
        seq![seg_len(b, i)]
    }
}

/// The lengths of the lines of a buffer's bytes.
pub open spec fn line_lens(b: Seq<u8>) -> Seq<int> {
    line_lens_from(b, 0)
}

/// The lengths of the lines of `s`.
fn lengths(s: &str) -> (r: Vec<usize>)
    ensures
        r@.len() == line_lens(encode_utf8(s@)).len(),
        forall|k: int| 0 <= k < r@.len() ==> r@[k] == line_lens(encode_utf8(s@))[k],
{
    let b = s.as_bytes();
    let n = b.len();
    let mut out: Vec<usize> = Vec::new();
    let mut i: usize = 0;
    let ghost all = line_lens_from(b@, 0);
    while i < n
        invariant
            n == b@.len(),
            i <= n,
            b@ == encode_utf8(s@),
            all == line_lens_from(b@, 0),
            all == out@.map_values(|x: usize| x as int) + line_lens_from(b@, i as int),
        decreases n - i,
    {
        proof {
            lemma_nl_from(b@, i as int);
        }
        let mut j = i;
        while j < n && b[j] != 10
            invariant
                n == b@.len(),
                i <= j <= n,
                nl_from(b@, j as int) == nl_from(b@, i as int),
            decreases n - j,
        {
            j = j + 1;
        }
        let len = if j < n {
            if j > i && b[j - 1] == 13 { j - 1 - i } else { j - i }
        } else {
            n - i
        };
        let ghost before = out@.map_values(|x: usize| x as int);
        out.push(len);
        assert(out@.map_values(|x: usize| x as int) =~= before.push(len as int));
        if j < n {
            assert(line_lens_from(b@, i as int) == seq![len as int] + line_lens_from(b@, j + 1));
            assert(before + line_lens_from(b@, i as int) =~= before.push(len as int) + line_lens_from(b@, j + 1));
            i = j + 1;
        } else {
            assert(line_lens_from(b@, i as int) == seq![len as int]);
            assert(line_lens_from(b@, n as int) =~= Seq::<int>::empty());
            assert(before + line_lens_from(b@, i as int) =~= before.push(len as int) + line_lens_from(b@, n as int));
            i = n;
        }
    }
    assert(line_lens_from(b@, i as int) =~= Seq::<int>::empty());
    assert(all =~= out@.map_values(|x: usize| x as int));
    out
}

/// Number of lines, at least one.
pub open spec fn line_count_spec(b: Seq<u8>) -> int {
    if line_lens(b).len() == 0 { 1 } else { line_lens(b).len() as int }
}

/// Number of lines of `s`, at least one.
pub fn line_count(s: &str) -> (r: usize)
    ensures
        r == line_count_spec(encode_utf8(s@)),
{
    let v = lengths(s);
    if v.len() == 0 { 1 } else { v.len() }
}

/// Length in bytes of line `row`, 0 past the last line.
pub open spec fn line_len_spec(b: Seq<u8>, row: int) -> int {
    if 0 <= row < line_lens(b).len() { line_lens(b)[row] } else { 0 }
}

/// Length in bytes of line `row` of `s`, 0 past the last line.
pub fn line_len(s: &str, row: usize) -> (r: usize)
    ensures
        r == line_len_spec(encode_utf8(s@), row as int),
{
    let v = lengths(s);
    if row < v.len() { v[row] } else { 0 }
}

/// Row and column of `offset`, counting each line as its length plus one
/// byte of line end; past the text, the end of the last line.
pub open spec fn pos_from(lens: Seq<int>, r: int, acc: int, offset: int, fallback: (int, int)) -> (int, int)
    decreases lens.len() - r,
{
    if r < 0 || r >= lens.len() {
        fallback
    } else if acc + lens[r] + 1 > offset {
        (r, offset - acc)
    } else {
        pos_from(lens, r + 1, acc + lens[r] + 1, offset, fallback)
    }
}

pub open spec fn offset_to_pos_spec(b: Seq<u8>, offset: int) -> (int, int) {
    let rows = line_count_spec(b);
    let last = if rows >= 1 { rows - 1 } else { 0 };
    pos_from(line_lens(b), 0, 0, offset, (last, line_len_spec(b, last)))
}

/// Row and column of byte `offset` of `s`.
pub fn offset_to_pos(s: &str, offset: usize) -> (r: (usize, usize))
    ensures
        (r.0 as int, r.1 as int) == offset_to_pos_spec(encode_utf8(s@), offset as int),
{
    let v = lengths(s);
    let rows = line_count(s);
    let last = if rows >= 1 { rows - 1 } else { 0 };
    let fallback = (last, line_len(s, last));
    assert(offset_to_pos_spec(encode_utf8(s@), offset as int) == pos_from(line_lens(encode_utf8(s@)), 0, 0, offset as int, (fallback.0 as int, fallback.1 as int)));
    let mut i: usize = 0;
    let mut r: usize = 0;
    while r < v.len()
        invariant
            v@.len() == line_lens(encode_utf8(s@)).len(),
            forall|k: int| 0 <= k < v@.len() ==> v@[k] == line_lens(encode_utf8(s@))[k],
            r <= v@.len(),
            i <= offset,
            offset_to_pos_spec(encode_utf8(s@), offset as int)
                == pos_from(line_lens(encode_utf8(s@)), r as int, i as int, offset as int, (fallback.0 as int, fallback.1 as int)),
        decreases v@.len() - r,
    {
        if v[r] >= offset - i {
            assert(pos_from(line_lens(encode_utf8(s@)), r as int, i as int, offset as int, (fallback.0 as int, fallback.1 as int))
                == (r as int, offset - i));
            return (r, offset - i);
        }
        i = i + v[r] + 1;
        r = r + 1;
    }
    fallback
}


/// What `String::from_utf8_lossy` makes of some bytes.
pub uninterp spec fn lossy_text(b: Seq<u8>) -> Seq<char>;

/// `String::from_utf8_lossy`: the text the bytes encode, each invalid
/// sequence replaced by U+FFFD; valid UTF-8 decodes as it is.
#[verifier::external_body]
fn decode_lossy(b: &[u8]) -> (r: String)
    ensures
        r@ == lossy_text(b@),
        valid_utf8(b@) ==> r@ == decode_utf8(b@),
{
    String::from_utf8_lossy(b).into_owned()
}

/// `String::push`: appends `ch`.
#[verifier::external_body]
pub(crate) fn push_char(s: &mut String, ch: char)
    ensures
        final(s)@ == old(s)@.push(ch),
{
    s.push(ch);
}

/// `String::insert`: puts the encoding of `ch` at byte position `idx`,
/// which lies on a character boundary.
#[verifier::external_body]
fn string_insert(s: &mut String, idx: usize, ch: char)
    requires
        is_char_boundary(encode_utf8(old(s)@), idx as int),
    ensures
        encode_utf8(final(s)@) == encode_utf8(old(s)@).subrange(0, idx as int) + encode_utf8(seq![ch])
            + encode_utf8(old(s)@).subrange(idx as int, encode_utf8(old(s)@).len() as int),
{
    s.insert(idx, ch);
}

/// `String::remove`: takes out the character whose encoding starts at byte
/// position `idx`, a character boundary before the end.
#[verifier::external_body]
fn string_remove(s: &mut String, idx: usize)
    requires
        idx < encode_utf8(old(s)@).len(),
        is_char_boundary(encode_utf8(old(s)@), idx as int),
    ensures
        char_end(encode_utf8(old(s)@), idx as int) <= encode_utf8(old(s)@).len()
            && encode_utf8(final(s)@) == without_char(encode_utf8(old(s)@), idx as int),
{
    s.remove(idx);
}

/// Where the character whose encoding starts at `i` ends.
pub open spec fn char_end(b: Seq<u8>, i: int) -> int {
    i + length_of_first_scalar(b.subrange(i, b.len() as int))
}

/// The bytes without the character whose encoding starts at `i`.
pub open spec fn without_char(b: Seq<u8>, i: int) -> Seq<u8> {
    b.subrange(0, i) + b.subrange(char_end(b, i), b.len() as int)
}

/// What the screen and the caller do after an editor step.
#[derive(Debug, Clone, Copy, PartialEq, Eq, Structural)]
pub enum EditorAction {
    /// No key was waiting: idle until the next interrupt.
    Idle,
    /// Nothing to show.
    Nothing,
    /// Leave the editor.
    Exit,
    /// The buffer was written to its file: "Saved <path>" on the status line.
    Saved,
    /// Put the cursor at (row, column).
    Move(usize, usize),
    /// Show the buffer again and put the cursor at (row, column).
    Redraw(usize, usize),
}

/// The screen editor's state: the text, the byte offset where typing
/// goes, the cursor's row and column on screen, and whether there are
/// unsaved changes.
pub struct Editor {
    buffer: String,
    cursor: usize,
    row: usize,
    col: usize,
    dirty: bool,
}

/// The text a file opens as: its contents (decoded, invalid sequences
/// replaced), with a line feed added if it is not empty and does not end
/// in one; empty for a file that cannot be read.
pub open spec fn opened_text(contents: Option<Seq<u8>>) -> Seq<char> {
    match contents {
        Some(b) => {
            let t = lossy_text(b);
            if t.len() > 0 && t.last() != '\n' { t.push('\n') } else { t }
        },
        None => Seq::empty(),
    }
}

/// Where an edit may happen without the operation panicking: typing and
/// Enter at a character boundary, Backspace just after one.
pub open spec fn edit_allowed(text: Seq<u8>, cursor: int, ev: Option<KeyEvent>) -> bool {
    match ev {
        Some(KeyEvent::Char(_)) => is_char_boundary(text, cursor),
        Some(KeyEvent::Enter) => is_char_boundary(text, cursor),
        Some(KeyEvent::Backspace) => cursor > 0 ==> is_char_boundary(text, cursor - 1),
        _ => true,
    }
}

/// The smaller of two.
pub open spec fn min_int(a: int, b: int) -> int {
    if a <= b { a } else { b }
}

impl Editor {
    /// The buffer as bytes.
    pub closed spec fn text(&self) -> Seq<u8> {
        encode_utf8(self.buffer@)
    }

    /// The buffer as characters.
    pub closed spec fn chars(&self) -> Seq<char> {
        self.buffer@
    }

    /// (byte offset of typing, row, column, unsaved changes)
    pub closed spec fn place(&self) -> (int, int, int, bool) {
        (self.cursor as int, self.row as int, self.col as int, self.dirty)
    }

    pub closed spec fn wf(&self) -> bool {
        self.cursor <= encode_utf8(self.buffer@).len()
    }

    /// The bytes are the UTF-8 encoding of the characters, so they are valid
    /// UTF-8 and both ends are character boundaries.
    pub proof fn lemma_text(&self)
        ensures
            self.text() == encode_utf8(self.chars()),
            valid_utf8(self.text()),
            is_char_boundary(self.text(), 0),
            is_char_boundary(self.text(), self.text().len() as int),
    {
        vstd::utf8::encode_utf8_valid_utf8(self.buffer@);
        vstd::utf8::is_char_boundary_start_end_of_seq(self.text());
    }

    /// Opens `path` from `fs`: typing goes at the end, the cursor is at the
    /// top left, nothing is unsaved.
    pub fn open(fs: &RamFs, path: &str) -> (r: Self)
        ensures
            r.wf(),
            r.chars() == opened_text(
                if name_ok(path@) && fs@.dom().contains(key_of(path@)) { Some(fs@[key_of(path@)]) } else { None }),
            r.text() == encode_utf8(r.chars()),
            r.place() == (r.text().len() as int, 0int, 0int, false),
    {
        let mut buffer = match crate::fs::ramfs::read(fs, path) {
            Ok(data) => decode_lossy(data.as_slice()),
            Err(_) => String::new(),
        };
        let n = buffer.as_str().unicode_len();
        if n > 0 && buffer.as_str().get_char(n - 1) != '\n' {
            push_char(&mut buffer, '\n');
        }
        let cursor = buffer.as_str().as_bytes().len();
        Editor { buffer, cursor, row: 0, col: 0, dirty: false }
    }

    /// Whether there are unsaved changes.
    pub fn unsaved(&self) -> (r: bool)
        ensures
            r == self.place().3,
    {
        self.dirty
    }

    /// The text, to show or to save.
    pub fn contents(&self) -> (r: &str)
        ensures
            r@ == self.chars(),
    {
        self.buffer.as_str()
    }

    /// Whether `step` may take `ev` (see `edit_allowed`).
    pub fn can_step(&self, ev: Option<KeyEvent>) -> (r: bool)
        ensures
            r == edit_allowed(self.text(), self.place().0, ev),
    {
        match ev {
            Some(KeyEvent::Char(_)) => self.buffer.as_str().is_char_boundary(self.cursor),
            Some(KeyEvent::Enter) => self.buffer.as_str().is_char_boundary(self.cursor),
            Some(KeyEvent::Backspace) => self.cursor == 0 || self.buffer.as_str().is_char_boundary(self.cursor - 1),
            _ => true,
        }
    }

    fn insert_at_cursor(&mut self, ch: char) -> (r: EditorAction)
        requires
            old(self).wf(),
            is_char_boundary(old(self).text(), old(self).place().0),
        ensures
            final(self).wf(),
            final(self).text() == old(self).text().subrange(0, old(self).place().0) + encode_utf8(seq![ch])
                + old(self).text().subrange(old(self).place().0, old(self).text().len() as int),
            ({
                let p = offset_to_pos_spec(final(self).text(), old(self).place().0 + 1);
                &&& final(self).place() == (old(self).place().0 + 1, p.0, p.1, true)
                &&& r matches EditorAction::Redraw(a, b) && a == p.0 && b == p.1
            }),
    {
        let ghost b = encode_utf8(self.buffer@);
        string_insert(&mut self.buffer, self.cursor, ch);
        proof {
            reveal_with_fuel(encode_utf8, 2);
            assert(encode_utf8(seq![ch]).len() >= 1);
        }
        let n = self.buffer.as_str().as_bytes().len();
        assert(self.cursor + 1 <= n);
        self.cursor = self.cursor + 1;
        self.dirty = true;
        let (r, c) = offset_to_pos(self.buffer.as_str(), self.cursor);
        self.row = r;
        self.col = c;
        EditorAction::Redraw(r, c)
    }

    /// Handles one key (or none: `Idle`). Escape leaves; Ctrl+S writes the
    /// buffer to `path` in `fs`; the arrows move the cursor within the
    /// lines; Backspace, Enter and characters edit at the typing offset,
    /// which the arrows do not move, and put the cursor where it is.
    pub fn step(&mut self, ev: Option<KeyEvent>, fs: &mut RamFs, path: &str) -> (r: EditorAction)
        requires
            old(self).wf(),
            edit_allowed(old(self).text(), old(self).place().0, ev),
        ensures
            final(self).wf(),
            final(self).text() == encode_utf8(final(self).chars()),
            !(ev == Some(KeyEvent::Ctrl('s')) || ev == Some(KeyEvent::Ctrl('S'))) ==> final(fs)@ == old(fs)@,
            ({
                let t = old(self).text();
                let (cur, row, col, dirty) = old(self).place();
                let same = final(self).text() == t && final(self).place() == old(self).place();
                match ev {
                    None => r == EditorAction::Idle && same,
                    Some(KeyEvent::Escape) => r == EditorAction::Exit && same,
                    Some(KeyEvent::Ctrl(k)) => if k == 's' || k == 'S' {
                        &&& r == EditorAction::Saved
                        &&& final(self).text() == t
                        &&& final(self).place() == (cur, row, col, false)
                        &&& final(fs)@ == if name_ok(path@) { old(fs)@.insert(key_of(path@), t) } else { old(fs)@ }
                    } else {
                        r == EditorAction::Nothing && same
                    },
                    Some(KeyEvent::Up) => if row > 0 {
                        let c = min_int(col, line_len_spec(t, row - 1));
                        &&& final(self).text() == t
                        &&& final(self).place() == (cur, row - 1, c, dirty)
                        &&& r matches EditorAction::Move(a, b) && a == row - 1 && b == c
                    } else {
                        r == EditorAction::Nothing && same
                    },
                    Some(KeyEvent::Down) => if row + 1 < line_count_spec(t) {
                        let c = min_int(col, line_len_spec(t, row + 1));
                        &&& final(self).text() == t
                        &&& final(self).place() == (cur, row + 1, c, dirty)
                        &&& r matches EditorAction::Move(a, b) && a == row + 1 && b == c
                    } else {
                        r == EditorAction::Nothing && same
                    },
                    Some(KeyEvent::Left) => if col > 0 {
                        &&& final(self).text() == t
                        &&& final(self).place() == (cur, row, col - 1, dirty)
                        &&& r matches EditorAction::Move(a, b) && a == row && b == col - 1
                    } else if row > 0 {
                        let c = line_len_spec(t, row - 1);
                        &&& final(self).text() == t
                        &&& final(self).place() == (cur, row - 1, c, dirty)
                        &&& r matches EditorAction::Move(a, b) && a == row - 1 && b == c
                    } else {
                        r == EditorAction::Nothing && same
                    },
                    Some(KeyEvent::Right) => if col < line_len_spec(t, row) {
                        &&& final(self).text() == t
                        &&& final(self).place() == (cur, row, col + 1, dirty)
                        &&& r matches EditorAction::Move(a, b) && a == row && b == col + 1
                    } else if row + 1 < line_count_spec(t) {
                        &&& final(self).text() == t
                        &&& final(self).place() == (cur, row + 1, 0int, dirty)
                        &&& r matches EditorAction::Move(a, b) && a == row + 1 && b == 0
                    } else {
                        r == EditorAction::Nothing && same
                    },
                    Some(KeyEvent::Backspace) => if cur > 0 {
                        let nt = without_char(t, cur - 1);
                        let p = offset_to_pos_spec(nt, cur - 1);
                        &&& final(self).text() == nt
                        &&& final(self).place() == (cur - 1, p.0, p.1, true)
                        &&& r matches EditorAction::Redraw(a, b) && a == p.0 && b == p.1
                    } else {
                        r == EditorAction::Nothing && same
                    },
                    Some(KeyEvent::Enter) => {
                        let nt = t.subrange(0, cur) + encode_utf8(seq!['\n']) + t.subrange(cur, t.len() as int);
                        let p = offset_to_pos_spec(nt, cur + 1);
                        &&& final(self).text() == nt
                        &&& final(self).place() == (cur + 1, p.0, p.1, true)
                        &&& r matches EditorAction::Redraw(a, b) && a == p.0 && b == p.1
                    },
                    Some(KeyEvent::Char(ch)) => {
                        let nt = t.subrange(0, cur) + encode_utf8(seq![ch as char]) + t.subrange(cur, t.len() as int);
                        let p = offset_to_pos_spec(nt, cur + 1);
                        &&& final(self).text() == nt
                        &&& final(self).place() == (cur + 1, p.0, p.1, true)
                        &&& r matches EditorAction::Redraw(a, b) && a == p.0 && b == p.1
                    },
                    _ => r == EditorAction::Nothing && same,
                }
            }),
    {
        match ev {
            None => EditorAction::Idle,
            Some(KeyEvent::Escape) => EditorAction::Exit,
            Some(KeyEvent::Ctrl(k)) => if k == 's' || k == 'S' {
                let _ = crate::fs::ramfs::write(fs, path, self.buffer.as_str().as_bytes());
                self.dirty = false;
                EditorAction::Saved
            } else {
                EditorAction::Nothing
            },
            Some(KeyEvent::Up) => if self.row > 0 {
                self.row = self.row - 1;
                let n = line_len(self.buffer.as_str(), self.row);
                if n < self.col {
                    self.col = n;
                }
                EditorAction::Move(self.row, self.col)
            } else {
                EditorAction::Nothing
            },
            Some(KeyEvent::Down) => {
                let count = line_count(self.buffer.as_str());
                if self.row < count - 1 {
                    self.row = self.row + 1;
                    let n = line_len(self.buffer.as_str(), self.row);
                    if n < self.col {
                        self.col = n;
                    }
                    EditorAction::Move(self.row, self.col)
                } else {
                    EditorAction::Nothing
                }
            },
            Some(KeyEvent::Left) => if self.col > 0 {
                self.col = self.col - 1;
                EditorAction::Move(self.row, self.col)
            } else if self.row > 0 {
                self.row = self.row - 1;
                self.col = line_len(self.buffer.as_str(), self.row);
                EditorAction::Move(self.row, self.col)
            } else {
                EditorAction::Nothing
            },
            Some(KeyEvent::Right) => {
                let n = line_len(self.buffer.as_str(), self.row);
                if self.col < n {
                    self.col = self.col + 1;
                    EditorAction::Move(self.row, self.col)
                } else {
                    let count = line_count(self.buffer.as_str());
                    if self.row < count - 1 {
                        self.row = self.row + 1;
                        self.col = 0;
                        EditorAction::Move(self.row, self.col)
                    } else {
                        EditorAction::Nothing
                    }
                }
            },
            Some(KeyEvent::Backspace) => if self.cursor > 0 {
                string_remove(&mut self.buffer, self.cursor - 1);
                self.cursor = self.cursor - 1;
                self.dirty = true;
                let (r, c) = offset_to_pos(self.buffer.as_str(), self.cursor);
                self.row = r;
                self.col = c;
                EditorAction::Redraw(r, c)
            } else {
                EditorAction::Nothing
            },
            Some(KeyEvent::Enter) => self.insert_at_cursor('\n'),
            Some(KeyEvent::Char(c)) => self.insert_at_cursor(c as char),
            _ => EditorAction::Nothing,
        }
    }
}


/// The line starting at `i`: up to the line feed, without a carriage
/// return just before it.
pub open spec fn line_at(b: Seq<u8>, i: int) -> Seq<u8> {
    b.subrange(i, i + seg_len(b, i))
}

/// The lines from `i` on, as `str::lines` gives them.
pub open spec fn lines_from(b: Seq<u8>, i: int) -> Seq<Seq<u8>>
    decreases b.len() - i,
{
    let j = nl_from(b, i);
    if i < 0 || i >= b.len() {
        Seq::empty()
    } else if i <= j < b.len() {
        seq![line_at(b, i)] + lines_from(b, j + 1)
    } else {
        seq![line_at(b, i)]
    }
}

/// The lines of a buffer's bytes.
pub open spec fn buffer_lines(b: Seq<u8>) -> Seq<Seq<u8>> {
    lines_from(b, 0)
}

/// The lines of `s`.
fn lines_of(s: &str) -> (r: Vec<Vec<u8>>)
    ensures
        r@.len() == buffer_lines(encode_utf8(s@)).len(),
        forall|k: int| 0 <= k < r@.len() ==> r@[k]@ == buffer_lines(encode_utf8(s@))[k],
{
    let b = s.as_bytes();
    let n = b.len();
    let mut out: Vec<Vec<u8>> = Vec::new();
    let mut i: usize = 0;
    let ghost all = lines_from(b@, 0);
    while i < n
        invariant
            n == b@.len(),
            i <= n,
            b@ == encode_utf8(s@),
            all == lines_from(b@, 0),
            all == out@.map_values(|v: Vec<u8>| v@) + lines_from(b@, i as int),
        decreases n - i,
    {
        proof {
            lemma_nl_from(b@, i as int);
        }
        let mut j = i;
        while j < n && b[j] != 10
            invariant
                n == b@.len(),
                i <= j <= n,
                nl_from(b@, j as int) == nl_from(b@, i as int),
            decreases n - j,
        {
            j = j + 1;
        }
        let end = if j < n {
            if j > i && b[j - 1] == 13 { j - 1 } else { j }
        } else {
            n
        };
        let line = vstd::slice::slice_to_vec(vstd::slice::slice_subrange(b, i, end));
        let ghost before = out@.map_values(|v: Vec<u8>| v@);
        assert(line@ =~= line_at(b@, i as int));
        out.push(line);
        assert(out@.map_values(|v: Vec<u8>| v@) =~= before.push(line_at(b@, i as int)));
        if j < n {
            assert(lines_from(b@, i as int) == seq![line_at(b@, i as int)] + lines_from(b@, j + 1));
            assert(before + lines_from(b@, i as int) =~= before.push(line_at(b@, i as int)) + lines_from(b@, j + 1));
            i = j + 1;
        } else {
            assert(lines_from(b@, i as int) == seq![line_at(b@, i as int)]);
            assert(lines_from(b@, n as int) =~= Seq::<Seq<u8>>::empty());
            assert(before + lines_from(b@, i as int) =~= before.push(line_at(b@, i as int)) + lines_from(b@, n as int));
            i = n;
        }
    }
    assert(lines_from(b@, i as int) =~= Seq::<Seq<u8>>::empty());
    assert(all =~= out@.map_values(|v: Vec<u8>| v@));
    out
}

/// Rows 0 up to `n` blanked and the matching lines written from column 0.
pub open spec fn drawn_rows(cells: Seq<u8>, lines: Seq<Seq<u8>>, n: nat, color: u8) -> Seq<u8>
    decreases n,
{
    if n == 0 {
        cells
    } else {
        let r = n - 1;
        let blank = blank_row(drawn_rows(cells, lines, r as nat, color), r, color);
        if r < lines.len() { text_at(blank, r, 0, lines[r], color) } else { blank }
    }
}

/// The editor's status bar: `edit: <path> | Esc=exit Ctrl+S=save`, or
/// `editor` without a path.
pub open spec fn editor_status(path: Seq<char>) -> Seq<u8> {
    if path.len() == 0 {
        seq![101u8, 100, 105, 116, 111, 114]
    } else {
        seq![101u8, 100, 105, 116, 58, 32] + encode_utf8(path)
            + seq![32u8, 124, 32, 69, 115, 99, 61, 101, 120, 105, 116, 32, 67, 116, 114, 108, 43, 83, 61, 115, 97, 118, 101]
    }
}

/// The status after a save: `Saved <path>`.
pub open spec fn saved_status(path: Seq<char>) -> Seq<u8> {
    seq![83u8, 97, 118, 101, 100, 32] + encode_utf8(path)
}

/// The bytes of `saved_status`.
pub fn saved_message(path: &str) -> (r: Vec<u8>)
    ensures
        r@ == saved_status(path@),
{
    let mut out: Vec<u8> = vec![83u8, 97, 118, 101, 100, 32];
    push_slice(&mut out, path.as_bytes());
    assert(out@ =~= saved_status(path@));
    out
}

/// Shows the editor: the first 24 lines of the buffer on rows 0 to 23
/// (each row blanked first) and the status bar.
pub fn redraw(c: &mut Console, ed: &Editor, path: &str)
    requires
        old(c).wf(),
    ensures
        final(c).wf(),
        final(c).cells() == status_spec(
            drawn_rows(old(c).cells(), buffer_lines(ed.text()), CONTENT_ROWS as nat, old(c).color()),
            editor_status(path@)),
        same_cursor(*final(c), *old(c)),
        same_history(*final(c), *old(c)),
{
    let lines = lines_of(ed.buffer.as_str());
    let ghost c0 = *c;
    let mut r: usize = 0;
    while r < EDITOR_ROWS
        invariant
            r <= EDITOR_ROWS,
            EDITOR_ROWS == CONTENT_ROWS,
            c.wf(),
            c0.wf(),
            lines@.len() == buffer_lines(ed.text()).len(),
            forall|k: int| 0 <= k < lines@.len() ==> lines@[k]@ == buffer_lines(ed.text())[k],
            c.cells() == drawn_rows(c0.cells(), buffer_lines(ed.text()), r as nat, c0.color()),
            same_cursor(*c, c0),
            same_history(*c, c0),
            c.color() == c0.color(),
        decreases EDITOR_ROWS - r,
    {
        crate::vga::clear_line(c, r);
        if r < lines.len() {
            crate::vga::write_bytes_at(c, r, 0, lines[r].as_slice());
        }
        r = r + 1;
    }
    if path.as_bytes().len() == 0 {
        let t: Vec<u8> = vec![101u8, 100, 105, 116, 111, 114];
        proof {
            assert(path@.len() == 0) by {
                if path@.len() > 0 {
                    reveal_with_fuel(encode_utf8, 2);
                }
            }
            assert(t@ =~= editor_status(path@));
        }
        crate::vga::status_line_bytes(c, t.as_slice());
    } else {
        let mut t: Vec<u8> = vec![101u8, 100, 105, 116, 58, 32];
        push_slice(&mut t, path.as_bytes());
        let tail: [u8; 23] = [32, 124, 32, 69, 115, 99, 61, 101, 120, 105, 116, 32, 67, 116, 114, 108, 43, 83, 61, 115, 97, 118, 101];
        push_slice(&mut t, tail.as_slice());
        proof {
            assert(path@.len() > 0);
            assert(t@ =~= editor_status(path@));
        }
        crate::vga::status_line_bytes(c, t.as_slice());
    }
}


/// An ASCII character is encoded as its own byte.
pub proof fn lemma_ascii_encoding(c: u8)
    requires
        c < 0x80,
    ensures
        encode_utf8(seq![c as char]) == seq![c],
{
    let w: u32 = c as u32;
    assert((w & 0x7F) as u8 == c) by (bit_vector)
        requires
            w == c as u32,
            c < 0x80;
    assert(((c as char) as u32) == w);
    assert(vstd::utf8::encode_scalar(w) =~= seq![c]);
    reveal_with_fuel(encode_utf8, 2);
    assert(seq![c as char].drop_first() =~= Seq::<char>::empty());
    assert(encode_utf8(seq![c as char]) =~= seq![c]);
}

/// Typing an ASCII character and rubbing it out again leaves the text as it
/// was: the bytes after inserting `c` at a character boundary `cur`, with
/// the character at `cur` removed, are the bytes before.
pub proof fn type_then_erase(t: Seq<u8>, cur: int, c: u8)
    requires
        0 <= cur <= t.len(),
        c < 0x80,
    ensures
        without_char(t.subrange(0, cur) + encode_utf8(seq![c as char]) + t.subrange(cur, t.len() as int), cur) == t,
{
    let e = encode_utf8(seq![c as char]);
    lemma_ascii_encoding(c);
    let u = t.subrange(0, cur) + e + t.subrange(cur, t.len() as int);
    let rest = u.subrange(cur, u.len() as int);
    assert(rest[0] == c);
    assert(vstd::utf8::is_leading_byte_width_1(c)) by (bit_vector)
        requires
            c < 0x80;
    assert(length_of_first_scalar(rest) == 1);
    assert(without_char(u, cur) =~= t);
}


} // verus!
