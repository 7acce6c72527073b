//! The 80x25 text console: 24 rows of scrolling output and a status bar on
//! the last row, kept as the bytes of the text buffer (character and
//! attribute per cell), with a 500-line scrollback history.

use vstd::prelude::*;
use crate::text::{dec_spec, push_decimal};

verus! {

pub const WIDTH: usize = 80;
pub const HEIGHT: usize = 25;
/// Rows of output; the last row is the status bar.
pub const CONTENT_ROWS: usize = 24;
pub const SCROLLBACK_LINES: usize = 500;
/// Bytes of one row: character and attribute for each cell.
pub const LINE_BYTES: usize = 160;
pub const SCREEN_BYTES: usize = 4000;

/// The sixteen text-mode colours.
#[derive(Clone, Copy, Debug, PartialEq, Eq, Structural)]
pub enum Color {
    Black,
    Blue,
    Green,
    Cyan,
    Red,
    Magenta,
    Brown,
    LightGray,
    DarkGray,
    LightBlue,
    LightGreen,
    LightCyan,
    LightRed,
    Pink,
    Yellow,
    White,
}

impl Color {
    pub open spec fn value_spec(self) -> u8 {
        match self {
            Color::Black => 0,
            Color::Blue => 1,
            Color::Green => 2,
            Color::Cyan => 3,
            Color::Red => 4,
            Color::Magenta => 5,
            Color::Brown => 6,
            Color::LightGray => 7,
            Color::DarkGray => 8,
            Color::LightBlue => 9,
            Color::LightGreen => 10,
            Color::LightCyan => 11,
            Color::LightRed => 12,
            Color::Pink => 13,
            Color::Yellow => 14,
            Color::White => 15,
        }
    }

    /// The colour's number in the attribute byte.
    pub fn value(self) -> (r: u8)
        ensures
            r == self.value_spec(),
    {
        match self {
            Color::Black => 0,
            Color::Blue => 1,
            Color::Green => 2,
            Color::Cyan => 3,
            Color::Red => 4,
            Color::Magenta => 5,
            Color::Brown => 6,
            Color::LightGray => 7,
            Color::DarkGray => 8,
            Color::LightBlue => 9,
            Color::LightGreen => 10,
            Color::LightCyan => 11,
            Color::LightRed => 12,
            Color::Pink => 13,
            Color::Yellow => 14,
            Color::White => 15,
        }
    }
}

/// The attribute byte for a foreground and a background: background in the
/// high nibble.
pub open spec fn color_code_spec(fg: Color, bg: Color) -> u8 {
    (bg.value_spec() * 16 + fg.value_spec()) as u8
}

/// The attribute byte for a foreground and a background colour.
pub fn color_code(fg: Color, bg: Color) -> (r: u8)
    ensures
        r == color_code_spec(fg, bg),
{
    let f = fg.value();
    let b = bg.value();
    assert((b << 4u8) | f == b * 16 + f) by (bit_vector)
        requires
            b < 16,
            f < 16,
    ;
    (b << 4u8) | f
}

/// Light grey on black.
pub open spec fn default_color() -> u8 {
    0x07
}

/// Black on light grey, the status bar's colours.
pub open spec fn status_color() -> u8 {
    0x70
}

/// Offset of the character byte of cell (row, col).
pub open spec fn cell_off(row: int, col: int) -> int {
    (row * WIDTH + col) * 2
}

/// The buffer with cell (row, col) set to `byte` in attribute `color`.
pub open spec fn put_cell(cells: Seq<u8>, row: int, col: int, byte: u8, color: u8) -> Seq<u8> {
    cells.update(cell_off(row, col), byte).update(cell_off(row, col) + 1, color)
}

/// The buffer with row `row` filled with blanks in attribute `color`.
pub open spec fn blank_row(cells: Seq<u8>, row: int, color: u8) -> Seq<u8> {
    Seq::new(
        cells.len(),
        |i: int| if row * LINE_BYTES <= i < (row + 1) * LINE_BYTES {
            if i % 2 == 0 { 32u8 } else { color }
        } else {
            cells[i]
        },
    )
}

/// The buffer with rows 1 to 23 moved up one row and row 23 blank in light
/// grey on black; the status bar is left alone.
pub open spec fn scrolled(cells: Seq<u8>) -> Seq<u8> {
    Seq::new(
        cells.len(),
        |i: int| if i < (CONTENT_ROWS - 1) * LINE_BYTES {
            cells[i + LINE_BYTES]
        } else if i < CONTENT_ROWS * LINE_BYTES {
            if i % 2 == 0 { 32u8 } else { default_color() }
        } else {
            cells[i]
        },
    )
}

/// The row with `text` at columns `col..` (cut at the right edge), in
/// attribute `color`.
pub open spec fn text_at(cells: Seq<u8>, row: int, col: int, text: Seq<u8>, color: u8) -> Seq<u8> {
    Seq::new(
        cells.len(),
        |i: int| if row * LINE_BYTES <= i < (row + 1) * LINE_BYTES && col <= (i - row * LINE_BYTES) / 2 < col + text.len() {
            if i % 2 == 0 { text[(i - row * LINE_BYTES) / 2 - col] } else { color }
        } else {
            cells[i]
        },
    )
}

/// The cursor and colour of the console.
pub struct Writer {
    row: usize,
    col: usize,
    color: u8,
}

impl Writer {
    pub closed spec fn row(&self) -> int {
        self.row as int
    }

    pub closed spec fn col(&self) -> int {
        self.col as int
    }

    pub closed spec fn color(&self) -> u8 {
        self.color
    }

    /// Sets the colour for what is written next.
    pub fn set_color(&mut self, fg: Color, bg: Color)
        ensures
            final(self).color() == color_code_spec(fg, bg),
            final(self).row() == old(self).row(),
            final(self).col() == old(self).col(),
    {
        self.color = color_code(fg, bg);
    }
}

/// The last 500 lines that scrolled off the top, and how far back the view
/// is scrolled.
pub struct ScrollbackBuffer {
    lines: Vec<u8>,
    current_line: usize,
    scroll_offset: usize,
}

/// Which history line shows on visible row `row`, if any: nothing before
/// a screenful of history exists.
pub open spec fn history_index(current: int, offset: int, row: int) -> Option<int> {
    if current < CONTENT_ROWS {
        None
    } else {
        let base = if current - CONTENT_ROWS >= offset { current - CONTENT_ROWS - offset } else { 0 };
        if base + row >= current { None } else { Some(base + row) }
    }
}

/// The console: the text buffer, the writer and the scrollback history.
pub struct Console {
    cells: Vec<u8>,
    writer: Writer,
    sb: ScrollbackBuffer,
}

impl Console {
    pub closed spec fn wf(&self) -> bool {
        &&& self.cells@.len() == SCREEN_BYTES
        &&& self.writer.row < CONTENT_ROWS
        &&& self.writer.col <= WIDTH
        &&& self.sb.lines@.len() == SCROLLBACK_LINES * LINE_BYTES
    }

    /// The text buffer: character and attribute of each cell, row by row.
    pub closed spec fn cells(&self) -> Seq<u8> {
        self.cells@
    }

    pub closed spec fn row(&self) -> int {
        self.writer.row as int
    }

    pub closed spec fn col(&self) -> int {
        self.writer.col as int
    }

    pub closed spec fn color(&self) -> u8 {
        self.writer.color
    }

    /// Lines added to the history so far.
    pub closed spec fn history_count(&self) -> int {
        self.sb.current_line as int
    }

    /// How many lines back the view is scrolled.
    pub closed spec fn scroll_offset(&self) -> int {
        self.sb.scroll_offset as int
    }

    /// The history's storage: slot `k` holds bytes `k * 160 .. k * 160 + 160`.
    pub closed spec fn history(&self) -> Seq<u8> {
        self.sb.lines@
    }

    /// A blank buffer, cursor at the top left, light grey on black, no
    /// history.
    pub fn new() -> (r: Self)
        ensures
            r.wf(),
            r.cells() == Seq::new(SCREEN_BYTES as nat, |i: int| 0u8),
            r.row() == 0,
            r.col() == 0,
            r.color() == default_color(),
            r.history_count() == 0,
            r.scroll_offset() == 0,
    {
        let mut cells: Vec<u8> = Vec::new();
        let mut i: usize = 0;
        while i < SCREEN_BYTES
            invariant
                i <= SCREEN_BYTES,
                cells@ == Seq::new(i as nat, |k: int| 0u8),
            decreases SCREEN_BYTES - i,
        {
            cells.push(0);
            i = i + 1;
            assert(cells@ =~= Seq::new(i as nat, |k: int| 0u8));
        }
        let mut lines: Vec<u8> = Vec::new();
        let mut j: usize = 0;
        while j < SCROLLBACK_LINES * LINE_BYTES
            invariant
                j <= SCROLLBACK_LINES * LINE_BYTES,
                lines@.len() == j,
            decreases SCROLLBACK_LINES * LINE_BYTES - j,
        {
            lines.push(0);
            j = j + 1;
        }
        Console {
            cells,
            writer: Writer { row: 0, col: 0, color: 0x07 },
            sb: ScrollbackBuffer { lines, current_line: 0, scroll_offset: 0 },
        }
    }

    /// Lines recorded in the scrollback so far.
    pub fn lines_logged(&self) -> (r: usize)
        ensures
            r == self.history_count(),
    {
        self.sb.current_line
    }

    /// How far the display is scrolled back.
    pub fn scrolled_by(&self) -> (r: usize)
        ensures
            r == self.scroll_offset(),
    {
        self.sb.scroll_offset
    }

    /// The text buffer, for copying to the screen.
    pub fn screen(&self) -> (r: &[u8])
        ensures
            r@ == self.cells(),
    {
        self.cells.as_slice()
    }

    fn put(&mut self, row: usize, col: usize, byte: u8, color: u8)
        requires
            old(self).wf(),
            row < HEIGHT,
            col < WIDTH,
        ensures
            final(self).wf(),
            final(self).cells() == put_cell(old(self).cells(), row as int, col as int, byte, color),
            final(self).writer == old(self).writer,
            final(self).sb == old(self).sb,
    {
        let off = (row * WIDTH + col) * 2;
        self.cells.set(off, byte);
        self.cells.set(off + 1, color);
    }

    fn fill_row(&mut self, row: usize, color: u8)
        requires
            old(self).wf(),
            row < HEIGHT,
        ensures
            final(self).wf(),
            final(self).cells() == blank_row(old(self).cells(), row as int, color),
            final(self).writer == old(self).writer,
            final(self).sb == old(self).sb,
    {
        let ghost c0 = self.cells@;
        let mut k: usize = 0;
        while k < WIDTH
            invariant
                self.wf(),
                row < HEIGHT,
                k <= WIDTH,
                self.writer == old(self).writer,
                self.sb == old(self).sb,
                c0 == old(self).cells(),
                self.cells@.len() == c0.len(),
                forall|i: int| 0 <= i < c0.len() ==> #[trigger] self.cells@[i] == if row * LINE_BYTES <= i < row * LINE_BYTES + 2 * k {
                    if i % 2 == 0 { 32u8 } else { color }
                } else {
                    c0[i]
                },
            decreases WIDTH - k,
        {
            self.put(row, k, 32, color);
            k = k + 1;
        }
        assert(self.cells@ =~= blank_row(c0, row as int, color));
    }
}


/// The text buffer and cursor while output is written, with the last row
/// that scrolled off the top, if any.
pub struct Screen {
    pub cells: Seq<u8>,
    pub row: int,
    pub col: int,
    pub scrolled_out: Option<Seq<u8>>,
}

/// Moving to the start of the next row, scrolling at the bottom.
pub open spec fn newline_spec(s: Screen) -> Screen {
    if s.row + 1 >= CONTENT_ROWS {
        Screen { cells: scrolled(s.cells), row: s.row, col: 0, scrolled_out: Some(s.cells.subrange(0, LINE_BYTES as int)) }
    } else {
        Screen { row: s.row + 1, col: 0, ..s }
    }
}

/// What is shown for a byte: ASCII except DEL as it is, anything else as
/// `?`.
pub open spec fn shown(b: u8) -> u8 {
    if b < 128 && b != 127 { b } else { 63 }
}

/// Writing one byte: line feed, carriage return, tab to the next multiple
/// of eight, or a character (wrapping at the right edge).
pub open spec fn put_byte_spec(s: Screen, color: u8, b: u8) -> Screen {
    if b == 10 {
        newline_spec(s)
    } else if b == 13 {
        Screen { col: 0, ..s }
    } else if b == 9 {
        let c = (s.col + 8) / 8 * 8;
        if c >= WIDTH { newline_spec(Screen { col: c, ..s }) } else { Screen { col: c, ..s } }
    } else {
        let s1 = if s.col >= WIDTH { newline_spec(s) } else { s };
        Screen { cells: put_cell(s1.cells, s1.row, s1.col, shown(b), color), col: s1.col + 1, ..s1 }
    }
}

/// Writing bytes one after another.
pub open spec fn put_bytes_spec(s: Screen, color: u8, bytes: Seq<u8>) -> Screen
    decreases bytes.len(),
{
    if bytes.len() == 0 {
        s
    } else {
        put_byte_spec(put_bytes_spec(s, color, bytes.drop_last()), color, bytes.last())
    }
}

/// The history after `line` is added: it goes in the next slot (the oldest
/// is overwritten), and the view returns to the live screen.
pub open spec fn add_line_spec(lines: Seq<u8>, current: int, line: Seq<u8>) -> Seq<u8> {
    Seq::new(
        lines.len(),
        |i: int| if (current % SCROLLBACK_LINES as int) * LINE_BYTES <= i < (current % SCROLLBACK_LINES as int) * LINE_BYTES + LINE_BYTES {
            line[i - (current % SCROLLBACK_LINES as int) * LINE_BYTES]
        } else {
            lines[i]
        },
    )
}

impl Console {
    fn newline(&mut self, out: &mut Option<Vec<u8>>)
        requires
            old(self).wf(),
        ensures
            final(self).wf(),
            final(self).color() == old(self).color(),
            final(self).sb == old(self).sb,
            ({
                let n = newline_spec(Screen { cells: old(self).cells(), row: old(self).row(), col: old(self).col(), scrolled_out: None });
                &&& final(self).cells() == n.cells
                &&& final(self).row() == n.row
                &&& final(self).col() == n.col
                &&& match n.scrolled_out {
                    Some(l) => *final(out) matches Some(v) && v@ == l,
                    None => *final(out) == *old(out),
                }
            }),
    {
        self.writer.col = 0;
        if self.writer.row + 1 >= CONTENT_ROWS {
            self.scroll(out);
        } else {
            self.writer.row = self.writer.row + 1;
        }
    }

    fn scroll(&mut self, out: &mut Option<Vec<u8>>)
        requires
            old(self).wf(),
        ensures
            final(self).wf(),
            final(self).cells() == scrolled(old(self).cells()),
            final(self).writer == old(self).writer,
            final(self).sb == old(self).sb,
            *final(out) matches Some(v) && v@ == old(self).cells().subrange(0, LINE_BYTES as int),
    {
        let mut top: Vec<u8> = Vec::new();
        let mut k: usize = 0;
        while k < LINE_BYTES
            invariant
                self.wf(),
                k <= LINE_BYTES,
                self.cells@ == old(self).cells(),
                top@ == old(self).cells().subrange(0, k as int),
            decreases LINE_BYTES - k,
        {
            top.push(self.cells[k]);
            k = k + 1;
            assert(top@ =~= old(self).cells().subrange(0, k as int));
        }
        *out = Some(top);
        let ghost c0 = self.cells@;
        let mut i: usize = 0;
        while i < (CONTENT_ROWS - 1) * LINE_BYTES
            invariant
                self.wf(),
                self.writer == old(self).writer,
                self.sb == old(self).sb,
                c0 == old(self).cells(),
                i <= (CONTENT_ROWS - 1) * LINE_BYTES,
                forall|j: int| 0 <= j < i ==> #[trigger] self.cells@[j] == c0[j + LINE_BYTES],
                forall|j: int| i <= j < SCREEN_BYTES ==> #[trigger] self.cells@[j] == c0[j],
            decreases (CONTENT_ROWS - 1) * LINE_BYTES - i,
        {
            let v = self.cells[i + LINE_BYTES];
            self.cells.set(i, v);
            i = i + 1;
        }
        self.fill_row(CONTENT_ROWS - 1, 0x07);
        assert(self.cells@ =~= scrolled(c0));
    }

    fn write_byte(&mut self, b: u8, out: &mut Option<Vec<u8>>)
        requires
            old(self).wf(),
        ensures
            final(self).wf(),
            final(self).color() == old(self).color(),
            final(self).sb == old(self).sb,
            ({
                let n = put_byte_spec(Screen { cells: old(self).cells(), row: old(self).row(), col: old(self).col(), scrolled_out: None },
                    old(self).color(), b);
                &&& final(self).cells() == n.cells
                &&& final(self).row() == n.row
                &&& final(self).col() == n.col
                &&& match n.scrolled_out {
                    Some(l) => *final(out) matches Some(v) && v@ == l,
                    None => *final(out) == *old(out),
                }
            }),
    {
        if b == 10 {
            self.newline(out);
        } else if b == 13 {
            self.writer.col = 0;
        } else if b == 9 {
            let c0 = self.writer.col;
            let c1: usize = c0 + 8;
            let c = c1 & !7usize;
            assert(c == c1 / 8 * 8) by (bit_vector)
                requires
                    c == c1 & !7usize,
                    c1 <= 88,
            ;
            if c >= WIDTH {
                self.newline(out);
            } else {
                self.writer.col = c;
            }
        } else {
            let shown_b = if b < 128 && b != 127 { b } else { 63 };
            if self.writer.col >= WIDTH {
                self.newline(out);
            }
            let row = self.writer.row;
            let col = self.writer.col;
            let color = self.writer.color;
            self.put(row, col, shown_b, color);
            self.writer.col = col + 1;
        }
    }
}


/// The history and the view into it are unchanged.
pub open spec fn same_history(a: Console, b: Console) -> bool {
    &&& a.history() == b.history()
    &&& a.history_count() == b.history_count()
    &&& a.scroll_offset() == b.scroll_offset()
}

/// Cursor and colour are unchanged.
pub open spec fn same_cursor(a: Console, b: Console) -> bool {
    &&& a.row() == b.row()
    &&& a.col() == b.col()
    &&& a.color() == b.color()
}

impl Console {
    /// Adds a line that scrolled off to the history.
    fn commit(&mut self, out: Option<Vec<u8>>)
        requires
            old(self).wf(),
            old(self).history_count() < usize::MAX,
            out matches Some(v) ==> v@.len() == LINE_BYTES,
        ensures
            final(self).wf(),
            final(self).cells() == old(self).cells(),
            final(self).writer == old(self).writer,
            match out {
                Some(v) => final(self).history() == add_line_spec(old(self).history(), old(self).history_count(), v@)
                    && final(self).history_count() == old(self).history_count() + 1
                    && final(self).scroll_offset() == 0,
                None => final(self).sb == old(self).sb,
            },
    {
        match out {
            None => {},
            Some(line) => {
                let base = (self.sb.current_line % SCROLLBACK_LINES) * LINE_BYTES;
                let ghost l0 = self.sb.lines@;
                let mut k: usize = 0;
                while k < LINE_BYTES
                    invariant
                        self.wf(),
                        self.cells@ == old(self).cells(),
                        self.writer == old(self).writer,
                        self.sb.current_line == old(self).sb.current_line,
                        base == (self.sb.current_line % SCROLLBACK_LINES) * LINE_BYTES,
                        line@.len() == LINE_BYTES,
                        l0 == old(self).history(),
                        l0.len() == SCROLLBACK_LINES * LINE_BYTES,
                        k <= LINE_BYTES,
                        forall|j: int| 0 <= j < l0.len() ==> #[trigger] self.sb.lines@[j]
                            == if base <= j < base + k { line@[j - base] } else { l0[j] },
                    decreases LINE_BYTES - k,
                {
                    self.sb.lines.set(base + k, line[k]);
                    k = k + 1;
                }
                assert(self.sb.lines@ =~= add_line_spec(l0, old(self).history_count(), line@));
                self.sb.current_line = self.sb.current_line + 1;
                self.sb.scroll_offset = 0;
            },
        }
    }
}

/// Writes text: each byte as `put_byte_spec` says; the last row to scroll
/// off, if any, goes into the history.
pub fn write_fmt(c: &mut Console, s: &str)
    requires
        old(c).wf(),
        old(c).history_count() < usize::MAX,
    ensures
        final(c).wf(),
        final(c).color() == old(c).color(),
        ({
            let n = put_bytes_spec(Screen { cells: old(c).cells(), row: old(c).row(), col: old(c).col(), scrolled_out: None },
                old(c).color(), vstd::utf8::encode_utf8(s@));
            &&& final(c).cells() == n.cells
            &&& final(c).row() == n.row
            &&& final(c).col() == n.col
            &&& match n.scrolled_out {
                Some(l) => final(c).history() == add_line_spec(old(c).history(), old(c).history_count(), l)
                    && final(c).history_count() == old(c).history_count() + 1
                    && final(c).scroll_offset() == 0,
                None => final(c).history() == old(c).history() && final(c).history_count() == old(c).history_count()
                    && final(c).scroll_offset() == old(c).scroll_offset(),
            }
        }),
{
    let b = s.as_bytes();
    let ghost init = Screen { cells: c.cells@, row: c.writer.row as int, col: c.writer.col as int, scrolled_out: None };
    let ghost color = c.writer.color;
    let mut out: Option<Vec<u8>> = None;
    let mut k: usize = 0;
    while k < b.len()
        invariant
            c.wf(),
            k <= b@.len(),
            b@ == vstd::utf8::encode_utf8(s@),
            c.writer.color == color,
            color == old(c).color(),
            c.sb == old(c).sb,
            init == (Screen { cells: old(c).cells(), row: old(c).row(), col: old(c).col(), scrolled_out: None }),
            ({
                let st = put_bytes_spec(init, color, b@.subrange(0, k as int));
                &&& c.cells@ == st.cells
                &&& c.writer.row == st.row
                &&& c.writer.col == st.col
                &&& match st.scrolled_out {
                    Some(l) => out matches Some(v) && v@ == l,
                    None => out is None,
                }
            }),
            out matches Some(v) ==> v@.len() == LINE_BYTES,
        decreases b@.len() - k,
    {
        assert(b@.subrange(0, (k + 1) as int).drop_last() =~= b@.subrange(0, k as int));
        c.write_byte(b[k], &mut out);
        k = k + 1;
    }
    assert(b@.subrange(0, k as int) =~= b@);
    c.commit(out);
}

/// Blanks the 24 output rows in the current colour and puts the cursor at
/// the top left; the status bar stays.
pub fn clear_screen(c: &mut Console)
    requires
        old(c).wf(),
    ensures
        final(c).wf(),
        final(c).cells() == Seq::new(SCREEN_BYTES as nat, |i: int| if i < CONTENT_ROWS * LINE_BYTES {
            if i % 2 == 0 { 32u8 } else { old(c).color() }
        } else {
            old(c).cells()[i]
        }),
        final(c).row() == 0,
        final(c).col() == 0,
        final(c).color() == old(c).color(),
        same_history(*final(c), *old(c)),
{
    let color = c.writer.color;
    let ghost c0 = c.cells@;
    let mut r: usize = 0;
    while r < CONTENT_ROWS
        invariant
            c.wf(),
            r <= CONTENT_ROWS,
            c.writer == old(c).writer,
            c.sb == old(c).sb,
            color == old(c).color(),
            c0 == old(c).cells(),
            forall|i: int| 0 <= i < SCREEN_BYTES ==> #[trigger] c.cells@[i] == if i < r * LINE_BYTES {
                if i % 2 == 0 { 32u8 } else { color }
            } else {
                c0[i]
            },
        decreases CONTENT_ROWS - r,
    {
        c.fill_row(r, color);
        r = r + 1;
    }
    c.writer.row = 0;
    c.writer.col = 0;
    assert(c.cells@ =~= Seq::new(SCREEN_BYTES as nat, |i: int| if i < CONTENT_ROWS * LINE_BYTES {
        if i % 2 == 0 { 32u8 } else { old(c).color() }
    } else {
        old(c).cells()[i]
    }));
}

/// Starts the console: the output rows cleared (the card's start address
/// and cursor are reset by the caller).
pub fn init(c: &mut Console)
    requires
        old(c).wf(),
    ensures
        final(c).wf(),
        final(c).cells() == Seq::new(SCREEN_BYTES as nat, |i: int| if i < CONTENT_ROWS * LINE_BYTES {
            if i % 2 == 0 { 32u8 } else { old(c).color() }
        } else {
            old(c).cells()[i]
        }),
        final(c).row() == 0,
        final(c).col() == 0,
        final(c).color() == old(c).color(),
        same_history(*final(c), *old(c)),
{
    clear_screen(c);
}

/// Sets the colour for what is written next.
pub fn set_color(c: &mut Console, fg: Color, bg: Color)
    requires
        old(c).wf(),
    ensures
        final(c).wf(),
        final(c).color() == color_code_spec(fg, bg),
        final(c).cells() == old(c).cells(),
        final(c).row() == old(c).row(),
        final(c).col() == old(c).col(),
        same_history(*final(c), *old(c)),
{
    c.writer.set_color(fg, bg);
}

/// Moves the cursor, kept within the 24 output rows and 80 columns.
pub fn set_cursor(c: &mut Console, row: usize, col: usize)
    requires
        old(c).wf(),
    ensures
        final(c).wf(),
        final(c).row() == if row < CONTENT_ROWS - 1 { row as int } else { CONTENT_ROWS - 1 },
        final(c).col() == if col < WIDTH - 1 { col as int } else { WIDTH - 1 },
        final(c).cells() == old(c).cells(),
        final(c).color() == old(c).color(),
        same_history(*final(c), *old(c)),
{
    c.writer.row = if row < CONTENT_ROWS - 1 { row } else { CONTENT_ROWS - 1 };
    c.writer.col = if col < WIDTH - 1 { col } else { WIDTH - 1 };
}

/// Row and column of the cursor.
pub fn cursor_position(c: &Console) -> (r: (usize, usize))
    ensures
        r.0 == c.row(),
        r.1 == c.col(),
{
    (c.writer.row, c.writer.col)
}

/// Puts `s` at (row, col) in the current colour without moving the cursor;
/// the row is at most 23 and what passes the right edge is cut.
pub fn write_at(c: &mut Console, row: usize, col: usize, s: &str)
    requires
        old(c).wf(),
    ensures
        final(c).wf(),
        final(c).cells() == text_at(old(c).cells(), if row < CONTENT_ROWS - 1 { row as int } else { CONTENT_ROWS - 1 },
            col as int, vstd::utf8::encode_utf8(s@), old(c).color()),
        same_cursor(*final(c), *old(c)),
        same_history(*final(c), *old(c)),
{
    write_bytes_at(c, row, col, s.as_bytes());
}

/// Puts the bytes `b` at (row, col) as `write_at` does.
pub fn write_bytes_at(c: &mut Console, row: usize, col: usize, b: &[u8])
    requires
        old(c).wf(),
    ensures
        final(c).wf(),
        final(c).cells() == text_at(old(c).cells(), if row < CONTENT_ROWS - 1 { row as int } else { CONTENT_ROWS - 1 },
            col as int, b@, old(c).color()),
        same_cursor(*final(c), *old(c)),
        same_history(*final(c), *old(c)),
{
    let row = if row < CONTENT_ROWS - 1 { row } else { CONTENT_ROWS - 1 };
    let color = c.writer.color;
    let ghost c0 = c.cells@;
    let mut i: usize = 0;
    while i < b.len()
        invariant
            c.wf(),
            row < CONTENT_ROWS,
            i <= b@.len(),
            c.writer == old(c).writer,
            c.sb == old(c).sb,
            color == old(c).color(),
            c0 == old(c).cells(),
            forall|j: int| 0 <= j < SCREEN_BYTES ==> #[trigger] c.cells@[j]
                == if row * LINE_BYTES <= j < (row + 1) * LINE_BYTES && col <= (j - row * LINE_BYTES) / 2 < col + i {
                    if j % 2 == 0 { b@[(j - row * LINE_BYTES) / 2 - col] } else { color }
                } else {
                    c0[j]
                },
        decreases b@.len() - i,
    {
        if col < WIDTH && i < WIDTH - col {
            c.put(row, col + i, b[i], color);
        }
        i = i + 1;
    }
    assert(c.cells@ =~= text_at(c0, row as int, col as int, b@, color));
}

/// Blanks a row (at most 23) in the current colour.
pub fn clear_line(c: &mut Console, row: usize)
    requires
        old(c).wf(),
    ensures
        final(c).wf(),
        final(c).cells() == blank_row(old(c).cells(), if row < CONTENT_ROWS - 1 { row as int } else { CONTENT_ROWS - 1 }, old(c).color()),
        same_cursor(*final(c), *old(c)),
        same_history(*final(c), *old(c)),
{
    let row = if row < CONTENT_ROWS - 1 { row } else { CONTENT_ROWS - 1 };
    let color = c.writer.color;
    c.fill_row(row, color);
}

/// Moves the cursor back one cell and blanks it, to the end of the row above
/// from the start of a row; nothing at the top left.
pub fn backspace(c: &mut Console)
    requires
        old(c).wf(),
    ensures
        final(c).wf(),
        old(c).col() > 0 ==> final(c).row() == old(c).row() && final(c).col() == old(c).col() - 1
            && final(c).cells() == put_cell(old(c).cells(), old(c).row(), old(c).col() - 1, 32, old(c).color()),
        old(c).col() == 0 && old(c).row() > 0 ==> final(c).row() == old(c).row() - 1 && final(c).col() == WIDTH - 1
            && final(c).cells() == put_cell(old(c).cells(), old(c).row() - 1, WIDTH - 1, 32, old(c).color()),
        old(c).col() == 0 && old(c).row() == 0 ==> final(c).cells() == old(c).cells() && final(c).row() == 0 && final(c).col() == 0,
        final(c).color() == old(c).color(),
        same_history(*final(c), *old(c)),
{
    let color = c.writer.color;
    if c.writer.col > 0 {
        c.writer.col = c.writer.col - 1;
        let (r, k) = (c.writer.row, c.writer.col);
        c.put(r, k, 32, color);
    } else if c.writer.row > 0 {
        c.writer.row = c.writer.row - 1;
        c.writer.col = WIDTH - 1;
        let (r, k) = (c.writer.row, c.writer.col);
        c.put(r, k, 32, color);
    }
}

/// The status bar showing `text` (cut at 80 columns) in black on light
/// grey.
pub open spec fn status_spec(cells: Seq<u8>, text: Seq<u8>) -> Seq<u8> {
    text_at(blank_row(cells, CONTENT_ROWS as int, status_color()), CONTENT_ROWS as int, 0, text, status_color())
}

impl Console {
    fn status_bytes(&mut self, text: &[u8])
        requires
            old(self).wf(),
        ensures
            final(self).wf(),
            final(self).cells() == status_spec(old(self).cells(), text@),
            final(self).writer == old(self).writer,
            final(self).sb == old(self).sb,
    {
        self.fill_row(CONTENT_ROWS, 0x70);
        let ghost c0 = self.cells@;
        let mut i: usize = 0;
        while i < text.len()
            invariant
                self.wf(),
                i <= text@.len(),
                self.writer == old(self).writer,
                self.sb == old(self).sb,
                c0 == blank_row(old(self).cells(), CONTENT_ROWS as int, status_color()),
                forall|j: int| 0 <= j < SCREEN_BYTES ==> #[trigger] self.cells@[j]
                    == if CONTENT_ROWS * LINE_BYTES <= j < (CONTENT_ROWS + 1) * LINE_BYTES && (j - CONTENT_ROWS * LINE_BYTES) / 2 < i {
                        if j % 2 == 0 { text@[(j - CONTENT_ROWS * LINE_BYTES) / 2] } else { status_color() }
                    } else {
                        c0[j]
                    },
            decreases text@.len() - i,
        {
            if i < WIDTH {
                self.put(CONTENT_ROWS, i, text[i], 0x70);
            }
            i = i + 1;
        }
        assert(self.cells@ =~= status_spec(old(self).cells(), text@));
    }
}

/// Shows `text` in the status bar; cursor and colour stay.
pub fn status_line(c: &mut Console, text: &str)
    requires
        old(c).wf(),
    ensures
        final(c).wf(),
        final(c).cells() == status_spec(old(c).cells(), vstd::utf8::encode_utf8(text@)),
        same_cursor(*final(c), *old(c)),
        same_history(*final(c), *old(c)),
{
    c.status_bytes(text.as_bytes());
}

/// Shows the bytes `text` in the status bar; cursor and colour stay.
pub fn status_line_bytes(c: &mut Console, text: &[u8])
    requires
        old(c).wf(),
    ensures
        final(c).wf(),
        final(c).cells() == status_spec(old(c).cells(), text@),
        same_cursor(*final(c), *old(c)),
        same_history(*final(c), *old(c)),
{
    c.status_bytes(text);
}

/// The text buffer with each output row that has a history line to show
/// replaced by that line.
pub open spec fn redrawn(cells: Seq<u8>, lines: Seq<u8>, current: int, offset: int) -> Seq<u8> {
    Seq::new(
        cells.len(),
        |i: int| if i < CONTENT_ROWS * LINE_BYTES && history_index(current, offset, i / LINE_BYTES as int) is Some {
            lines[(history_index(current, offset, i / LINE_BYTES as int)->0 % SCROLLBACK_LINES as int) * LINE_BYTES + i % LINE_BYTES as int]
        } else {
            cells[i]
        },
    )
}

/// The status bar text while the view is scrolled back `n` lines.
pub open spec fn banner(n: nat) -> Seq<u8> {
    seq![32u8, 32u8, 83u8, 67u8, 82u8, 79u8, 76u8, 76u8, 66u8, 65u8, 67u8, 75u8, 58u8, 32u8, 45u8] + dec_spec(n) + seq![32u8, 108u8, 105u8, 110u8, 101u8, 115u8, 32u8, 40u8, 115u8, 99u8, 114u8, 111u8, 108u8, 108u8, 32u8, 100u8, 111u8, 119u8, 110u8, 32u8, 116u8, 111u8, 32u8, 114u8, 101u8, 116u8, 117u8, 114u8, 110u8, 41u8]
}

impl Console {
    /// Shows the history at the current scroll offset (nothing while the
    /// view is live) and puts the cursor at the top left.
    fn redraw_from_scrollback(&mut self)
        requires
            old(self).wf(),
        ensures
            final(self).wf(),
            final(self).sb == old(self).sb,
            final(self).color() == old(self).color(),
            old(self).scroll_offset() == 0 ==> final(self).cells() == old(self).cells()
                && final(self).row() == old(self).row() && final(self).col() == old(self).col(),
            old(self).scroll_offset() > 0 ==> final(self).cells() == redrawn(old(self).cells(), old(self).history(),
                old(self).history_count(), old(self).scroll_offset()) && final(self).row() == 0 && final(self).col() == 0,
    {
        if self.sb.scroll_offset == 0 {
            return;
        }
        let cur = self.sb.current_line;
        let off = self.sb.scroll_offset;
        let ghost c0 = self.cells@;
        let mut row: usize = 0;
        while row < CONTENT_ROWS
            invariant
                self.wf(),
                row <= CONTENT_ROWS,
                self.writer == old(self).writer,
                self.sb == old(self).sb,
                cur == self.sb.current_line,
                off == self.sb.scroll_offset,
                c0 == old(self).cells(),
                forall|j: int| 0 <= j < SCREEN_BYTES ==> #[trigger] self.cells@[j]
                    == if j < row * LINE_BYTES && history_index(cur as int, off as int, j / LINE_BYTES as int) is Some {
                        self.sb.lines@[(history_index(cur as int, off as int, j / LINE_BYTES as int)->0 % SCROLLBACK_LINES as int) * LINE_BYTES + j % LINE_BYTES as int]
                    } else {
                        c0[j]
                    },
            decreases CONTENT_ROWS - row,
        {
            if cur >= CONTENT_ROWS {
                let base = if cur - CONTENT_ROWS >= off { cur - CONTENT_ROWS - off } else { 0 };
                if base + row < cur {
                    let slot = ((base + row) % SCROLLBACK_LINES) * LINE_BYTES;
                    let mut k: usize = 0;
                    while k < LINE_BYTES
                        invariant
                            self.wf(),
                            row < CONTENT_ROWS,
                            k <= LINE_BYTES,
                            self.writer == old(self).writer,
                            self.sb == old(self).sb,
                            cur == self.sb.current_line,
                            off == self.sb.scroll_offset,
                            c0 == old(self).cells(),
                            history_index(cur as int, off as int, row as int) == Some((base + row) as int),
                            slot == (((base + row) as int) % (SCROLLBACK_LINES as int)) * LINE_BYTES,
                            forall|j: int| 0 <= j < SCREEN_BYTES ==> #[trigger] self.cells@[j]
                                == if (j < row * LINE_BYTES || (row * LINE_BYTES <= j < row * LINE_BYTES + k))
                                    && history_index(cur as int, off as int, j / LINE_BYTES as int) is Some {
                                    self.sb.lines@[(history_index(cur as int, off as int, j / LINE_BYTES as int)->0 % SCROLLBACK_LINES as int) * LINE_BYTES + j % LINE_BYTES as int]
                                } else {
                                    c0[j]
                                },
                        decreases LINE_BYTES - k,
                    {
                        let v = self.sb.lines[slot + k];
                        let at = row * LINE_BYTES + k;
                        self.cells.set(at, v);
                        proof {
                            assert((at as int) / (LINE_BYTES as int) == row);
                            assert((at as int) % (LINE_BYTES as int) == k);
                        }
                        k = k + 1;
                    }
                }
            }
            row = row + 1;
        }
        self.writer.row = 0;
        self.writer.col = 0;
        assert(self.cells@ =~= redrawn(c0, self.sb.lines@, cur as int, off as int));
    }
}

/// Scrolls the view back `lines` lines (no further than a full screen
/// below the oldest line the 500-line history still holds), redraws it and
/// shows how far back it is.
pub fn scroll_display_up(c: &mut Console, lines: usize)
    requires
        old(c).wf(),
        old(c).scroll_offset() + lines <= usize::MAX,
    ensures
        final(c).wf(),
        final(c).history() == old(c).history(),
        final(c).history_count() == old(c).history_count(),
        final(c).scroll_offset() == ({
            let kept = if old(c).history_count() < SCROLLBACK_LINES { old(c).history_count() } else { SCROLLBACK_LINES as int };
            let m = if kept >= CONTENT_ROWS { kept - CONTENT_ROWS } else { 0 };
            if old(c).scroll_offset() + lines < m { old(c).scroll_offset() + lines } else { m }
        }),
        final(c).color() == old(c).color(),
        final(c).scroll_offset() == 0 ==> final(c).cells() == old(c).cells() && final(c).row() == old(c).row()
            && final(c).col() == old(c).col(),
        final(c).scroll_offset() > 0 ==> final(c).cells() == status_spec(
            redrawn(old(c).cells(), old(c).history(), old(c).history_count(), final(c).scroll_offset()),
            banner(final(c).scroll_offset() as nat)) && final(c).row() == 0 && final(c).col() == 0,
{
    let kept = if c.sb.current_line < SCROLLBACK_LINES { c.sb.current_line } else { SCROLLBACK_LINES };
    let max_scroll = kept.saturating_sub(CONTENT_ROWS);
    let want = c.sb.scroll_offset + lines;
    c.sb.scroll_offset = if want < max_scroll { want } else { max_scroll };
    let offset = c.sb.scroll_offset;
    c.redraw_from_scrollback();
    if offset > 0 {
        let text = banner_bytes(offset);
        c.status_bytes(text.as_slice());
    }
}

/// Scrolls the view forward `lines` lines; back at the live screen the
/// status bar is cleared, otherwise the view is redrawn with the banner.
pub fn scroll_display_down(c: &mut Console, lines: usize)
    requires
        old(c).wf(),
    ensures
        final(c).wf(),
        final(c).history() == old(c).history(),
        final(c).history_count() == old(c).history_count(),
        final(c).scroll_offset() == if old(c).scroll_offset() >= lines { old(c).scroll_offset() - lines } else { 0 },
        final(c).color() == old(c).color(),
        final(c).scroll_offset() == 0 ==> final(c).cells() == status_spec(old(c).cells(), Seq::empty())
            && final(c).row() == old(c).row() && final(c).col() == old(c).col(),
        final(c).scroll_offset() > 0 ==> final(c).cells() == status_spec(
            redrawn(old(c).cells(), old(c).history(), old(c).history_count(), final(c).scroll_offset()),
            banner(final(c).scroll_offset() as nat)) && final(c).row() == 0 && final(c).col() == 0,
{
    c.sb.scroll_offset = c.sb.scroll_offset.saturating_sub(lines);
    let offset = c.sb.scroll_offset;
    if offset == 0 {
        let empty: Vec<u8> = Vec::new();
        c.status_bytes(empty.as_slice());
    } else {
        c.redraw_from_scrollback();
        let text = banner_bytes(offset);
        c.status_bytes(text.as_slice());
    }
}

/// The banner text for `n` lines back.
fn banner_bytes(n: usize) -> (r: Vec<u8>)
    ensures
        r@ == banner(n as nat),
{
    let mut t: Vec<u8> = vec![32u8, 32u8, 83u8, 67u8, 82u8, 79u8, 76u8, 76u8, 66u8, 65u8, 67u8, 75u8, 58u8, 32u8, 45u8];
    push_decimal(&mut t, n as u64);
    let tail: Vec<u8> = vec![32u8, 108u8, 105u8, 110u8, 101u8, 115u8, 32u8, 40u8, 115u8, 99u8, 114u8, 111u8, 108u8, 108u8, 32u8, 100u8, 111u8, 119u8, 110u8, 32u8, 116u8, 111u8, 32u8, 114u8, 101u8, 116u8, 117u8, 114u8, 110u8, 41u8];
    let mut k: usize = 0;
    let ghost mid = t@;
    while k < tail.len()
        invariant
            k <= tail@.len(),
            tail@ == seq![32u8, 108u8, 105u8, 110u8, 101u8, 115u8, 32u8, 40u8, 115u8, 99u8, 114u8, 111u8, 108u8, 108u8, 32u8, 100u8, 111u8, 119u8, 110u8, 32u8, 116u8, 111u8, 32u8, 114u8, 101u8, 116u8, 117u8, 114u8, 110u8, 41u8],
            t@ == mid + tail@.subrange(0, k as int),
        decreases tail@.len() - k,
    {
        t.push(tail[k]);
        k = k + 1;
        assert(t@ =~= mid + tail@.subrange(0, k as int));
    }
    assert(tail@.subrange(0, k as int) =~= tail@);
    t
}

/// The history storage after the lines `added` are recorded one by one,
/// the first of them as line number `start`.
pub open spec fn replay_lines(lines: Seq<u8>, start: int, added: Seq<Seq<u8>>) -> Seq<u8>
    decreases added.len(),
{
    if added.len() == 0 {
        lines
    } else {
        add_line_spec(replay_lines(lines, start, added.drop_last()), start + added.len() - 1, added.last())
    }
}

/// The history slot that holds line number `k`.
pub open spec fn slot_of(lines: Seq<u8>, k: int) -> Seq<u8> {
    lines.subrange((k % SCROLLBACK_LINES as int) * LINE_BYTES, (k % SCROLLBACK_LINES as int) * LINE_BYTES + LINE_BYTES)
}

/// The history keeps the newest 500 lines: after any run of additions,
/// each of the last 500 lines added (and none older than the run) is in its
/// slot, as it was added.
pub proof fn history_keeps_newest(lines: Seq<u8>, start: int, added: Seq<Seq<u8>>, k: int)
    requires
        lines.len() == SCROLLBACK_LINES * LINE_BYTES,
        start >= 0,
        forall|i: int| 0 <= i < added.len() ==> (#[trigger] added[i]).len() == LINE_BYTES,
        start <= k < start + added.len(),
        start + added.len() - SCROLLBACK_LINES <= k,
    ensures
        slot_of(replay_lines(lines, start, added), k) == added[k - start],
        replay_lines(lines, start, added).len() == lines.len(),
    decreases added.len(),
{
    let m: int = SCROLLBACK_LINES as int;
    let n = start + added.len() - 1;
    let prev = added.drop_last();
    lemma_replay_len(lines, start, prev);
    let before = replay_lines(lines, start, prev);
    let after = replay_lines(lines, start, added);
    assert(after == add_line_spec(before, n, added.last()));
    let b = (n % m) * LINE_BYTES;
    let bk = (k % m) * LINE_BYTES;
    assert(0 <= n % m < SCROLLBACK_LINES);
    assert(0 <= k % m < SCROLLBACK_LINES);
    if k == n {
        assert(slot_of(after, k) =~= added[k - start]);
    } else {
        assert(k % m != n % m) by {
            vstd::arithmetic::div_mod::lemma_fundamental_div_mod(k, m);
            vstd::arithmetic::div_mod::lemma_fundamental_div_mod(n, m);
            if k % m == n % m {
                assert((n - k) == m * (n / m - k / m)) by (nonlinear_arith)
                    requires
                        k == m * (k / m) + k % m,
                        n == m * (n / m) + n % m,
                        k % m == n % m;
                let d = n / m - k / m;
                assert(0 < n - k < m);
                if d <= 0 {
                    assert(m * d <= 0) by (nonlinear_arith) requires d <= 0, m == 500;
                } else {
                    assert(m * d >= m) by (nonlinear_arith) requires d >= 1, m == 500;
                }
            }
        }
        assert(prev[k - start] == added[k - start]);
        assert forall|i: int| 0 <= i < prev.len() implies (#[trigger] prev[i]).len() == LINE_BYTES by {
            assert(prev[i] == added[i]);
        }
        history_keeps_newest(lines, start, prev, k);
        assert(bk + LINE_BYTES <= b || b + LINE_BYTES <= bk);
        assert(slot_of(after, k) =~= slot_of(before, k));
    }
}

/// Scrolling back never shows a line the history no longer holds: with the
/// offset within the cap `scroll_display_up` keeps, every visible row shows
/// one of the newest 500 lines added (or nothing).
pub proof fn scrolled_rows_are_kept(current: int, offset: int, row: int)
    requires
        0 <= offset,
        0 <= row < CONTENT_ROWS,
        offset <= (if current < SCROLLBACK_LINES { current } else { SCROLLBACK_LINES as int }) - CONTENT_ROWS || offset == 0,
    ensures
        history_index(current, offset, row) matches Some(k) ==> current - SCROLLBACK_LINES <= k < current && 0 <= k,
{
}

proof fn lemma_replay_len(lines: Seq<u8>, start: int, added: Seq<Seq<u8>>)
    ensures
        replay_lines(lines, start, added).len() == lines.len(),
    decreases added.len(),
{
    if added.len() > 0 {
        lemma_replay_len(lines, start, added.drop_last());
    }
}
} // verus!
