//! Frame-buffer writer: an 80x25 grid of (character, color) cells with
//! line-oriented text output, automatic scrolling, and a full-grid replace
//! operation. The grid is modeled as a flat, row-major sequence of cells.

use vstd::prelude::*;
use vstd::string::StringSliceAdditionalSpecFns;

use crate::grid_index;
use crate::BUFFER_HEIGHT;
use crate::BUFFER_WIDTH;

verus! {

/// Total number of cells in the display grid.
pub const BUFFER_CELLS: usize = 2000;

/// The sixteen-value palette of the display.
#[derive(Debug, Copy, Clone, PartialEq, Eq, Structural)]
pub enum Color {
    Black,
    Blue,
    Green,
    Cyan,
    Red,
    Magenta,
    Brown,
    LightGray,
    DarkGray,
    LightBlue,
    LightGreen,
    LightCyan,
    LightRed,
    Pink,
    Yellow,
    White,
}

/// The palette number of a color.
pub open spec fn color_number(c: Color) -> u8 {
    match c {
        Color::Black => 0,
        Color::Blue => 1,
        Color::Green => 2,
        Color::Cyan => 3,
        Color::Red => 4,
        Color::Magenta => 5,
        Color::Brown => 6,
        Color::LightGray => 7,
        Color::DarkGray => 8,
        Color::LightBlue => 9,
        Color::LightGreen => 10,
        Color::LightCyan => 11,
        Color::LightRed => 12,
        Color::Pink => 13,
        Color::Yellow => 14,
        Color::White => 15,
    }
}

impl Color {
    /// The palette number of this color.
    pub fn as_u8(&self) -> (r: u8)
        ensures
            r == color_number(*self),
    {
        match self {
            Color::Black => 0,
            Color::Blue => 1,
            Color::Green => 2,
            Color::Cyan => 3,
            Color::Red => 4,
            Color::Magenta => 5,
            Color::Brown => 6,
            Color::LightGray => 7,
            Color::DarkGray => 8,
            Color::LightBlue => 9,
            Color::LightGreen => 10,
            Color::LightCyan => 11,
            Color::LightRed => 12,
            Color::Pink => 13,
            Color::Yellow => 14,
            Color::White => 15,
        }
    }
}

/// A packed color attribute: 4-bit background in the high nibble, 4-bit
/// foreground in the low nibble.
#[derive(Debug, Copy, Clone, PartialEq, Eq, Structural)]
pub struct ColorCode(pub u8);

/// The packed attribute byte for a foreground/background pair.
pub open spec fn color_code_of(foreground: Color, background: Color) -> u8 {
    (color_number(background) << 4) | color_number(foreground)
}

impl ColorCode {
    /// Packs a foreground and a background color into one attribute byte.
    pub fn new(foreground_color: Color, background_color: Color) -> (r: ColorCode)
        ensures
            r.0 == color_code_of(foreground_color, background_color),
    {
        ColorCode((background_color.as_u8() << 4) | foreground_color.as_u8())
    }
}

/// One cell of the display grid: a symbol byte and its color attribute.
#[derive(Debug, Copy, Clone, PartialEq, Eq, Structural)]
pub struct ScreenChar {
    pub ascii_character: u8,
    pub color_code: ColorCode,
}

/// A blank cell in the given color.
pub open spec fn blank_char(color: ColorCode) -> ScreenChar {
    ScreenChar { ascii_character: 32, color_code: color }
}

/// One full row of blank cells.
pub open spec fn blank_row(color: ColorCode) -> Seq<ScreenChar> {
    Seq::new(BUFFER_WIDTH as nat, |i: int| blank_char(color))
}

/// Mathematical state of the writer: the cursor column on the bottom row,
/// the current color attribute, and the grid as a flat, row-major sequence.
#[verifier::ext_equal]
pub ghost struct WriterModel {
    pub column: int,
    pub color: ColorCode,
    pub cells: Seq<ScreenChar>,
}

/// Well-formed writer state: a full grid and a cursor at or before the
/// right edge.
pub open spec fn wf_model(m: WriterModel) -> bool {
    &&& m.cells.len() == BUFFER_CELLS
    &&& 0 <= m.column <= BUFFER_WIDTH
}

/// The state after one scroll: every row moves up by one, the bottom row is
/// cleared to blanks in the current color, and the cursor returns to the
/// left edge.
pub open spec fn scrolled(m: WriterModel) -> WriterModel {
    WriterModel {
        column: 0,
        color: m.color,
        cells: m.cells.subrange(BUFFER_WIDTH as int, BUFFER_CELLS as int) + blank_row(m.color),
    }
}

/// The state after appending one byte: a newline scrolls; any other byte is
/// stored at the cursor on the bottom row (scrolling first if the cursor
/// has passed the right edge) and advances the cursor.
pub open spec fn after_byte(m: WriterModel, b: u8) -> WriterModel {
    if b == 10 {
        scrolled(m)
    } else {
        let m1 = if m.column >= BUFFER_WIDTH { scrolled(m) } else { m };
        WriterModel {
            column: m1.column + 1,
            color: m1.color,
            cells: m1.cells.update(
                grid_index((BUFFER_HEIGHT - 1) as int, m1.column),
                ScreenChar { ascii_character: b, color_code: m1.color },
            ),
        }
    }
}

/// The state after appending a sequence of bytes, one at a time.
pub open spec fn after_bytes(m: WriterModel, s: Seq<u8>) -> WriterModel
    decreases s.len(),
{
    if s.len() == 0 {
        m
    } else {
        after_bytes(after_byte(m, s[0]), s.drop_first())
    }
}

/// A newline or a printable byte passes through; anything else is replaced
/// by the replacement glyph 0xfe.
pub open spec fn sanitize_byte(b: u8) -> u8 {
    if b == 10 || (0x20 <= b && b <= 0x7e) {
        b
    } else {
        0xfe
    }
}

/// Byte-wise sanitization of a whole text.
pub open spec fn sanitized(s: Seq<u8>) -> Seq<u8> {
    s.map_values(|b: u8| sanitize_byte(b))
}

/// The state after a full-grid replace: every cell holds the image byte at
/// its row-major index, in the current color; the cursor does not move.
pub open spec fn full_screen_model(m: WriterModel, image: Seq<u8>) -> WriterModel {
    WriterModel {
        column: m.column,
        color: m.color,
        cells: Seq::new(
            BUFFER_CELLS as nat,
            |i: int| (ScreenChar { ascii_character: image[i], color_code: m.color }),
        ),
    }
}

/// The state after clearing the whole grid to blanks in the current color;
/// the cursor does not move.
pub open spec fn cleared(m: WriterModel) -> WriterModel {
    WriterModel {
        column: m.column,
        color: m.color,
        cells: Seq::new(BUFFER_CELLS as nat, |i: int| blank_char(m.color)),
    }
}

/// Clearing the grid is idempotent: a second clear changes nothing.
pub proof fn lemma_init_idempotent(m: WriterModel)
    ensures
        cleared(cleared(m)) == cleared(m),
{
    assert(cleared(cleared(m)) =~= cleared(m));
}

/// Owner of the display grid. Provides streaming text output on the bottom
/// row with automatic scrolling, and a full-grid replace.
pub struct Writer {
    column_position: usize,
    color_code: ColorCode,
    cells: Vec<ScreenChar>,
}

impl View for Writer {
    type V = WriterModel;

    closed spec fn view(&self) -> WriterModel {
        WriterModel {
            column: self.column_position as int,
            color: self.color_code,
            cells: self.cells@,
        }
    }
}

impl Writer {
    /// The writer's invariant.
    pub open spec fn wf(&self) -> bool {
        wf_model(self@)
    }

    /// A fresh writer: cursor at the left edge, light gray on black, and an
    /// all-blank grid.
    pub fn new() -> (w: Writer)
        ensures
            w.wf(),
            w@.column == 0,
            w@.color.0 == color_code_of(Color::LightGray, Color::Black),
            w@.cells == Seq::new(BUFFER_CELLS as nat, |i: int| blank_char(w@.color)),
    {
        let color_code = ColorCode::new(Color::LightGray, Color::Black);
        let blank = ScreenChar { ascii_character: 32, color_code };
        let cells = vec![blank; BUFFER_CELLS];
        let w = Writer { column_position: 0, color_code, cells };
        proof {
            assert(w@.cells =~= Seq::new(BUFFER_CELLS as nat, |i: int| blank_char(w@.color)));
        }
        w
    }

    /// Clears one row to blank cells in the current color.
    fn clear_row(&mut self, row_index: usize)
        requires
            old(self).wf(),
            row_index < BUFFER_HEIGHT,
        ensures
            final(self).wf(),
            final(self)@.column == old(self)@.column,
            final(self)@.color == old(self)@.color,
            final(self)@.cells.len() == old(self)@.cells.len(),
            forall|j: int|
                0 <= j < BUFFER_CELLS ==> final(self)@.cells[j] == (if grid_index(
                    row_index as int,
                    0,
                ) <= j < grid_index(row_index as int + 1, 0) {
                    blank_char(old(self)@.color)
                } else {
                    old(self)@.cells[j]
                }),
    {
        let blank = ScreenChar { ascii_character: 32, color_code: self.color_code };
        let base = row_index * BUFFER_WIDTH;
        let mut col: usize = 0;
        while col < BUFFER_WIDTH
            invariant
                old(self).wf(),
                row_index < BUFFER_HEIGHT,
                base == row_index * BUFFER_WIDTH,
                blank == blank_char(old(self)@.color),
                0 <= col <= BUFFER_WIDTH,
                self.wf(),
                self@.column == old(self)@.column,
                self@.color == old(self)@.color,
                self@.cells.len() == old(self)@.cells.len(),
                forall|j: int|
                    0 <= j < BUFFER_CELLS ==> self@.cells[j] == (if base <= j < base + col {
                        blank_char(old(self)@.color)
                    } else {
                        old(self)@.cells[j]
                    }),
            decreases BUFFER_WIDTH - col,
        {
            self.cells.set(base + col, blank);
            col = col + 1;
        }
    }

    /// Scrolls the grid: each row is copied one row up, the bottom row is
    /// cleared, and the cursor returns to the left edge.
    fn new_line(&mut self)
        requires
            old(self).wf(),
        ensures
            final(self).wf(),
            final(self)@ == scrolled(old(self)@),
    {
        let mut idx: usize = 0;
        while idx < BUFFER_CELLS - BUFFER_WIDTH
            invariant
                old(self).wf(),
                0 <= idx <= BUFFER_CELLS - BUFFER_WIDTH,
                self.wf(),
                self@.column == old(self)@.column,
                self@.color == old(self)@.color,
                forall|j: int|
                    0 <= j < idx ==> self@.cells[j] == old(self)@.cells[j + BUFFER_WIDTH],
                forall|j: int| idx <= j < BUFFER_CELLS ==> self@.cells[j] == old(self)@.cells[j],
            decreases BUFFER_CELLS - BUFFER_WIDTH - idx,
        {
            let moved = self.cells[idx + BUFFER_WIDTH];
            self.cells.set(idx, moved);
            idx = idx + 1;
        }
        self.clear_row(BUFFER_HEIGHT - 1);
        self.column_position = 0;
        proof {
            assert(self@.cells =~= scrolled(old(self)@).cells);
            assert(self@ =~= scrolled(old(self)@));
        }
    }

    /// Appends one byte of streaming output at the cursor on the bottom
    /// row; a newline, or a cursor past the right edge, scrolls first.
    pub fn write_byte(&mut self, byte: u8)
        requires
            old(self).wf(),
        ensures
            final(self).wf(),
            final(self)@ == after_byte(old(self)@, byte),
    {
        if byte == 10 {
            self.new_line();
        } else {
            if self.column_position >= BUFFER_WIDTH {
                self.new_line();
            }
            let col = self.column_position;
            let cell = ScreenChar { ascii_character: byte, color_code: self.color_code };
            self.cells.set((BUFFER_HEIGHT - 1) * BUFFER_WIDTH + col, cell);
            self.column_position = col + 1;
            proof {
                assert(self@ =~= after_byte(old(self)@, byte));
            }
        }
    }

    /// Appends a whole text: each byte is sanitized and then written as by
    /// `write_byte`.
    pub fn write_string(&mut self, s: &str)
        requires
            old(self).wf(),
        ensures
            final(self).wf(),
            final(self)@ == after_bytes(old(self)@, sanitized(s.spec_bytes())),
    {
        let bytes = s.as_bytes();
        let n = bytes.len();
        let mut i: usize = 0;
        while i < n
            invariant
                old(self).wf(),
                bytes@ == s.spec_bytes(),
                n == bytes@.len(),
                0 <= i <= n,
                self.wf(),
                self@ == after_bytes(old(self)@, sanitized(bytes@).take(i as int)),
            decreases n - i,
        {
            let b = bytes[i];
            let out = if b == 10 || (0x20 <= b && b <= 0x7e) {
                b
            } else {
                0xfe
            };
            proof {
                lemma_after_bytes_push(
                    old(self)@,
                    sanitized(bytes@).take(i as int),
                    sanitize_byte(bytes@[i as int]),
                );
                assert(sanitized(bytes@).take(i + 1) =~= sanitized(bytes@).take(i as int).push(
                    sanitize_byte(bytes@[i as int]),
                ));
            }
            self.write_byte(out);
            i = i + 1;
        }
        proof {
            assert(sanitized(bytes@).take(n as int) =~= sanitized(s.spec_bytes()));
        }
    }

    /// Replaces every cell of the grid, in row-major order, with the given
    /// symbol bytes in the current color. Bypasses the cursor entirely.
    pub fn write_full_screen(&mut self, image: &Vec<u8>)
        requires
            old(self).wf(),
            image@.len() == BUFFER_CELLS,
        ensures
            final(self).wf(),
            final(self)@ == full_screen_model(old(self)@, image@),
    {
        let mut idx: usize = 0;
        while idx < BUFFER_CELLS
            invariant
                old(self).wf(),
                image@.len() == BUFFER_CELLS,
                0 <= idx <= BUFFER_CELLS,
                self.wf(),
                self@.column == old(self)@.column,
                self@.color == old(self)@.color,
                forall|j: int|
                    0 <= j < idx ==> self@.cells[j] == (ScreenChar {
                        ascii_character: image@[j],
                        color_code: old(self)@.color,
                    }),
                forall|j: int| idx <= j < BUFFER_CELLS ==> self@.cells[j] == old(self)@.cells[j],
            decreases BUFFER_CELLS - idx,
        {
            let cell = ScreenChar { ascii_character: image[idx], color_code: self.color_code };
            self.cells.set(idx, cell);
            idx = idx + 1;
        }
        proof {
            assert(self@.cells =~= full_screen_model(old(self)@, image@).cells);
            assert(self@ =~= full_screen_model(old(self)@, image@));
        }
    }

    /// Clears every row to blank cells in the current color; idempotent.
    pub fn init(&mut self)
        requires
            old(self).wf(),
        ensures
            final(self).wf(),
            final(self)@ == cleared(old(self)@),
    {
        let mut row_index: usize = 0;
        while row_index < BUFFER_HEIGHT
            invariant
                old(self).wf(),
                0 <= row_index <= BUFFER_HEIGHT,
                self.wf(),
                self@.column == old(self)@.column,
                self@.color == old(self)@.color,
                forall|j: int|
                    0 <= j < row_index * BUFFER_WIDTH ==> self@.cells[j] == blank_char(
                        old(self)@.color,
                    ),
                forall|j: int|
                    row_index * BUFFER_WIDTH <= j < BUFFER_CELLS ==> self@.cells[j] == old(
                        self,
                    )@.cells[j],
            decreases BUFFER_HEIGHT - row_index,
        {
            self.clear_row(row_index);
            row_index = row_index + 1;
        }
        proof {
            assert(self@.cells =~= cleared(old(self)@).cells);
            assert(self@ =~= cleared(old(self)@));
        }
    }

    /// The symbol byte stored at one cell of the grid.
    pub fn char_at(&self, row: usize, col: usize) -> (r: u8)
        requires
            self.wf(),
            row < BUFFER_HEIGHT,
            col < BUFFER_WIDTH,
        ensures
            r == self@.cells[grid_index(row as int, col as int)].ascii_character,
    {
        self.cells[row * BUFFER_WIDTH + col].ascii_character
    }

    /// The cursor column on the bottom row.
    pub fn column(&self) -> (r: usize)
        ensures
            r == self@.column,
    {
        self.column_position
    }
}

/// Appending one more byte after a text is the same as appending the text
/// extended by that byte.
pub proof fn lemma_after_bytes_push(m: WriterModel, t: Seq<u8>, b: u8)
    ensures
        after_bytes(m, t.push(b)) == after_byte(after_bytes(m, t), b),
    decreases t.len(),
{
    if t.len() == 0 {
        assert(t.push(b)[0] == b);
        assert(t.push(b).drop_first() =~= Seq::<u8>::empty());
        assert(after_bytes(after_byte(m, b), t.push(b).drop_first()) == after_byte(m, b));
        assert(after_bytes(m, t.push(b)) == after_bytes(after_byte(m, b), t.push(b).drop_first()));
    } else {
        assert(t.push(b)[0] == t[0]);
        assert(t.push(b).drop_first() =~= t.drop_first().push(b));
        lemma_after_bytes_push(after_byte(m, t[0]), t.drop_first(), b);
        assert(after_bytes(m, t.push(b)) == after_bytes(
            after_byte(m, t[0]),
            t.drop_first().push(b),
        ));
    }
}

/// Whether every byte of a text lies in the printable range.
pub open spec fn all_printable(s: Seq<u8>) -> bool {
    forall|i: int| 0 <= i < s.len() ==> 0x20 <= #[trigger] s[i] <= 0x7e
}

/// The cursor column after a count of printable bytes written from a fresh
/// line: it wraps back to one after each multiple of the grid width.
pub open spec fn col_after(j: int) -> int {
    if j == 0 {
        0
    } else {
        (j - 1) % (BUFFER_WIDTH as int) + 1
    }
}

/// Where the most recently started line begins within a printable text:
/// everything before it has scrolled away.
pub open spec fn line_start(j: int) -> int {
    j - col_after(j)
}

/// How the cursor column advances with one more printable byte.
proof fn lemma_col_step(j: int)
    requires
        0 <= j,
    ensures
        col_after(j + 1) == (if col_after(j) == BUFFER_WIDTH {
            1int
        } else {
            col_after(j) + 1
        }),
{
    if j > 0 {
        vstd::arithmetic::div_mod::lemma_fundamental_div_mod(j - 1, BUFFER_WIDTH as int);
        let q = (j - 1) / (BUFFER_WIDTH as int);
        let r = (j - 1) % (BUFFER_WIDTH as int);
        if r == BUFFER_WIDTH - 1 {
            vstd::arithmetic::div_mod::lemma_fundamental_div_mod_converse(
                j,
                BUFFER_WIDTH as int,
                q + 1,
                0,
            );
        } else {
            vstd::arithmetic::div_mod::lemma_fundamental_div_mod_converse(
                j,
                BUFFER_WIDTH as int,
                q,
                r + 1,
            );
        }
    }
}

/// The scroll invariant of the streaming text path. After a newline and
/// then any printable text, the bottom row holds exactly the most recently
/// started line — the text after its last wrap at the grid width — padded
/// with blanks to the right, and the cursor stands just after it; earlier
/// content has scrolled upward.
pub proof fn lemma_bottom_row_holds_line(m: WriterModel, s: Seq<u8>)
    requires
        wf_model(m),
        all_printable(s),
    ensures
        ({
            let m1 = after_bytes(after_byte(m, 10), s);
            let k = col_after(s.len() as int);
            &&& wf_model(m1)
            &&& m1.color == m.color
            &&& m1.column == k
            &&& forall|c: int|
                0 <= c < k ==> m1.cells[#[trigger] grid_index((BUFFER_HEIGHT - 1) as int, c)]
                    == (ScreenChar {
                    ascii_character: s[line_start(s.len() as int) + c],
                    color_code: m.color,
                })
            &&& forall|c: int|
                k <= c < BUFFER_WIDTH ==> m1.cells[#[trigger] grid_index(
                    (BUFFER_HEIGHT - 1) as int,
                    c,
                )] == blank_char(m.color)
        }),
    decreases s.len(),
{
    if s.len() == 0 {
        let m1 = after_bytes(after_byte(m, 10), s);
        assert(m1 == scrolled(m));
        assert forall|c: int| 0 <= c < BUFFER_WIDTH implies m1.cells[#[trigger] grid_index(
            (BUFFER_HEIGHT - 1) as int,
            c,
        )] == blank_char(m.color) by {
            assert(m1.cells[grid_index((BUFFER_HEIGHT - 1) as int, c)] == blank_row(m.color)[c]);
        }
    } else {
        let t = s.drop_last();
        let b = s.last();
        let j = t.len() as int;
        assert(all_printable(t));
        lemma_bottom_row_holds_line(m, t);
        lemma_after_bytes_push(after_byte(m, 10), t, b);
        assert(t.push(b) =~= s);
        lemma_col_step(j);
        let mt = after_bytes(after_byte(m, 10), t);
        let m1 = after_byte(mt, b);
        let k = col_after(j);
        if k == BUFFER_WIDTH {
            assert(m1.cells == scrolled(mt).cells.update(
                grid_index((BUFFER_HEIGHT - 1) as int, 0),
                ScreenChar { ascii_character: b, color_code: m.color },
            ));
            assert forall|c: int| 1 <= c < BUFFER_WIDTH implies m1.cells[#[trigger] grid_index(
                (BUFFER_HEIGHT - 1) as int,
                c,
            )] == blank_char(m.color) by {
                assert(scrolled(mt).cells[grid_index((BUFFER_HEIGHT - 1) as int, c)] == blank_row(
                    m.color,
                )[c]);
            }
            assert(line_start(s.len() as int) == j);
        } else {
            assert(line_start(s.len() as int) == line_start(j));
        }
    }
}

/// Sanitization leaves the length and every printable or newline byte
/// unchanged, and replaces every other byte with the replacement glyph.
pub proof fn lemma_sanitization(s: Seq<u8>)
    ensures
        sanitized(s).len() == s.len(),
        forall|i: int|
            0 <= i < s.len() ==> sanitized(s)[i] == (if s[i] == 10 || (0x20 <= s[i] <= 0x7e) {
                s[i]
            } else {
                0xfe
            }),
{
}

/// Appending a concatenation is appending the first part, then the second.
pub proof fn lemma_after_bytes_concat(m: WriterModel, a: Seq<u8>, b: Seq<u8>)
    ensures
        after_bytes(m, a + b) == after_bytes(after_bytes(m, a), b),
    decreases b.len(),
{
    if b.len() == 0 {
        assert(a + b =~= a);
    } else {
        lemma_after_bytes_concat(m, a, b.drop_last());
        lemma_after_bytes_push(m, a + b.drop_last(), b.last());
        lemma_after_bytes_push(after_bytes(m, a), b.drop_last(), b.last());
        assert((a + b.drop_last()).push(b.last()) =~= a + b);
        assert(b.drop_last().push(b.last()) =~= b);
    }
}

} // verus!
