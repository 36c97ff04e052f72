//! Text console: a line-buffered writer over a fixed character grid.
//!
//! The kernel renders status lines into a width-by-height grid of
//! characters, each carrying a foreground/background colour pair. Writing
//! advances a cursor, a newline or a full line moves to the next row, and
//! writing past the bottom row scrolls the whole grid up by one line. The
//! running kernel keeps the grid in video memory and mirrors every cell
//! write there; this module owns the grid as plain data.

use vstd::prelude::*;

verus! {

/// The byte that ends a line instead of being rendered.
pub const NEWLINE_BYTE: u8 = 10;

/// The byte rendered into cleared cells.
pub const BLANK_BYTE: u8 = 32;

/// The sixteen colours of the text mode palette.
#[derive(Debug, Clone, Copy, PartialEq, Eq, Structural)]
pub enum Color {
    Black,
    Blue,
    Green,
    Cyan,
    Red,
    Magenta,
    Brown,
    LightGray,
    DarkGray,
    LightBlue,
    LightGreen,
    LightCyan,
    LightRed,
    Pink,
    Yellow,
    White,
}

/// The palette number of a colour, 0 through 15.
pub open spec fn color_number(c: Color) -> u8 {
    match c {
        Color::Black => 0,
        Color::Blue => 1,
        Color::Green => 2,
        Color::Cyan => 3,
        Color::Red => 4,
        Color::Magenta => 5,
        Color::Brown => 6,
        Color::LightGray => 7,
        Color::DarkGray => 8,
        Color::LightBlue => 9,
        Color::LightGreen => 10,
        Color::LightCyan => 11,
        Color::LightRed => 12,
        Color::Pink => 13,
        Color::Yellow => 14,
        Color::White => 15,
    }
}

impl Color {
    /// Returns the palette number of this colour.
    pub fn number(self) -> (n: u8)
        ensures
            n == color_number(self),
    {
        match self {
            Color::Black => 0,
            Color::Blue => 1,
            Color::Green => 2,
            Color::Cyan => 3,
            Color::Red => 4,
            Color::Magenta => 5,
            Color::Brown => 6,
            Color::LightGray => 7,
            Color::DarkGray => 8,
            Color::LightBlue => 9,
            Color::LightGreen => 10,
            Color::LightCyan => 11,
            Color::LightRed => 12,
            Color::Pink => 13,
            Color::Yellow => 14,
            Color::White => 15,
        }
    }
}

/// A foreground/background colour pair packed as the display expects it:
/// the background in the high four bits, the foreground in the low four.
#[derive(Debug, Clone, Copy, PartialEq, Eq, Structural)]
pub struct ColorCode(u8);

impl ColorCode {
    /// The packed byte value.
    pub closed spec fn spec_value(self) -> u8 {
        self.0
    }

    /// The colour pair `foreground` on `background`, as a packed value.
    pub closed spec fn spec_from_colors(foreground: Color, background: Color) -> ColorCode {
        ColorCode((color_number(background) * 16 + color_number(foreground)) as u8)
    }

    /// Returns the packed byte value.
    pub fn value(&self) -> (v: u8)
        ensures
            v == self.spec_value(),
    {
        self.0
    }

    /// Packs a foreground and a background colour into one code.
    pub fn new(foreground: Color, background: Color) -> (c: ColorCode)
        ensures
            c == ColorCode::spec_from_colors(foreground, background),
            c.spec_value() == color_number(background) * 16 + color_number(foreground),
    {
        let fg: u8 = foreground.number();
        let bg: u8 = background.number();
        proof {
            assert(((bg << 4) | fg) == bg * 16 + fg) by (bit_vector)
                requires
                    fg < 16 && bg < 16,
            ;
        }
        ColorCode((bg << 4) | fg)
    }
}

/// One cell of the grid: a byte to render and its colour pair.
#[derive(Debug, Clone, Copy, PartialEq, Eq, Structural)]
pub struct Character {
    pub ascii_character: u8,
    pub color_code: ColorCode,
}

/// The cell a cleared position holds under colour `color`.
pub open spec fn blank_character(color: ColorCode) -> Character {
    Character { ascii_character: BLANK_BYTE, color_code: color }
}

/// The mathematical state of the console: the grid as one row-major
/// sequence, the cursor, the dimensions and the current colour.
#[verifier::ext_equal]
pub ghost struct ConsoleState {
    pub grid: Seq<Character>,
    pub row: int,
    pub col: int,
    pub width: int,
    pub height: int,
    pub color: ColorCode,
}

impl ConsoleState {
    /// The cell at row `r`, column `c`.
    pub open spec fn cell(self, r: int, c: int) -> Character {
        self.grid[r * self.width + c]
    }

    /// The console invariant: positive dimensions, a grid of exactly
    /// height-times-width cells, and a cursor inside them.
    pub open spec fn wf(self) -> bool {
        &&& 1 <= self.width
        &&& 1 <= self.height
        &&& self.grid.len() == self.height * self.width
        &&& 0 <= self.row < self.height
        &&& 0 <= self.col < self.width
    }
}

/// One full row of blank cells.
pub open spec fn blank_row(width: int, color: ColorCode) -> Seq<Character> {
    Seq::new(width as nat, |i: int| blank_character(color))
}

/// Scrolling: every row moves up by one — the top row falls off, which in
/// row-major order is dropping one row's worth of cells from the front —
/// and the bottom row comes back blank in the current colour.
pub open spec fn state_scroll(s: ConsoleState) -> ConsoleState {
    ConsoleState { grid: s.grid.skip(s.width) + blank_row(s.width, s.color), ..s }
}

/// Ending a line: the cursor returns to column zero and moves down a row,
/// scrolling instead when it already sits on the bottom row.
pub open spec fn state_new_line(s: ConsoleState) -> ConsoleState {
    if s.row + 1 < s.height {
        ConsoleState { row: s.row + 1, col: 0, ..s }
    } else {
        ConsoleState { col: 0, ..state_scroll(s) }
    }
}

/// Clearing: every cell becomes blank in the current colour; the cursor
/// stays where it is.
pub open spec fn state_cleared(s: ConsoleState) -> ConsoleState {
    ConsoleState { grid: Seq::new(s.grid.len(), |i: int| blank_character(s.color)), ..s }
}

/// Writing one byte: a newline ends the line; any other byte lands at the
/// cursor in the current colour and advances it, ending the line when the
/// row fills up.
pub open spec fn state_write_byte(s: ConsoleState, byte: u8) -> ConsoleState {
    if byte == NEWLINE_BYTE {
        state_new_line(s)
    } else {
        let written = ConsoleState {
            grid: s.grid.update(
                s.row * s.width + s.col,
                Character { ascii_character: byte, color_code: s.color },
            ),
            ..s
        };
        if s.col + 1 == s.width {
            state_new_line(written)
        } else {
            ConsoleState { col: s.col + 1, ..written }
        }
    }
}

/// Writing a sequence of bytes, first byte first.
pub open spec fn state_write_bytes(s: ConsoleState, bytes: Seq<u8>) -> ConsoleState
    decreases bytes.len(),
{
    if bytes.len() == 0 {
        s
    } else {
        state_write_bytes(state_write_byte(s, bytes[0]), bytes.skip(1))
    }
}

/// Law: every console operation preserves the console invariant.
pub proof fn lemma_console_ops_preserve_wf(s: ConsoleState, byte: u8)
    requires
        s.wf(),
    ensures
        state_write_byte(s, byte).wf(),
        state_new_line(s).wf(),
        state_scroll(s).wf(),
        state_cleared(s).wf(),
{
    let w = s.width;
    let h = s.height;
    let r0 = s.row;
    let c0 = s.col;
    assert(w <= h * w) by (nonlinear_arith)
        requires
            1 <= h && 0 <= w,
    ;
    assert(r0 * w + c0 < h * w) by (nonlinear_arith)
        requires
            0 <= r0 && r0 < h && 0 <= c0 && c0 < w,
    ;
    assert(state_scroll(s).grid.len() == s.height * s.width);
}

/// Law: writing a whole byte sequence preserves the console invariant.
pub proof fn lemma_state_write_bytes_wf(s: ConsoleState, bytes: Seq<u8>)
    requires
        s.wf(),
    ensures
        state_write_bytes(s, bytes).wf(),
    decreases bytes.len(),
{
    if bytes.len() > 0 {
        lemma_console_ops_preserve_wf(s, bytes[0]);
        lemma_state_write_bytes_wf(state_write_byte(s, bytes[0]), bytes.skip(1));
    }
}

/// The console writer: the grid it renders into, its cursor, and the
/// colour it writes with.
pub struct Writer {
    column: usize,
    row: usize,
    width: usize,
    height: usize,
    color_code: ColorCode,
    cells: Vec<Character>,
}

impl View for Writer {
    type V = ConsoleState;

    closed spec fn view(&self) -> ConsoleState {
        ConsoleState {
            grid: self.cells@,
            row: self.row as int,
            col: self.column as int,
            width: self.width as int,
            height: self.height as int,
            color: self.color_code,
        }
    }
}

impl Writer {
    /// A writer over a fresh grid of the given dimensions, cleared in the
    /// given colour, with the cursor at the top left.
    pub fn new(width: usize, height: usize, color_code: ColorCode) -> (w: Writer)
        requires
            1 <= width,
            1 <= height,
            width * height <= usize::MAX,
        ensures
            w@.wf(),
            w@.width == width,
            w@.height == height,
            w@.row == 0,
            w@.col == 0,
            w@.color == color_code,
            w@.grid == Seq::new((height * width) as nat, |i: int| blank_character(color_code)),
    {
        proof {
            assert(height * width == width * height) by (nonlinear_arith);
        }
        let total: usize = height * width;
        let mut cells: Vec<Character> = Vec::new();
        let mut i: usize = 0;
        while i < total
            invariant
                i <= total,
                cells@.len() == i,
                forall|j: int| 0 <= j < i ==> cells@[j] == blank_character(color_code),
            decreases total - i,
        {
            cells.push(Character { ascii_character: BLANK_BYTE, color_code });
            i = i + 1;
        }
        let w = Writer { column: 0, row: 0, width, height, color_code, cells };
        proof {
            assert(w@.grid =~= Seq::new(
                (height * width) as nat,
                |i: int| blank_character(color_code),
            ));
        }
        w
    }

    /// Reads the cell at row `r`, column `c`.
    pub fn char_at(&self, r: usize, c: usize) -> (ch: Character)
        requires
            self@.wf(),
            r < self@.height,
            c < self@.width,
        ensures
            ch == self@.cell(r as int, c as int),
    {
        let n: usize = self.cells.len();
        proof {
            let ghost hh = self@.height;
            let ghost ww = self@.width;
            assert((r as int) * ww + (c as int) < hh * ww) by (nonlinear_arith)
                requires
                    (r as int) < hh && (c as int) < ww && 0 <= (r as int) && 0 <= (c as int) && 1
                        <= ww,
            ;
            assert(hh * ww == n as int);
        }
        self.cells[r * self.width + c]
    }

    /// The row the cursor sits on.
    pub fn cursor_row(&self) -> (r: usize)
        ensures
            r as int == self@.row,
    {
        self.row
    }

    /// The column the cursor sits on.
    pub fn cursor_column(&self) -> (c: usize)
        ensures
            c as int == self@.col,
    {
        self.column
    }

    /// Changes the colour used for everything written from now on.
    pub fn set_color(&mut self, color_code: ColorCode)
        ensures
            final(self)@ == (ConsoleState { color: color_code, ..old(self)@ }),
    {
        self.color_code = color_code;
    }

    /// Writes one cell of the grid.
    fn put_char(&mut self, r: usize, c: usize, ch: Character)
        requires
            old(self)@.wf(),
            r < old(self)@.height,
            c < old(self)@.width,
        ensures
            final(self)@.grid.len() == old(self)@.grid.len(),
            final(self)@ == (ConsoleState {
                grid: old(self)@.grid.update((r as int) * old(self)@.width + (c as int), ch),
                ..old(self)@
            }),
    {
        let n: usize = self.cells.len();
        proof {
            let ghost hh = old(self)@.height;
            let ghost ww = old(self)@.width;
            assert((r as int) * ww + (c as int) < hh * ww) by (nonlinear_arith)
                requires
                    (r as int) < hh && (c as int) < ww && 0 <= (r as int) && 0 <= (c as int) && 1
                        <= ww,
            ;
            assert(hh * ww == n as int);
        }
        let idx: usize = r * self.width + c;
        self.cells.set(idx, ch);
    }

    /// Clears one row to blanks in the current colour.
    fn clear_row(&mut self, row: usize)
        requires
            old(self)@.wf(),
            row < old(self)@.height,
        ensures
            final(self)@.wf(),
            final(self)@ == (ConsoleState {
                grid: final(self)@.grid,
                ..old(self)@
            }),
            final(self)@.grid.len() == old(self)@.grid.len(),
            forall|i: int|
                0 <= i < old(self)@.grid.len() ==> final(self)@.grid[i] == (if row as int
                    * old(self)@.width <= i < (row as int + 1) * old(self)@.width {
                    blank_character(old(self)@.color)
                } else {
                    old(self)@.grid[i]
                }),
    {
        let w: usize = self.width;
        let n: usize = self.cells.len();
        proof {
            let ghost hh = old(self)@.height;
            assert((row as int + 1) * (w as int) <= hh * (w as int)) by (nonlinear_arith)
                requires
                    (row as int) < hh && 0 <= (row as int) && 0 <= (w as int),
            ;
            assert((row as int) * (w as int) + (w as int) == (row as int + 1) * (w as int))
                by (nonlinear_arith);
            assert(hh * (w as int) == n as int);
        }
        let start: usize = row * w;
        let mut c: usize = 0;
        while c < w
            invariant
                c <= w,
                start == row * w,
                self@.grid.len() == old(self)@.grid.len(),
                n as int == self@.grid.len(),
                start + w <= self@.grid.len(),
                self@.row == old(self)@.row,
                self@.col == old(self)@.col,
                self@.width == old(self)@.width,
                self@.height == old(self)@.height,
                self@.color == old(self)@.color,
                forall|i: int|
                    0 <= i < self@.grid.len() ==> self@.grid[i] == (if start <= i < start + c {
                        blank_character(old(self)@.color)
                    } else {
                        old(self)@.grid[i]
                    }),
            decreases w - c,
        {
            let ch = Character { ascii_character: BLANK_BYTE, color_code: self.color_code };
            self.cells.set(start + c, ch);
            c = c + 1;
        }
    }

    /// Clears the whole grid to blanks in the current colour; the cursor
    /// does not move.
    pub fn clear(&mut self)
        requires
            old(self)@.wf(),
        ensures
            final(self)@.wf(),
            final(self)@ == state_cleared(old(self)@),
    {
        let h: usize = self.height;
        let mut r: usize = 0;
        while r < h
            invariant
                r <= h,
                h == old(self)@.height,
                self@.wf(),
                self@.row == old(self)@.row,
                self@.col == old(self)@.col,
                self@.width == old(self)@.width,
                self@.height == old(self)@.height,
                self@.color == old(self)@.color,
                self@.grid.len() == old(self)@.grid.len(),
                forall|i: int|
                    0 <= i < self@.grid.len() ==> self@.grid[i] == (if i < (r as int) * self@.width {
                        blank_character(old(self)@.color)
                    } else {
                        old(self)@.grid[i]
                    }),
            decreases h - r,
        {
            self.clear_row(r);
            proof {
                let ghost ww = self@.width;
                assert((r as int + 1) * ww == (r as int) * ww + ww) by (nonlinear_arith);
            }
            r = r + 1;
        }
        proof {
            let ghost hh = old(self)@.height;
            let ghost ww = self@.width;
            assert(hh * ww <= (r as int) * ww) by (nonlinear_arith)
                requires
                    r as int == hh && 0 <= ww,
            ;
            assert(self@ =~= state_cleared(old(self)@));
        }
    }

    /// Ends the current line as `state_new_line` describes: cursor to
    /// column zero, down one row, scrolling at the bottom.
    pub fn new_line(&mut self)
        requires
            old(self)@.wf(),
        ensures
            final(self)@.wf(),
            final(self)@ == state_new_line(old(self)@),
    {
        if self.row == self.height - 1 {
            self.scroll();
        } else {
            self.row = self.row + 1;
        }
        self.column = 0;
        proof {
            lemma_console_ops_preserve_wf(old(self)@, 0);
            assert(self@ =~= state_new_line(old(self)@));
        }
    }

    /// Moves every row up by one and clears the bottom row, as
    /// `state_scroll` describes; the cursor does not move.
    fn scroll(&mut self)
        requires
            old(self)@.wf(),
        ensures
            final(self)@.wf(),
            final(self)@ == state_scroll(old(self)@),
    {
        let w: usize = self.width;
        let h: usize = self.height;
        let total: usize = self.cells.len();
        proof {
            assert((h as int - 1) * (w as int) + (w as int) == (h as int) * (w as int))
                by (nonlinear_arith);
            assert(0 <= (h as int - 1) * (w as int)) by (nonlinear_arith)
                requires
                    1 <= h as int && 0 <= w as int,
            ;
        }
        let keep: usize = total - w;
        let mut i: usize = 0;
        while i < keep
            invariant
                i <= keep,
                keep + w == total,
                total == self@.grid.len(),
                total == old(self)@.grid.len(),
                w == old(self)@.width,
                self@.row == old(self)@.row,
                self@.col == old(self)@.col,
                self@.width == old(self)@.width,
                self@.height == old(self)@.height,
                self@.color == old(self)@.color,
                forall|j: int| 0 <= j < i ==> self@.grid[j] == old(self)@.grid[j + w],
                forall|j: int| i <= j < total ==> self@.grid[j] == old(self)@.grid[j],
            decreases keep - i,
        {
            let ch = self.cells[i + w];
            self.cells.set(i, ch);
            i = i + 1;
        }
        let mut j: usize = keep;
        while j < total
            invariant
                keep <= j <= total,
                keep + w == total,
                total == self@.grid.len(),
                total == old(self)@.grid.len(),
                w == old(self)@.width,
                self@.row == old(self)@.row,
                self@.col == old(self)@.col,
                self@.width == old(self)@.width,
                self@.height == old(self)@.height,
                self@.color == old(self)@.color,
                forall|k: int| 0 <= k < keep ==> self@.grid[k] == old(self)@.grid[k + w],
                forall|k: int|
                    keep <= k < j ==> self@.grid[k] == blank_character(old(self)@.color),
            decreases total - j,
        {
            let ch = Character { ascii_character: BLANK_BYTE, color_code: self.color_code };
            self.cells.set(j, ch);
            j = j + 1;
        }
        proof {
            assert(self@.grid =~= old(self)@.grid.skip(w as int) + blank_row(
                w as int,
                old(self)@.color,
            ));
            assert(self@ =~= state_scroll(old(self)@));
        }
    }

    /// Writes one byte as `state_write_byte` describes: rendered at the
    /// cursor, with newline handling and end-of-row wrapping.
    pub fn write_byte(&mut self, byte: u8)
        requires
            old(self)@.wf(),
        ensures
            final(self)@.wf(),
            final(self)@ == state_write_byte(old(self)@, byte),
    {
        if byte == NEWLINE_BYTE {
            self.new_line();
        } else {
            let r = self.row;
            let c = self.column;
            let ch = Character { ascii_character: byte, color_code: self.color_code };
            self.put_char(r, c, ch);
            proof {
                assert(self@.wf());
            }
            if c + 1 == self.width {
                self.new_line();
            } else {
                self.column = c + 1;
            }
            proof {
                lemma_console_ops_preserve_wf(old(self)@, byte);
                assert(self@ =~= state_write_byte(old(self)@, byte));
            }
        }
    }

    /// Writes a sequence of bytes in order, as `state_write_bytes`
    /// describes.
    pub fn write_string(&mut self, bytes: &Vec<u8>)
        requires
            old(self)@.wf(),
        ensures
            final(self)@.wf(),
            final(self)@ == state_write_bytes(old(self)@, bytes@),
    {
        let n: usize = bytes.len();
        let mut i: usize = 0;
        proof {
            assert(bytes@.skip(0) =~= bytes@);
        }
        while i < n
            invariant
                i <= n,
                n == bytes@.len(),
                self@.wf(),
                state_write_bytes(self@, bytes@.skip(i as int)) == state_write_bytes(
                    old(self)@,
                    bytes@,
                ),
            decreases n - i,
        {
            let b = bytes[i];
            proof {
                assert(bytes@.skip(i as int)[0] == bytes@[i as int]);
                assert(bytes@.skip(i as int).skip(1) =~= bytes@.skip(i as int + 1));
            }
            self.write_byte(b);
            i = i + 1;
        }
        proof {
            assert(bytes@.skip(n as int) =~= Seq::<u8>::empty());
        }
    }
}

/// Puts the console into its boot configuration: white on dark gray, with
/// the whole grid cleared in that colour.
pub fn init(writer: &mut Writer)
    requires
        old(writer)@.wf(),
    ensures
        final(writer)@.wf(),
        final(writer)@ == state_cleared(
            ConsoleState {
                color: ColorCode::spec_from_colors(Color::White, Color::DarkGray),
                ..old(writer)@
            },
        ),
{
    let code = ColorCode::new(Color::White, Color::DarkGray);
    writer.set_color(code);
    writer.clear();
}

} // verus!
