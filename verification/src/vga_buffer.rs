//! The legacy text-mode writer: a 25-by-80 grid of characters with colour
//! codes.  The grid is owned here; the hardware copy at the text buffer's
//! fixed address, and the cursor port I/O, live outside this crate.

use vstd::prelude::*;

verus! {

pub const BUFFER_HEIGHT: usize = 25;

pub const BUFFER_WIDTH: usize = 80;

/// The sixteen text-mode colours, in hardware order.
#[derive(Debug, Clone, Copy, PartialEq, Eq, Structural)]
pub enum Color {
    Black,
    Blue,
    Green,
    Cyan,
    Red,
    Magneta,
    Brown,
    LightGray,
    DarkGray,
    LightBlue,
    LightGreen,
    LightCyan,
    LightRed,
    Pink,
    Yellow,
    White,
}

impl Color {
    /// The colour's hardware number.
    pub fn as_u8(self) -> (r: u8)
        ensures
            r == self.spec_u8(),
            r < 16,
    {
        match self {
            Color::Black => 0,
            Color::Blue => 1,
            Color::Green => 2,
            Color::Cyan => 3,
            Color::Red => 4,
            Color::Magneta => 5,
            Color::Brown => 6,
            Color::LightGray => 7,
            Color::DarkGray => 8,
            Color::LightBlue => 9,
            Color::LightGreen => 10,
            Color::LightCyan => 11,
            Color::LightRed => 12,
            Color::Pink => 13,
            Color::Yellow => 14,
            Color::White => 15,
        }
    }

    pub open spec fn spec_u8(self) -> u8 {
        match self {
            Color::Black => 0,
            Color::Blue => 1,
            Color::Green => 2,
            Color::Cyan => 3,
            Color::Red => 4,
            Color::Magneta => 5,
            Color::Brown => 6,
            Color::LightGray => 7,
            Color::DarkGray => 8,
            Color::LightBlue => 9,
            Color::LightGreen => 10,
            Color::LightCyan => 11,
            Color::LightRed => 12,
            Color::Pink => 13,
            Color::Yellow => 14,
            Color::White => 15,
        }
    }
}

/// A foreground and background pair packed into one byte.
#[derive(Debug, Clone, Copy, PartialEq, Eq, Structural)]
pub struct ColorCode {
    pub code: u8,
}

impl ColorCode {
    /// Background in the high four bits, foreground in the low four.
    pub fn new(foreground: Color, background: Color) -> (r: ColorCode)
        ensures
            r.code == background.spec_u8() * 16 + foreground.spec_u8(),
    {
        ColorCode { code: background.as_u8() * 16 + foreground.as_u8() }
    }
}

/// One cell of the grid.
#[derive(Debug, Clone, Copy, PartialEq, Eq, Structural)]
pub struct ScreenChar {
    pub ascii_char: u8,
    pub color_code: ColorCode,
}

/// The text grid and the cursor column on its last row.
pub struct Writer {
    pub column_position: usize,
    pub color_code: ColorCode,
    pub buffer: Vec<Vec<ScreenChar>>,
}

impl Writer {
    pub open spec fn wf(self) -> bool {
        &&& self.column_position <= BUFFER_WIDTH
        &&& self.buffer@.len() == BUFFER_HEIGHT
        &&& (forall|r: int|
            0 <= r < BUFFER_HEIGHT ==> (#[trigger] self.buffer@[r])@.len() == BUFFER_WIDTH)
    }

    /// A blank writer.
    pub fn new(color_code: ColorCode) -> (r: Writer)
        ensures
            r.wf(),
            r.column_position == 0,
            r.color_code == color_code,
    {
        let blank = ScreenChar { ascii_char: 32u8, color_code };
        let mut buffer: Vec<Vec<ScreenChar>> = Vec::new();
        let mut r: usize = 0;
        while r < BUFFER_HEIGHT
            invariant
                r <= BUFFER_HEIGHT,
                buffer@.len() == r,
                forall|k: int| 0 <= k < r ==> (#[trigger] buffer@[k])@.len() == BUFFER_WIDTH,
            decreases BUFFER_HEIGHT - r,
        {
            let mut row: Vec<ScreenChar> = Vec::new();
            let mut c: usize = 0;
            while c < BUFFER_WIDTH
                invariant
                    c <= BUFFER_WIDTH,
                    row@.len() == c,
                decreases BUFFER_WIDTH - c,
            {
                row.push(blank);
                c = c + 1;
            }
            buffer.push(row);
            r = r + 1;
        }
        Writer { column_position: 0, color_code, buffer }
    }

    /// Change both colours.
    pub fn set_color(&mut self, foreground: Color, background: Color)
        requires
            old(self).wf(),
        ensures
            final(self).wf(),
            final(self).color_code.code == background.spec_u8() * 16 + foreground.spec_u8(),
    {
        self.color_code = ColorCode::new(foreground, background);
    }

    /// Change the foreground, on black.
    pub fn set_foreground_color(&mut self, foreground: Color)
        requires
            old(self).wf(),
        ensures
            final(self).wf(),
            final(self).color_code.code == foreground.spec_u8(),
    {
        self.color_code = ColorCode::new(foreground, Color::Black);
    }

    /// Put one byte on the last row: newlines scroll, a full row wraps,
    /// and the cursor advances.
    pub fn write_byte(&mut self, byte: u8)
        requires
            old(self).wf(),
        ensures
            final(self).wf(),
            byte != 10 ==> final(self).column_position == (if old(self).column_position
                >= BUFFER_WIDTH {
                1int
            } else {
                old(self).column_position + 1
            }),
            byte == 10 ==> final(self).column_position == 0,
    {
        if byte == 10u8 {
            self.new_line();
            return;
        }
        if self.column_position >= BUFFER_WIDTH {
            self.new_line();
        }
        let row = BUFFER_HEIGHT - 1;
        let col = self.column_position;
        let color_code = self.color_code;
        let line = &mut self.buffer[row];
        line[col] = ScreenChar { ascii_char: byte, color_code };
        proof {
            assert forall|r: int| 0 <= r < BUFFER_HEIGHT implies (
            #[trigger] self.buffer@[r])@.len() == BUFFER_WIDTH by {}
        }
        self.column_position = col + 1;
    }

    /// Put a whole string, mapping bytes outside the printable range to a
    /// marker glyph.
    pub fn write_string(&mut self, s: &str)
        requires
            old(self).wf(),
        ensures
            final(self).wf(),
    {
        let bytes = s.as_bytes();
        let n = bytes.len();
        let mut i: usize = 0;
        while i < n
            invariant
                i <= n,
                n == bytes@.len(),
                self.wf(),
            decreases n - i,
        {
            let b = bytes[i];
            if (0x20u8 <= b && b <= 0x7eu8) || b == 10u8 {
                self.write_byte(b);
            } else {
                self.write_byte(0xfeu8);
            }
            i = i + 1;
        }
    }

    /// Step the cursor back and blank the cell; at the line's start the
    /// screen scrolls back down one row, and a prompt byte at the first
    /// column is left alone.
    pub fn rm_char(&mut self)
        requires
            old(self).wf(),
        ensures
            final(self).wf(),
    {
        if self.column_position == 1 && self.buffer[BUFFER_HEIGHT - 1][0].ascii_char == 0x3eu8 {
            return;
        }
        if self.column_position > 0 {
            self.column_position = self.column_position - 1;
            let row = BUFFER_HEIGHT - 1;
            let col = self.column_position;
            let color_code = self.color_code;
            let line = &mut self.buffer[row];
            line[col] = ScreenChar { ascii_char: 32u8, color_code };
            proof {
                assert forall|r: int| 0 <= r < BUFFER_HEIGHT implies (
                #[trigger] self.buffer@[r])@.len() == BUFFER_WIDTH by {}
            }
        } else {
            let mut row = BUFFER_HEIGHT - 1;
            while row >= 1
                invariant
                    row <= BUFFER_HEIGHT - 1,
                    self.wf(),
                decreases row,
            {
                let upper = copy_row(&self.buffer[row - 1]);
                self.buffer[row] = upper;
                proof {
                    assert forall|r: int| 0 <= r < BUFFER_HEIGHT implies (
                    #[trigger] self.buffer@[r])@.len() == BUFFER_WIDTH by {}
                }
                row = row - 1;
            }
            self.clear_row(0);
            self.column_position = BUFFER_WIDTH;
        }
    }

    /// Scroll everything up one row and clear the last.
    fn new_line(&mut self)
        requires
            old(self).wf(),
        ensures
            final(self).wf(),
            final(self).column_position == 0,
    {
        let mut row: usize = 1;
        while row < BUFFER_HEIGHT
            invariant
                1 <= row <= BUFFER_HEIGHT,
                self.wf(),
            decreases BUFFER_HEIGHT - row,
        {
            let line = copy_row(&self.buffer[row]);
            self.buffer[row - 1] = line;
            proof {
                assert forall|r: int| 0 <= r < BUFFER_HEIGHT implies (
                #[trigger] self.buffer@[r])@.len() == BUFFER_WIDTH by {}
            }
            row = row + 1;
        }
        self.clear_row(BUFFER_HEIGHT - 1);
        self.column_position = 0;
    }

    /// Blank one row.
    fn clear_row(&mut self, row: usize)
        requires
            old(self).wf(),
            row < BUFFER_HEIGHT,
        ensures
            final(self).wf(),
            final(self).column_position == old(self).column_position,
            final(self).color_code == old(self).color_code,
    {
        let blank = ScreenChar { ascii_char: 32u8, color_code: self.color_code };
        let mut col: usize = 0;
        while col < BUFFER_WIDTH
            invariant
                col <= BUFFER_WIDTH,
                row < BUFFER_HEIGHT,
                self.wf(),
                self.column_position == old(self).column_position,
                self.color_code == old(self).color_code,
            decreases BUFFER_WIDTH - col,
        {
            let line = &mut self.buffer[row];
            line[col] = blank;
            proof {
                assert forall|r: int| 0 <= r < BUFFER_HEIGHT implies (
                #[trigger] self.buffer@[r])@.len() == BUFFER_WIDTH by {}
            }
            col = col + 1;
        }
    }
}

/// An owned copy of one row.
fn copy_row(row: &Vec<ScreenChar>) -> (r: Vec<ScreenChar>)
    ensures
        r@ == row@,
{
    let mut out: Vec<ScreenChar> = Vec::new();
    let n = row.len();
    let mut i: usize = 0;
    while i < n
        invariant
            i <= n,
            n == row@.len(),
            out@ == row@.subrange(0, i as int),
        decreases n - i,
    {
        let c = row[i];
        out.push(c);
        proof {
            assert(row@.subrange(0, i + 1 as int) == row@.subrange(0, i as int).push(c));
        }
        i = i + 1;
    }
    proof {
        assert(row@.subrange(0, n as int) =~= row@);
    }
    out
}

/// Step the given writer's cursor back one character.
pub fn rm_char(writer: &mut Writer)
    requires
        old(writer).wf(),
    ensures
        final(writer).wf(),
{
    writer.rm_char();
}

} // verus!
