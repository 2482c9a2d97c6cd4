//! The CGA text screen: 25 rows of 80 cells, each a character byte and an
//! attribute byte, and a text cursor. This module keeps the screen and the
//! cursor as values; writing them to the video memory and to the cursor
//! registers is left to the caller.

use vstd::prelude::*;

verus! {

/// All 16 CGA colors.
#[derive(Copy, Clone, Debug, PartialEq, Eq, Structural)]
pub enum Color {
    Black,
    Blue,
    Green,
    Cyan,
    Red,
    Pink,
    Brown,
    LightGray,
    DarkGray,
    LightBlue,
    LightGreen,
    LightCyan,
    LightRed,
    LightPink,
    Yellow,
    White,
}

impl Color {
    /// The number of the color, from 0 for black to 15 for white.
    pub open spec fn code_spec(self) -> u8 {
        match self {
            Color::Black => 0,
            Color::Blue => 1,
            Color::Green => 2,
            Color::Cyan => 3,
            Color::Red => 4,
            Color::Pink => 5,
            Color::Brown => 6,
            Color::LightGray => 7,
            Color::DarkGray => 8,
            Color::LightBlue => 9,
            Color::LightGreen => 10,
            Color::LightCyan => 11,
            Color::LightRed => 12,
            Color::LightPink => 13,
            Color::Yellow => 14,
            Color::White => 15,
        }
    }

    /// The number of the color, from 0 for black to 15 for white.
    #[verifier::when_used_as_spec(code_spec)]
    pub fn code(self) -> (code: u8)
        ensures
            code == self.code_spec(),
    {
        match self {
            Color::Black => 0,
            Color::Blue => 1,
            Color::Green => 2,
            Color::Cyan => 3,
            Color::Red => 4,
            Color::Pink => 5,
            Color::Brown => 6,
            Color::LightGray => 7,
            Color::DarkGray => 8,
            Color::LightBlue => 9,
            Color::LightGreen => 10,
            Color::LightCyan => 11,
            Color::LightRed => 12,
            Color::LightPink => 13,
            Color::Yellow => 14,
            Color::White => 15,
        }
    }
}

/// The port through which a register of the screen controller is chosen.
pub const CGA_INDEX_PORT: u16 = 0x3d4;

/// The port through which the chosen register is read and written.
pub const CGA_DATA_PORT: u16 = 0x3d5;

/// The register that holds the high byte of the cursor position.
pub const CGA_HIGH_BYTE_CMD: u8 = 14;

/// The register that holds the low byte of the cursor position.
pub const CGA_LOW_BYTE_CMD: u8 = 15;

/// White on black, not blinking.
pub const CGA_STD_ATTR: u8 = 0x0f;

/// The number of text rows.
pub const CGA_ROWS: usize = 25;

/// The number of cells in a text row.
pub const CGA_COLUMNS: usize = 80;

/// The number of bytes that the cells of the screen take.
pub const CGA_BYTES: usize = 4000;

/// The scanlines between which the cursor is drawn once it is enabled.
pub const CGA_CURSOR_SCANLINES: (u8, u8) = (0x0D, 0x0F);

/// The byte that a character is shown as: its code, cut to eight bits.
pub open spec fn char_byte(character: char) -> u8 {
    (character as u32 % 256) as u8
}

/// The attribute byte of a cell: the foreground color in the low four
/// bits, the low three bits of the background color above them, and the
/// blink flag on top.
pub open spec fn attribute_byte(bg: Color, fg: Color, blink: bool) -> u8 {
    ((if blink {
        128int
    } else {
        0int
    }) + 16 * (bg.code_spec() % 8) + fg.code_spec()) as u8
}

/// The byte of an empty screen at offset `i`: a blank in white on black.
pub open spec fn blank_byte(i: int) -> u8 {
    if i % 2 == 0 {
        0x20
    } else {
        CGA_STD_ATTR
    }
}

/// What the text screen is, as plain values.
pub struct Screen {
    /// The bytes of the cells, row by row: for each cell its character and
    /// then its attribute.
    pub cells: Seq<u8>,
    /// The cursor position as the hardware counts it: cells from the top
    /// left corner on, row by row.
    pub cursor: int,
    /// The scanlines between which the cursor is drawn, once they were set.
    pub scanlines: Option<(u8, u8)>,
}

impl Screen {
    /// The screen has all its cells, and the cursor stands on one of them.
    pub open spec fn wf(self) -> bool {
        &&& self.cells.len() == CGA_BYTES
        &&& 0 <= self.cursor < CGA_ROWS * CGA_COLUMNS
    }

    /// The screen with `character` and `attrib` in the cell at column `x`
    /// of row `y`. A column beyond 80 or a row beyond 25 is refused; column
    /// 80 is the first cell of the next row, and what falls behind the last
    /// cell of the screen is not kept.
    pub open spec fn show(self, x: int, y: int, character: u8, attrib: u8) -> Screen {
        let pos = (y * CGA_COLUMNS + x) * 2;
        if x > CGA_COLUMNS || y > CGA_ROWS || pos + 1 >= CGA_BYTES {
            self
        } else {
            Screen { cells: self.cells.update(pos, character).update(pos + 1, attrib), ..self }
        }
    }

    /// Column and row of the cursor.
    pub open spec fn getpos(self) -> (int, int) {
        (self.cursor % (CGA_COLUMNS as int), self.cursor / (CGA_COLUMNS as int))
    }

    /// The screen with the cursor at column `x` of row `y`, each cut to the
    /// last column and the last row.
    pub open spec fn setpos(self, x: int, y: int) -> Screen {
        let column = if x >= CGA_COLUMNS {
            CGA_COLUMNS - 1
        } else {
            x
        };
        let row = if y >= CGA_ROWS {
            CGA_ROWS - 1
        } else {
            y
        };
        Screen { cursor: row * CGA_COLUMNS + column, ..self }
    }

    /// The empty screen, with the cursor in the top left corner.
    pub open spec fn clear(self) -> Screen {
        Screen { cells: Seq::new(CGA_BYTES as nat, |i: int| blank_byte(i)), cursor: 0, ..self }
    }

    /// The screen with every row moved up by one, an empty last row, and
    /// the cursor at the start of the last row.
    pub open spec fn scrollup(self) -> Screen {
        Screen {
            cells: Seq::new(
                CGA_BYTES as nat,
                |i: int|
                    if i < CGA_BYTES - 2 * CGA_COLUMNS {
                        self.cells[i + 2 * CGA_COLUMNS]
                    } else {
                        blank_byte(i)
                    },
            ),
            cursor: (CGA_ROWS - 1) * CGA_COLUMNS,
            ..self
        }
    }

    /// The screen after the byte `b` was printed at the cursor with
    /// attribute `attrib`. A line feed moves the cursor to the start of the
    /// next row, and scrolls the screen where there is none. Any other byte
    /// is shown at the cursor, which then moves one column to the right and
    /// stays in the last column of its row.
    pub open spec fn print_byte(self, b: u8, attrib: u8) -> Screen {
        let (x, y) = self.getpos();
        if b == 0x0a {
            if y + 1 >= CGA_ROWS {
                self.scrollup().setpos(0, y + 1)
            } else {
                self.setpos(0, y + 1)
            }
        } else {
            self.show(x, y, b, attrib).setpos(x + 1, y)
        }
    }
}

/// The text screen and its cursor.
pub struct CGA {
    screen: Vec<u8>,
    cursor: u16,
    scanlines: Option<(u8, u8)>,
}

impl View for CGA {
    type V = Screen;

    closed spec fn view(&self) -> Screen {
        Screen { cells: self.screen@, cursor: self.cursor as int, scanlines: self.scanlines }
    }
}

impl CGA {
    /// The screen has all its cells, and the cursor stands on one of them.
    #[verifier::type_invariant]
    pub open spec fn inv(&self) -> bool {
        self@.wf()
    }

    /// A screen of zero bytes with the cursor in the top left corner, whose
    /// cursor scanlines were not set.
    pub fn new() -> (cga: CGA)
        ensures
            cga@.wf(),
            cga@.cells == Seq::new(CGA_BYTES as nat, |i: int| 0u8),
            cga@.cursor == 0,
            cga@.scanlines.is_none(),
    {
        let cga = CGA { screen: vec![0u8; CGA_BYTES], cursor: 0, scanlines: None };
        assert(cga.screen@ =~= Seq::new(CGA_BYTES as nat, |i: int| 0u8));
        cga
    }

    /// The bytes of the cells, row by row.
    pub fn cells(&self) -> (cells: &Vec<u8>)
        ensures
            cells@ == self@.cells,
            self@.wf(),
    {
        proof {
            use_type_invariant(self);
        }
        &self.screen
    }

    /// The cursor position as the hardware counts it.
    pub fn cursor(&self) -> (cursor: u16)
        ensures
            cursor == self@.cursor,
            self@.wf(),
    {
        proof {
            use_type_invariant(self);
        }
        self.cursor
    }

    /// The low and the high byte of the cursor position, as they go into
    /// the two cursor registers.
    pub fn cursor_bytes(&self) -> (bytes: (u8, u8))
        ensures
            bytes.0 == self@.cursor % 256,
            bytes.1 == self@.cursor / 256,
    {
        proof {
            use_type_invariant(self);
        }
        ((self.cursor % 256) as u8, (self.cursor / 256) as u8)
    }

    /// The scanlines between which the cursor is drawn, once they were set.
    pub fn scanlines(&self) -> (scanlines: Option<(u8, u8)>)
        ensures
            scanlines == self@.scanlines,
    {
        self.scanlines
    }

    /// Clear CGA screen and cursor to 0,0 position.
    pub fn clear(&mut self)
        ensures
            final(self)@.wf(),
            final(self)@ == old(self)@.clear(),
    {
        proof {
            use_type_invariant(&*self);
        }
        let mut y: usize = 0;
        while y < CGA_ROWS
            invariant
                0 <= y <= CGA_ROWS,
                self@.wf(),
                self@.cursor == old(self)@.cursor,
                self@.scanlines == old(self)@.scanlines,
                forall|i: int| 0 <= i < 2 * (y * CGA_COLUMNS) ==> self@.cells[i] == blank_byte(i),
            decreases CGA_ROWS - y,
        {
            let mut x: usize = 0;
            while x < CGA_COLUMNS
                invariant
                    0 <= x <= CGA_COLUMNS,
                    0 <= y < CGA_ROWS,
                    self@.wf(),
                    self@.cursor == old(self)@.cursor,
                    self@.scanlines == old(self)@.scanlines,
                    forall|i: int|
                        0 <= i < 2 * (y * CGA_COLUMNS + x) ==> self@.cells[i] == blank_byte(i),
                decreases CGA_COLUMNS - x,
            {
                self.show(x, y, ' ', CGA_STD_ATTR);
                x = x + 1;
            }
            y = y + 1;
        }
        self.setpos(0, 0);
        assert(self@.cells =~= old(self)@.clear().cells);
    }

    /// Display the `character` at the given position `x`,`y` with attribute `attrib`.
    pub fn show(&mut self, x: usize, y: usize, character: char, attrib: u8)
        ensures
            final(self)@.wf(),
            final(self)@ == old(self)@.show(x as int, y as int, char_byte(character), attrib),
    {
        proof {
            use_type_invariant(&*self);
        }
        if x > CGA_COLUMNS || y > CGA_ROWS {
            return;
        }
        let pos = (y * CGA_COLUMNS + x) * 2;
        if pos + 1 < CGA_BYTES {
            self.screen[pos] = (character as u32 % 256) as u8;
            self.screen[pos + 1] = attrib;
        }
    }

    /// Has the cursor drawn, between the scanlines `CGA_CURSOR_SCANLINES`.
    pub fn enable_cursor(&mut self)
        ensures
            final(self)@.wf(),
            final(self)@ == (Screen { scanlines: Some(CGA_CURSOR_SCANLINES), ..old(self)@ }),
    {
        proof {
            use_type_invariant(&*self);
        }
        self.scanlines = Some(CGA_CURSOR_SCANLINES);
    }

    /// Return cursor position `x`,`y`
    pub fn getpos(&mut self) -> (pos: (usize, usize))
        ensures
            final(self)@ == old(self)@,
            final(self)@.wf(),
            (pos.0 as int, pos.1 as int) == old(self)@.getpos(),
            pos.0 < CGA_COLUMNS,
            pos.1 < CGA_ROWS,
    {
        proof {
            use_type_invariant(&*self);
        }
        let pos = self.cursor as usize;
        let x = pos % CGA_COLUMNS;
        let y = pos / CGA_COLUMNS;
        (x, y)
    }

    /// Set cursor position `x`,`y`
    pub fn setpos(&mut self, x: usize, y: usize)
        ensures
            final(self)@.wf(),
            final(self)@ == old(self)@.setpos(x as int, y as int),
    {
        proof {
            use_type_invariant(&*self);
        }
        let mut x = x;
        let mut y = y;
        if x >= CGA_COLUMNS {
            x = CGA_COLUMNS - 1;
        }
        if y >= CGA_ROWS {
            y = CGA_ROWS - 1;
        }
        let pos: u16 = (y * CGA_COLUMNS + x) as u16;
        self.cursor = pos;
    }

    /// Print byte `b` at actual position cursor position `x`,`y`
    pub fn print_byte(&mut self, b: u8, bg: Color, fg: Color, blink: bool)
        ensures
            final(self)@.wf(),
            final(self)@ == old(self)@.print_byte(b, attribute_byte(bg, fg, blink)),
    {
        let (mut x, mut y) = self.getpos();
        if b == 0x0a {
            x = 0;
            y += 1;
            if y >= CGA_ROWS {
                self.scrollup();
            }
        } else {
            if x >= CGA_COLUMNS {
                x = 0;
                y += 1;
                if y >= CGA_ROWS {
                    y = CGA_ROWS - 1;
                    self.scrollup();
                }
            }
            let attribute = self.attribute(bg, fg, blink);
            self.show(x, y, b as char, attribute);
            x += 1;
        }
        self.setpos(x, y);
    }

    /// Scroll text lines by one to the top.
    pub fn scrollup(&mut self)
        ensures
            final(self)@.wf(),
            final(self)@ == old(self)@.scrollup(),
    {
        proof {
            use_type_invariant(&*self);
        }
        let mut y: usize = 1;
        while y < CGA_ROWS
            invariant
                1 <= y <= CGA_ROWS,
                self@.wf(),
                old(self)@.wf(),
                self@.cursor == old(self)@.cursor,
                self@.scanlines == old(self)@.scanlines,
                forall|i: int|
                    0 <= i < 2 * ((y - 1) * CGA_COLUMNS) ==> #[trigger] self@.cells[i] == old(
                        self,
                    )@.cells[i + 2 * CGA_COLUMNS],
                forall|i: int|
                    2 * ((y - 1) * CGA_COLUMNS) <= i < CGA_BYTES ==> #[trigger] self@.cells[i]
                        == old(self)@.cells[i],
            decreases CGA_ROWS - y,
        {
            let mut x: usize = 0;
            while x < CGA_COLUMNS
                invariant
                    0 <= x <= CGA_COLUMNS,
                    1 <= y < CGA_ROWS,
                    self@.wf(),
                    old(self)@.wf(),
                    self@.cursor == old(self)@.cursor,
                    self@.scanlines == old(self)@.scanlines,
                    forall|i: int|
                        0 <= i < 2 * ((y - 1) * CGA_COLUMNS + x) ==> #[trigger] self@.cells[i]
                            == old(self)@.cells[i + 2 * CGA_COLUMNS],
                    forall|i: int|
                        2 * ((y - 1) * CGA_COLUMNS + x) <= i < CGA_BYTES
                            ==> #[trigger] self@.cells[i] == old(self)@.cells[i],
                decreases CGA_COLUMNS - x,
            {
                // write each character from the current row to the previous row
                let offset = (y * CGA_COLUMNS + x) * 2;
                let prev_offset = ((y - 1) * CGA_COLUMNS + x) * 2;
                let character = self.screen[offset];
                let attrib = self.screen[offset + 1];
                self.screen[prev_offset] = character;
                self.screen[prev_offset + 1] = attrib;
                x = x + 1;
            }
            y = y + 1;
        }
        let mut x: usize = 0;
        while x < CGA_COLUMNS
            invariant
                0 <= x <= CGA_COLUMNS,
                self@.wf(),
                old(self)@.wf(),
                self@.cursor == old(self)@.cursor,
                self@.scanlines == old(self)@.scanlines,
                forall|i: int|
                    0 <= i < CGA_BYTES - 2 * CGA_COLUMNS ==> #[trigger] self@.cells[i] == old(
                        self,
                    )@.cells[i + 2 * CGA_COLUMNS],
                forall|i: int|
                    CGA_BYTES - 2 * CGA_COLUMNS <= i < CGA_BYTES - 2 * CGA_COLUMNS + 2 * x
                        ==> #[trigger] self@.cells[i] == blank_byte(i),
            decreases CGA_COLUMNS - x,
        {
            self.show(x, CGA_ROWS - 1, ' ', CGA_STD_ATTR);
            x = x + 1;
        }
        self.setpos(0, CGA_ROWS - 1);
        assert(self@.cells =~= old(self)@.scrollup().cells);
    }

    /// Helper function returning an attribute byte for the given parameters `bg`, `fg`, and `blink`
    pub fn attribute(&mut self, bg: Color, fg: Color, blink: bool) -> (attr: u8)
        ensures
            final(self)@ == old(self)@,
            final(self)@.wf(),
            attr == attribute_byte(bg, fg, blink),
    {
        proof {
            use_type_invariant(&*self);
        }
        let blink_bit: u8 = if blink {
            0x80
        } else {
            0
        };
        let b: u8 = bg.code();
        let f: u8 = fg.code();
        let attr: u8 = ((b & 0x7) << 4 | (f & 0xf)) | blink_bit;
        assert(((b & 0x7) << 4 | (f & 0xf)) | blink_bit == blink_bit + 16 * (b % 8) + f) by (bit_vector)
            requires
                f < 16,
                blink_bit == 0x80 || blink_bit == 0,
        ;
        attr
    }
}

} // verus!
