//! The text console: a 80x25 grid of coloured characters, written through a
//! small ANSI interpreter (colours, clear screen), with a cursor.
//!
//! The grid here is the console's own copy; whoever owns the video memory
//! copies `Buffer::cells` there and moves the hardware cursor to
//! `Writer::cursor_offset`.

use vstd::prelude::*;
use vstd::string::StringSliceAdditionalSpecFns;

verus! {

pub const BUFFER_HEIGHT: usize = 25usize;
pub const BUFFER_WIDTH: usize = 80usize;
/// The number of cells on the screen.
pub const BUFFER_CELLS: usize = 2000usize;

/// The sixteen text-mode colours.
#[derive(Debug, Clone, Copy, PartialEq, Eq, Structural)]
pub enum Color {
    Black,
    Blue,
    Green,
    Cyan,
    Red,
    Magenta,
    Brown,
    LightGray,
    DarkGray,
    LightBlue,
    LightGreen,
    LightCyan,
    LightRed,
    Pink,
    Yellow,
    White,
}

/// The hardware number of a colour.
pub open spec fn color_num(c: Color) -> u8 {
    match c {
        Color::Black => 0,
        Color::Blue => 1,
        Color::Green => 2,
        Color::Cyan => 3,
        Color::Red => 4,
        Color::Magenta => 5,
        Color::Brown => 6,
        Color::LightGray => 7,
        Color::DarkGray => 8,
        Color::LightBlue => 9,
        Color::LightGreen => 10,
        Color::LightCyan => 11,
        Color::LightRed => 12,
        Color::Pink => 13,
        Color::Yellow => 14,
        Color::White => 15,
    }
}

/// The hardware number of `c`.
pub fn color_value(c: Color) -> (r: u8)
    ensures
        r == color_num(c),
        r < 16,
{
    match c {
        Color::Black => 0,
        Color::Blue => 1,
        Color::Green => 2,
        Color::Cyan => 3,
        Color::Red => 4,
        Color::Magenta => 5,
        Color::Brown => 6,
        Color::LightGray => 7,
        Color::DarkGray => 8,
        Color::LightBlue => 9,
        Color::LightGreen => 10,
        Color::LightCyan => 11,
        Color::LightRed => 12,
        Color::Pink => 13,
        Color::Yellow => 14,
        Color::White => 15,
    }
}

/// A foreground and a background colour in one attribute byte: the
/// background in the high four bits.
#[derive(Debug, Clone, Copy, PartialEq, Eq, Structural)]
pub struct ColorCode(pub u8);

pub open spec fn code_of(foreground: Color, background: Color) -> u8 {
    (color_num(background) * 16 + color_num(foreground)) as u8
}

/// Yellow on black.
pub open spec fn default_color() -> ColorCode {
    ColorCode(code_of(Color::Yellow, Color::Black))
}

impl ColorCode {
    pub fn new(foreground: Color, background: Color) -> (r: ColorCode)
        ensures
            r.0 == code_of(foreground, background),
    {
        let f = color_value(foreground);
        let b = color_value(background);
        assert((b << 4u8) | f == b * 16 + f) by (bit_vector)
            requires
                b < 16,
                f < 16,
        ;
        ColorCode((b << 4u8) | f)
    }

    /// Keeps the background and sets the foreground to `foreground`.
    pub fn set_foreground(&mut self, foreground: Color)
        ensures
            final(self).0 == (old(self).0 / 16) * 16 + color_num(foreground),
    {
        let f = color_value(foreground);
        let x = self.0;
        assert((x & 0xF0u8) | f == (x / 16) * 16 + f) by (bit_vector)
            requires
                f < 16,
        ;
        self.0 = (x & 0xF0u8) | f;
    }
}

/// One cell of the screen.
#[derive(Debug, Clone, Copy, PartialEq, Eq, Structural)]
pub struct ScreenChar {
    pub ascii_character: u8,
    pub color_code: ColorCode,
}

/// A blank in the default colour.
pub open spec fn empty_char() -> ScreenChar {
    ScreenChar { ascii_character: 0x20, color_code: default_color() }
}

fn empty_screen_char() -> (r: ScreenChar)
    ensures
        r == empty_char(),
{
    ScreenChar { ascii_character: 0x20, color_code: ColorCode::new(Color::Yellow, Color::Black) }
}

/// A screen of blanks.
pub open spec fn blank_cells() -> Seq<ScreenChar> {
    Seq::new(BUFFER_CELLS as nat, |i: int| empty_char())
}

/// The screen scrolled up one line, a blank line entering at the bottom.
pub open spec fn shifted(cells: Seq<ScreenChar>) -> Seq<ScreenChar> {
    Seq::new(
        BUFFER_CELLS as nat,
        |i: int|
            if i < BUFFER_CELLS - BUFFER_WIDTH {
                cells[i + BUFFER_WIDTH]
            } else {
                empty_char()
            },
    )
}

/// The cells of the screen, row by row.
pub struct Buffer {
    chars: Vec<ScreenChar>,
}

impl Buffer {
    pub closed spec fn cells(&self) -> Seq<ScreenChar> {
        self.chars@
    }

    pub open spec fn wf(&self) -> bool {
        self.cells().len() == BUFFER_CELLS
    }

    /// A blank screen.
    pub fn new() -> (r: Buffer)
        ensures
            r.wf(),
            r.cells() == blank_cells(),
    {
        let e = empty_screen_char();
        let mut chars: Vec<ScreenChar> = Vec::new();
        let mut i: usize = 0;
        while i < BUFFER_CELLS
            invariant
                i <= BUFFER_CELLS,
                e == empty_char(),
                chars@.len() == i,
                forall|j: int| 0 <= j < i ==> chars@[j] == empty_char(),
            decreases BUFFER_CELLS - i,
        {
            chars.push(e);
            i = i + 1;
        }
        let r = Buffer { chars };
        proof {
            assert(r.cells() =~= blank_cells());
        }
        r
    }

    pub fn read_char(&self, row: usize, col: usize) -> (r: ScreenChar)
        requires
            self.wf(),
            row < BUFFER_HEIGHT,
            col < BUFFER_WIDTH,
        ensures
            r == self.cells()[row * BUFFER_WIDTH + col],
    {
        self.chars[row * BUFFER_WIDTH + col]
    }

    pub fn write_char(&mut self, row: usize, col: usize, c: ScreenChar)
        requires
            old(self).wf(),
            row < BUFFER_HEIGHT,
            col < BUFFER_WIDTH,
        ensures
            final(self).wf(),
            final(self).cells() == old(self).cells().update(row * BUFFER_WIDTH + col, c),
    {
        self.chars.set(row * BUFFER_WIDTH + col, c);
    }

    /// Blanks the whole screen.
    pub fn clear(&mut self)
        requires
            old(self).wf(),
        ensures
            final(self).wf(),
            final(self).cells() == blank_cells(),
    {
        let e = empty_screen_char();
        let mut i: usize = 0;
        while i < BUFFER_CELLS
            invariant
                i <= BUFFER_CELLS,
                e == empty_char(),
                self.chars@.len() == BUFFER_CELLS,
                forall|j: int| 0 <= j < i ==> self.chars@[j] == empty_char(),
            decreases BUFFER_CELLS - i,
        {
            self.chars.set(i, e);
            i = i + 1;
        }
        proof {
            assert(self.cells() =~= blank_cells());
        }
    }

    /// Scrolls the screen up one line.
    fn shift_lines(&mut self)
        requires
            old(self).wf(),
        ensures
            final(self).wf(),
            final(self).cells() == shifted(old(self).cells()),
    {
        let ghost before = self.cells();
        let last_row = BUFFER_CELLS - BUFFER_WIDTH;
        let mut i: usize = 0;
        while i < last_row
            invariant
                last_row == BUFFER_CELLS - BUFFER_WIDTH,
                i <= last_row,
                before.len() == BUFFER_CELLS,
                self.chars@.len() == BUFFER_CELLS,
                forall|j: int| 0 <= j < i ==> self.chars@[j] == before[j + BUFFER_WIDTH],
                forall|j: int| i <= j < BUFFER_CELLS ==> self.chars@[j] == before[j],
            decreases last_row - i,
        {
            let c = self.chars[i + BUFFER_WIDTH];
            self.chars.set(i, c);
            i = i + 1;
        }
        let e = empty_screen_char();
        while i < BUFFER_CELLS
            invariant
                last_row == BUFFER_CELLS - BUFFER_WIDTH,
                last_row <= i <= BUFFER_CELLS,
                e == empty_char(),
                before.len() == BUFFER_CELLS,
                self.chars@.len() == BUFFER_CELLS,
                forall|j: int| 0 <= j < last_row ==> self.chars@[j] == before[j + BUFFER_WIDTH],
                forall|j: int| last_row <= j < i ==> self.chars@[j] == empty_char(),
            decreases BUFFER_CELLS - i,
        {
            self.chars.set(i, e);
            i = i + 1;
        }
        proof {
            assert(self.cells() =~= shifted(before));
        }
    }
}

/// Where the ANSI interpreter is within an escape sequence.
#[derive(Debug, Clone, Copy, PartialEq, Eq, Structural)]
pub enum AnsiState {
    Normal,
    Escape,
    Csi,
}

/// Which way to move the cursor.
#[derive(Debug, Clone, Copy, PartialEq, Eq, Structural)]
pub enum CursorMove {
    Left,
    Right,
}

/// What the console shows and where it stands.
pub struct Screen {
    pub cells: Seq<ScreenChar>,
    pub row: int,
    pub col: int,
    pub color: ColorCode,
    pub state: AnsiState,
    /// The bytes of the control sequence read so far.
    pub csi: Seq<u8>,
    pub cursor_row: int,
    pub cursor_col: int,
}

/// The most bytes a control sequence may hold.
pub const CSI_CAPACITY: usize = 16usize;

pub open spec fn screen_wf(s: Screen) -> bool {
    &&& s.cells.len() == BUFFER_CELLS
    &&& 0 <= s.row < BUFFER_HEIGHT
    &&& 0 <= s.col < BUFFER_WIDTH
    &&& 0 <= s.cursor_row < BUFFER_HEIGHT
    &&& 0 <= s.cursor_col < BUFFER_WIDTH
    &&& s.csi.len() <= CSI_CAPACITY
}

/// The cursor put where the next character will be printed.
pub open spec fn synced(s: Screen) -> Screen {
    Screen { cursor_row: s.row, cursor_col: s.col, ..s }
}

/// A line break: the next line, scrolling at the bottom of the screen.
pub open spec fn spec_new_line(s: Screen) -> Screen {
    let s1 = if s.row >= BUFFER_HEIGHT - 1 {
        Screen { cells: shifted(s.cells), ..s }
    } else {
        Screen { row: s.row + 1, ..s }
    };
    synced(Screen { col: 0, ..s1 })
}

/// Prints the byte `b` at the print position and advances it.
pub open spec fn spec_write_byte(s: Screen, b: u8) -> Screen {
    let s1 = if s.col >= BUFFER_WIDTH {
        spec_new_line(s)
    } else {
        s
    };
    let s2 = Screen {
        cells: s1.cells.update(s1.row * BUFFER_WIDTH + s1.col, ScreenChar { ascii_character: b, color_code: s1.color }),
        col: s1.col + 1,
        cursor_row: s1.row,
        cursor_col: s1.col,
        ..s1
    };
    if s2.col >= BUFFER_WIDTH {
        spec_new_line(s2)
    } else {
        synced(s2)
    }
}

/// A blank screen, printing from the top left.
pub open spec fn spec_reset(s: Screen) -> Screen {
    synced(Screen { cells: blank_cells(), col: 0, row: 0, ..s })
}

pub open spec fn with_foreground(s: Screen, c: Color) -> Screen {
    Screen { color: ColorCode(((s.color.0 / 16) * 16 + color_num(c)) as u8), ..s }
}

/// The effect of a complete control sequence: `2J` clears, `0m` restores
/// the colour, `30m` to `37m` set the foreground; others do nothing.
pub open spec fn spec_escape(s: Screen) -> Screen {
    let c = s.csi;
    if c == seq![0x32u8, 0x4au8] {
        spec_reset(s)
    } else if c == seq![0x30u8, 0x6du8] {
        Screen { color: default_color(), ..s }
    } else if c.len() == 3 && c[0] == 0x33u8 && c[2] == 0x6du8 && 0x30u8 <= c[1] <= 0x37u8 {
        with_foreground(
            s,
            if c[1] == 0x30u8 {
                Color::Black
            } else if c[1] == 0x31u8 {
                Color::Red
            } else if c[1] == 0x32u8 {
                Color::Green
            } else if c[1] == 0x33u8 {
                Color::Yellow
            } else if c[1] == 0x34u8 {
                Color::Blue
            } else if c[1] == 0x35u8 {
                Color::Magenta
            } else if c[1] == 0x36u8 {
                Color::Cyan
            } else {
                Color::White
            },
        )
    } else {
        s
    }
}

/// A byte that ends a control sequence.
pub open spec fn is_final_byte(b: u8) -> bool {
    0x40 <= b <= 0x7e
}

/// The console after receiving the byte `b`.
pub open spec fn ansi_step(s: Screen, b: u8) -> Screen {
    match s.state {
        AnsiState::Normal => if b == 0x0a {
            spec_new_line(s)
        } else if 0x20 <= b <= 0x7e {
            spec_write_byte(s, b)
        } else if b == 0x1b {
            Screen { state: AnsiState::Escape, ..s }
        } else {
            spec_write_byte(s, 0xfe)
        },
        AnsiState::Escape => if b == 0x5b {
            Screen { state: AnsiState::Csi, csi: Seq::empty(), ..s }
        } else {
            Screen { state: AnsiState::Normal, ..s }
        },
        AnsiState::Csi => if s.csi.len() < CSI_CAPACITY {
            let s1 = Screen { csi: s.csi.push(b), ..s };
            if is_final_byte(b) {
                Screen { state: AnsiState::Normal, csi: Seq::empty(), ..spec_escape(s1) }
            } else {
                s1
            }
        } else {
            Screen { state: AnsiState::Normal, ..s }
        },
    }
}

/// The cursor-home sequence `ESC [ H`, which this console does not handle:
/// the byte `b` would complete it.
pub open spec fn completes_home(s: Screen, b: u8) -> bool {
    s.state is Csi && s.csi.len() == 0 && b == 0x48
}

/// The console after receiving `bytes` in order.
pub open spec fn ansi_run(s: Screen, bytes: Seq<u8>) -> Screen
    decreases bytes.len(),
{
    if bytes.len() == 0 {
        s
    } else {
        ansi_step(ansi_run(s, bytes.drop_last()), bytes.last())
    }
}

/// No byte of `bytes` completes a cursor-home sequence.
pub open spec fn no_home(s: Screen, bytes: Seq<u8>) -> bool
    decreases bytes.len(),
{
    if bytes.len() == 0 {
        true
    } else {
        no_home(s, bytes.drop_last()) && !completes_home(ansi_run(s, bytes.drop_last()), bytes.last())
    }
}

/// The console.
pub struct Writer {
    column_pos: usize,
    row_pos: usize,
    color_code: ColorCode,
    pub buffer: Buffer,
    ansi_state: AnsiState,
    csi_buf: Vec<u8>,
    cursor_row_pos: usize,
    cursor_col_pos: usize,
}

impl View for Writer {
    type V = Screen;

    closed spec fn view(&self) -> Screen {
        Screen {
            cells: self.buffer.cells(),
            row: self.row_pos as int,
            col: self.column_pos as int,
            color: self.color_code,
            state: self.ansi_state,
            csi: self.csi_buf@,
            cursor_row: self.cursor_row_pos as int,
            cursor_col: self.cursor_col_pos as int,
        }
    }
}

impl Writer {
    pub open spec fn wf(&self) -> bool {
        screen_wf(self@)
    }

    /// A blank console in the default colour.
    pub fn new() -> (r: Writer)
        ensures
            r.wf(),
            r@.cells == blank_cells(),
            r@.row == 0 && r@.col == 0,
            r@.cursor_row == 0 && r@.cursor_col == 0,
            r@.color == default_color(),
            r@.state is Normal,
            r@.csi.len() == 0,
    {
        let mut w = Writer {
            column_pos: 0,
            row_pos: 0,
            color_code: ColorCode::new(Color::Yellow, Color::Black),
            buffer: Buffer::new(),
            ansi_state: AnsiState::Normal,
            csi_buf: Vec::new(),
            cursor_row_pos: 0,
            cursor_col_pos: 0,
        };
        w.reset();
        w
    }

    fn sync_cursor_to_print_pos(&mut self)
        requires
            old(self).wf(),
        ensures
            final(self).wf(),
            final(self)@ == synced(old(self)@),
    {
        self.cursor_row_pos = self.row_pos;
        self.cursor_col_pos = self.column_pos;
    }

    fn new_line(&mut self)
        requires
            old(self).wf() || (old(self).buffer.wf() && old(self).row_pos < BUFFER_HEIGHT && old(self).column_pos
                <= BUFFER_WIDTH && old(self).cursor_row_pos < BUFFER_HEIGHT && old(self).cursor_col_pos
                < BUFFER_WIDTH && old(self).csi_buf@.len() <= CSI_CAPACITY),
        ensures
            final(self).wf(),
            final(self)@ == spec_new_line(old(self)@),
    {
        if self.row_pos >= BUFFER_HEIGHT - 1 {
            self.buffer.shift_lines();
        } else {
            self.row_pos = self.row_pos + 1;
        }
        self.column_pos = 0;
        self.cursor_row_pos = self.row_pos;
        self.cursor_col_pos = self.column_pos;
    }

    fn write_byte(&mut self, byte: u8)
        requires
            old(self).wf(),
        ensures
            final(self).wf(),
            final(self)@ == spec_write_byte(old(self)@, byte),
    {
        if self.column_pos >= BUFFER_WIDTH {
            self.new_line();
        }
        let row = self.row_pos;
        let col = self.column_pos;
        let color_code = self.color_code;
        self.buffer.write_char(row, col, ScreenChar { ascii_character: byte, color_code });
        self.sync_cursor_to_print_pos();
        self.column_pos = self.column_pos + 1;
        if self.column_pos >= BUFFER_WIDTH {
            self.new_line();
        } else {
            self.sync_cursor_to_print_pos();
        }
    }

    /// Runs the control sequence held in the buffer.
    fn execute_escape_code(&mut self)
        requires
            old(self).wf(),
            !(old(self)@.csi == seq![0x48u8]),
        ensures
            final(self).wf(),
            final(self)@ == spec_escape(old(self)@),
    {
        let n = self.csi_buf.len();
        if n == 2 && self.csi_buf[0] == 0x32u8 && self.csi_buf[1] == 0x4au8 {
            proof {
                assert(self@.csi =~= seq![0x32u8, 0x4au8]);
            }
            self.reset();
        } else if n == 2 && self.csi_buf[0] == 0x30u8 && self.csi_buf[1] == 0x6du8 {
            proof {
                assert(self@.csi =~= seq![0x30u8, 0x6du8]);
            }
            self.color_code = ColorCode::new(Color::Yellow, Color::Black);
        } else if n == 3 && self.csi_buf[0] == 0x33u8 && self.csi_buf[2] == 0x6du8 && 0x30u8 <= self.csi_buf[1]
            && self.csi_buf[1] <= 0x37u8 {
            let d = self.csi_buf[1];
            let c = if d == 0x30u8 {
                Color::Black
            } else if d == 0x31u8 {
                Color::Red
            } else if d == 0x32u8 {
                Color::Green
            } else if d == 0x33u8 {
                Color::Yellow
            } else if d == 0x34u8 {
                Color::Blue
            } else if d == 0x35u8 {
                Color::Magenta
            } else if d == 0x36u8 {
                Color::Cyan
            } else {
                Color::White
            };
            proof {
                assert(!(self@.csi =~= seq![0x32u8, 0x4au8]));
                assert(!(self@.csi =~= seq![0x30u8, 0x6du8]));
            }
            self.color_code.set_foreground(c);
        } else {
            proof {
                if self@.csi =~= seq![0x32u8, 0x4au8] {
                    assert(self.csi_buf@[0] == 0x32u8);
                }
                if self@.csi =~= seq![0x30u8, 0x6du8] {
                    assert(self.csi_buf@[0] == 0x30u8);
                }
            }
        }
    }

    /// Feeds one byte to the console: printable bytes are shown, `\n` breaks
    /// the line, `ESC [` starts a control sequence, anything else shows as a
    /// block.
    pub fn write_ansi_byte(&mut self, byte: u8)
        requires
            old(self).wf(),
            !completes_home(old(self)@, byte),
        ensures
            final(self).wf(),
            final(self)@ == ansi_step(old(self)@, byte),
    {
        match self.ansi_state {
            AnsiState::Normal => {
                if byte == 0x0au8 {
                    self.new_line();
                } else if 0x20u8 <= byte && byte <= 0x7eu8 {
                    self.write_byte(byte);
                } else if byte == 0x1bu8 {
                    self.ansi_state = AnsiState::Escape;
                } else {
                    self.write_byte(0xfeu8);
                }
            },
            AnsiState::Escape => {
                if byte == 0x5bu8 {
                    self.ansi_state = AnsiState::Csi;
                    self.csi_buf.clear();
                } else {
                    self.ansi_state = AnsiState::Normal;
                }
            },
            AnsiState::Csi => {
                if self.csi_buf.len() < CSI_CAPACITY {
                    self.csi_buf.push(byte);
                } else {
                    self.ansi_state = AnsiState::Normal;
                    return;
                }
                if 0x40u8 <= byte && byte <= 0x7eu8 {
                    proof {
                        assert(self@.csi == old(self)@.csi.push(byte));
                        if self@.csi =~= seq![0x48u8] {
                            assert(self@.csi.len() == 1);
                            assert(old(self)@.csi.len() == 0);
                            assert(byte == self@.csi[0]);
                            assert(false);
                        }
                        assert(!(self@.csi == seq![0x48u8]));
                    }
                    self.execute_escape_code();
                    self.ansi_state = AnsiState::Normal;
                    self.csi_buf.clear();
                }
            },
        }
    }

    /// Feeds the bytes of `s` to the console in order.
    pub fn write_string(&mut self, s: &str)
        requires
            old(self).wf(),
            no_home(old(self)@, s.spec_bytes()),
        ensures
            final(self).wf(),
            final(self)@ == ansi_run(old(self)@, s.spec_bytes()),
    {
        let bytes = s.as_bytes();
        self.write_bytes(bytes);
    }

    /// Feeds `bytes` to the console in order.
    pub fn write_bytes(&mut self, bytes: &[u8])
        requires
            old(self).wf(),
            no_home(old(self)@, bytes@),
        ensures
            final(self).wf(),
            final(self)@ == ansi_run(old(self)@, bytes@),
    {
        let mut i: usize = 0;
        while i < bytes.len()
            invariant
                self.wf(),
                i <= bytes@.len(),
                no_home(old(self)@, bytes@),
                self@ == ansi_run(old(self)@, bytes@.subrange(0, i as int)),
            decreases bytes@.len() - i,
        {
            proof {
                assert(bytes@.subrange(0, i + 1).drop_last() =~= bytes@.subrange(0, i as int));
                lemma_no_home_prefix(old(self)@, bytes@, i as int + 1);
            }
            self.write_ansi_byte(bytes[i]);
            i = i + 1;
        }
        proof {
            assert(bytes@.subrange(0, bytes@.len() as int) =~= bytes@);
        }
    }

    /// Feeds `bytes` to the console in order, stopping before a byte that
    /// would complete the cursor-home sequence, which the console does not
    /// handle; the result says whether every byte was fed.
    pub fn try_write_bytes(&mut self, bytes: &[u8]) -> (all: bool)
        requires
            old(self).wf(),
        ensures
            final(self).wf(),
            all == no_home(old(self)@, bytes@),
            all ==> final(self)@ == ansi_run(old(self)@, bytes@),
    {
        let mut i: usize = 0;
        while i < bytes.len()
            invariant
                self.wf(),
                i <= bytes@.len(),
                no_home(old(self)@, bytes@.subrange(0, i as int)),
                self@ == ansi_run(old(self)@, bytes@.subrange(0, i as int)),
            decreases bytes@.len() - i,
        {
            let b = bytes[i];
            proof {
                assert(bytes@.subrange(0, i + 1).drop_last() =~= bytes@.subrange(0, i as int));
            }
            let home = match self.ansi_state {
                AnsiState::Csi => self.csi_buf.len() == 0 && b == 0x48u8,
                _ => false,
            };
            if home {
                proof {
                    lemma_no_home_extends(old(self)@, bytes@, i as int + 1);
                }
                return false;
            }
            self.write_ansi_byte(b);
            i = i + 1;
        }
        proof {
            assert(bytes@.subrange(0, bytes@.len() as int) =~= bytes@);
        }
        true
    }

    /// Whether the console can take `bytes`: none of them would complete the
    /// cursor-home sequence. Nothing is written.
    pub fn accepts(&self, bytes: &[u8]) -> (r: bool)
        requires
            self.wf(),
        ensures
            r == no_home(self@, bytes@),
    {
        let mut st = self.ansi_state;
        let mut n = self.csi_buf.len();
        let mut i: usize = 0;
        while i < bytes.len()
            invariant
                i <= bytes@.len(),
                n <= CSI_CAPACITY,
                st == ansi_run(self@, bytes@.subrange(0, i as int)).state,
                n == ansi_run(self@, bytes@.subrange(0, i as int)).csi.len(),
                no_home(self@, bytes@.subrange(0, i as int)),
            decreases bytes@.len() - i,
        {
            let b = bytes[i];
            proof {
                assert(bytes@.subrange(0, i + 1).drop_last() =~= bytes@.subrange(0, i as int));
            }
            let home = match st {
                AnsiState::Csi => n == 0 && b == 0x48u8,
                _ => false,
            };
            if home {
                proof {
                    lemma_no_home_extends(self@, bytes@, i as int + 1);
                }
                return false;
            }
            match st {
                AnsiState::Normal => {
                    if b == 0x1bu8 {
                        st = AnsiState::Escape;
                    }
                },
                AnsiState::Escape => {
                    if b == 0x5bu8 {
                        st = AnsiState::Csi;
                        n = 0;
                    } else {
                        st = AnsiState::Normal;
                    }
                },
                AnsiState::Csi => {
                    if n < CSI_CAPACITY {
                        if 0x40u8 <= b && b <= 0x7eu8 {
                            st = AnsiState::Normal;
                            n = 0;
                        } else {
                            n = n + 1;
                        }
                    } else {
                        st = AnsiState::Normal;
                    }
                },
            }
            i = i + 1;
        }
        proof {
            assert(bytes@.subrange(0, bytes@.len() as int) =~= bytes@);
        }
        true
    }

    pub fn get_row(&self) -> (r: usize)
        ensures
            r == self@.row,
            self.wf() ==> r < BUFFER_HEIGHT,
    {
        self.row_pos
    }

    pub fn get_col(&self) -> (r: usize)
        ensures
            r == self@.col,
            self.wf() ==> r < BUFFER_WIDTH,
    {
        self.column_pos
    }

    pub fn get_color(&self) -> (r: ColorCode)
        ensures
            r == self@.color,
    {
        self.color_code
    }

    /// Erases the character before the print position on this line and
    /// steps back over it; at the start of a line nothing happens.
    pub fn remove_last_char(&mut self)
        requires
            old(self).wf(),
        ensures
            final(self).wf(),
            final(self)@ == if old(self)@.col > 0 {
                Screen {
                    col: old(self)@.col - 1,
                    cells: old(self)@.cells.update(
                        old(self)@.row * BUFFER_WIDTH + old(self)@.col - 1,
                        empty_char(),
                    ),
                    ..old(self)@
                }
            } else {
                old(self)@
            },
    {
        if self.column_pos > 0 {
            self.column_pos = self.column_pos - 1;
            let e = empty_screen_char();
            self.buffer.write_char(self.row_pos, self.column_pos, e);
        }
    }

    fn move_cursor_at(&mut self, row: usize, col: usize)
        requires
            old(self).wf(),
            row < BUFFER_HEIGHT,
            col < BUFFER_WIDTH,
        ensures
            final(self).wf(),
            final(self)@ == (Screen { cursor_row: row as int, cursor_col: col as int, ..old(self)@ }),
    {
        self.cursor_row_pos = row;
        self.cursor_col_pos = col;
    }

    /// Moves the cursor `count` cells along the screen, staying on it.
    pub fn move_cursor_by(&mut self, cursor_move: CursorMove, count: usize)
        requires
            old(self).wf(),
        ensures
            final(self).wf(),
            final(self)@ == moved_cursor(old(self)@, cursor_move, count as int),
    {
        let pos = self.cursor_row_pos * BUFFER_WIDTH + self.cursor_col_pos;
        let max_pos = BUFFER_CELLS - 1;
        let new_pos = match cursor_move {
            CursorMove::Right => {
                let p = pos.saturating_add(count);
                if p < max_pos {
                    p
                } else {
                    max_pos
                }
            },
            CursorMove::Left => pos.saturating_sub(count),
        };
        let new_row = new_pos / BUFFER_WIDTH;
        let new_col = new_pos % BUFFER_WIDTH;
        self.move_cursor_at(new_row, new_col);
    }

    pub fn move_cursor(&mut self, cursor_move: CursorMove)
        requires
            old(self).wf(),
        ensures
            final(self).wf(),
            final(self)@ == moved_cursor(old(self)@, cursor_move, 1),
    {
        self.move_cursor_by(cursor_move, 1);
    }

    /// Blanks the screen and prints from the top left again.
    pub fn reset(&mut self)
        requires
            old(self)@.cells.len() == BUFFER_CELLS,
            old(self)@.csi.len() <= CSI_CAPACITY,
        ensures
            final(self).wf(),
            final(self)@ == spec_reset(old(self)@),
    {
        self.buffer.clear();
        self.column_pos = 0;
        self.row_pos = 0;
        self.cursor_row_pos = 0;
        self.cursor_col_pos = 0;
    }

    /// The cell of the cursor, counted row by row from the top left.
    pub fn cursor_offset(&self) -> (r: u16)
        requires
            self.wf(),
        ensures
            r == self@.cursor_row * BUFFER_WIDTH + self@.cursor_col,
    {
        (self.cursor_row_pos * BUFFER_WIDTH + self.cursor_col_pos) as u16
    }
}

/// The cell offset of the cursor.
pub open spec fn cursor_pos(s: Screen) -> int {
    s.cursor_row * BUFFER_WIDTH + s.cursor_col
}

/// The cursor moved `count` cells, clamped to the screen.
pub open spec fn moved_cursor(s: Screen, m: CursorMove, count: int) -> Screen {
    let pos = cursor_pos(s);
    let new_pos = match m {
        CursorMove::Right => if pos + count < BUFFER_CELLS - 1 {
            pos + count
        } else {
            BUFFER_CELLS - 1
        },
        CursorMove::Left => if pos - count > 0 {
            pos - count
        } else {
            0
        },
    };
    Screen { cursor_row: new_pos / BUFFER_WIDTH as int, cursor_col: new_pos % BUFFER_WIDTH as int, ..s }
}

/// Whatever byte arrives, the print position and the cursor stay on the
/// screen: a line break on the last row scrolls instead of moving down, and
/// writing into the last column starts a new line at once.
pub proof fn lemma_step_stays_on_screen(s: Screen, b: u8)
    requires
        screen_wf(s),
    ensures
        screen_wf(ansi_step(s, b)),
{
    if s.state is Normal && b != 0x0a && 0x20 <= b <= 0x7e {
        lemma_write_byte_stays_on_screen(s, b);
    } else if s.state is Normal && b != 0x0a && b != 0x1b {
        lemma_write_byte_stays_on_screen(s, 0xfe);
    }
}

proof fn lemma_write_byte_stays_on_screen(s: Screen, b: u8)
    requires
        screen_wf(s),
    ensures
        screen_wf(spec_write_byte(s, b)),
{
    let s2 = Screen {
        cells: s.cells.update(s.row * BUFFER_WIDTH + s.col, ScreenChar { ascii_character: b, color_code: s.color }),
        col: s.col + 1,
        cursor_row: s.row,
        cursor_col: s.col,
        ..s
    };
    assert(0 <= s.row * BUFFER_WIDTH + s.col < BUFFER_CELLS) by (nonlinear_arith)
        requires
            0 <= s.row < BUFFER_HEIGHT,
            0 <= s.col < BUFFER_WIDTH,
    ;
    assert(s2.cells.len() == BUFFER_CELLS);
}

/// Over any run of bytes the print position and the cursor stay on the
/// screen: every writer operation is such a run (or a reset, or a cursor
/// move clamped to the screen), so no sequence of them leaves the buffer.
pub proof fn lemma_run_stays_on_screen(s: Screen, bytes: Seq<u8>)
    requires
        screen_wf(s),
    ensures
        screen_wf(ansi_run(s, bytes)),
        0 <= ansi_run(s, bytes).row < BUFFER_HEIGHT,
        0 <= ansi_run(s, bytes).col < BUFFER_WIDTH,
    decreases bytes.len(),
{
    if bytes.len() > 0 {
        lemma_run_stays_on_screen(s, bytes.drop_last());
        lemma_step_stays_on_screen(ansi_run(s, bytes.drop_last()), bytes.last());
    }
}

/// `ESC [ 3 d m`, for an ANSI colour digit `d` from 0 to 7, sets the
/// foreground to that colour: black, red, green, yellow, blue, magenta,
/// cyan, white, whose hardware numbers are 0, 4, 2, 14, 1, 5, 3, 15. The
/// background, the text and the print position stay as they were.
pub proof fn lemma_foreground_sequence(s: Screen, d: u8)
    requires
        s.state is Normal,
        d < 8,
    ensures
        ({
            let t = ansi_run(s, seq![0x1bu8, 0x5bu8, 0x33u8, (0x30 + d) as u8, 0x6du8]);
            &&& t.color.0 % 16 == seq![0u8, 4u8, 2u8, 14u8, 1u8, 5u8, 3u8, 15u8][d as int]
            &&& t.color.0 / 16 == s.color.0 / 16
            &&& t.cells == s.cells
            &&& t.row == s.row && t.col == s.col
            &&& t.state is Normal
        }),
{
    let b = seq![0x1bu8, 0x5bu8, 0x33u8, (0x30 + d) as u8, 0x6du8];
    assert(b.drop_last() =~= seq![0x1bu8, 0x5bu8, 0x33u8, (0x30 + d) as u8]);
    assert(b.drop_last().drop_last() =~= seq![0x1bu8, 0x5bu8, 0x33u8]);
    assert(b.drop_last().drop_last().drop_last() =~= seq![0x1bu8, 0x5bu8]);
    assert(b.drop_last().drop_last().drop_last().drop_last() =~= seq![0x1bu8]);
    assert(b.drop_last().drop_last().drop_last().drop_last().drop_last() =~= Seq::<u8>::empty());
    assert(seq![0x1bu8].drop_last() =~= Seq::<u8>::empty());
    assert(seq![0x1bu8, 0x5bu8].drop_last() =~= seq![0x1bu8]);
    assert(seq![0x1bu8, 0x5bu8, 0x33u8].drop_last() =~= seq![0x1bu8, 0x5bu8]);
    assert(seq![0x1bu8, 0x5bu8, 0x33u8, (0x30 + d) as u8].drop_last() =~= seq![0x1bu8, 0x5bu8, 0x33u8]);
    assert(ansi_run(s, Seq::<u8>::empty()) == s);
    let s1 = ansi_run(s, seq![0x1bu8]);
    assert(s1 == ansi_step(s, 0x1bu8));
    let s2 = ansi_run(s, seq![0x1bu8, 0x5bu8]);
    assert(s2 == ansi_step(s1, 0x5bu8));
    assert(s2.state is Csi && s2.csi.len() == 0);
    let s3 = ansi_run(s, seq![0x1bu8, 0x5bu8, 0x33u8]);
    assert(s3 == ansi_step(s2, 0x33u8));
    assert(s3.csi =~= seq![0x33u8]);
    let s4 = ansi_run(s, seq![0x1bu8, 0x5bu8, 0x33u8, (0x30 + d) as u8]);
    assert(s4 == ansi_step(s3, (0x30 + d) as u8));
    assert(s4.csi =~= seq![0x33u8, (0x30 + d) as u8]);
    let t = ansi_run(s, b);
    assert(t == ansi_step(s4, 0x6du8));
    let full = Screen { csi: s4.csi.push(0x6du8), ..s4 };
    assert(full.csi =~= seq![0x33u8, (0x30 + d) as u8, 0x6du8]);
    assert(full.csi != seq![0x32u8, 0x4au8]);
    assert(full.csi != seq![0x30u8, 0x6du8]) by {
        assert(full.csi[0] != 0x30u8);
    }
    let c = s.color.0;
    assert(t.color.0 / 16 == c / 16 && t.color.0 % 16 == seq![0u8, 4u8, 2u8, 14u8, 1u8, 5u8, 3u8, 15u8][d as int]) by {
        let n = seq![0u8, 4u8, 2u8, 14u8, 1u8, 5u8, 3u8, 15u8][d as int];
        assert(t.color.0 == ((c / 16) * 16 + n) as u8);
        assert(((c / 16) * 16 + n) % 16 == n && ((c / 16) * 16 + n) / 16 == c / 16 && (c / 16) * 16 + n < 256)
            by (nonlinear_arith)
            requires
                n < 16,
                c < 256,
        ;
    }
}

/// `ESC [ 0 m` restores the default colours: yellow (14) on black (0),
/// attribute byte `0x0e`. The text and the print position stay as they were.
pub proof fn lemma_reset_colour_sequence(s: Screen)
    requires
        s.state is Normal,
    ensures
        ({
            let t = ansi_run(s, seq![0x1bu8, 0x5bu8, 0x30u8, 0x6du8]);
            &&& t.color.0 == 0x0eu8
            &&& t.cells == s.cells
            &&& t.row == s.row && t.col == s.col
            &&& t.state is Normal
        }),
{
    let b = seq![0x1bu8, 0x5bu8, 0x30u8, 0x6du8];
    assert(b.drop_last() =~= seq![0x1bu8, 0x5bu8, 0x30u8]);
    assert(seq![0x1bu8, 0x5bu8, 0x30u8].drop_last() =~= seq![0x1bu8, 0x5bu8]);
    assert(seq![0x1bu8, 0x5bu8].drop_last() =~= seq![0x1bu8]);
    assert(seq![0x1bu8].drop_last() =~= Seq::<u8>::empty());
    assert(ansi_run(s, Seq::<u8>::empty()) == s);
    let s1 = ansi_run(s, seq![0x1bu8]);
    assert(s1 == ansi_step(s, 0x1bu8));
    let s2 = ansi_run(s, seq![0x1bu8, 0x5bu8]);
    assert(s2 == ansi_step(s1, 0x5bu8));
    let s3 = ansi_run(s, seq![0x1bu8, 0x5bu8, 0x30u8]);
    assert(s3 == ansi_step(s2, 0x30u8));
    assert(s3.csi =~= seq![0x30u8]);
    let t = ansi_run(s, b);
    assert(t == ansi_step(s3, 0x6du8));
    assert(s3.csi.push(0x6du8) =~= seq![0x30u8, 0x6du8]);
}

/// `ESC [ 2 J` blanks the screen and sends printing and the cursor to the top left.
pub proof fn lemma_clear_sequence(s: Screen)
    requires
        s.state == AnsiState::Normal,
        s.csi.len() <= CSI_CAPACITY,
    ensures
        ({
            let t = ansi_run(s, seq![0x1bu8, 0x5bu8, 0x32u8, 0x4au8]);
            &&& t.cells == blank_cells()
            &&& t.row == 0 && t.col == 0
            &&& t.cursor_row == 0 && t.cursor_col == 0
            &&& t.state == AnsiState::Normal
            &&& t.color == s.color
        }),
{
    let bytes = seq![0x1bu8, 0x5bu8, 0x32u8, 0x4au8];
    assert(bytes.drop_last() =~= seq![0x1bu8, 0x5bu8, 0x32u8]);
    assert(bytes.drop_last().drop_last() =~= seq![0x1bu8, 0x5bu8]);
    assert(bytes.drop_last().drop_last().drop_last() =~= seq![0x1bu8]);
    assert(bytes.drop_last().drop_last().drop_last().drop_last() =~= Seq::<u8>::empty());
    assert(seq![0x1bu8].drop_last() =~= Seq::<u8>::empty());
    assert(seq![0x1bu8, 0x5bu8].drop_last() =~= seq![0x1bu8]);
    assert(seq![0x1bu8, 0x5bu8, 0x32u8].drop_last() =~= seq![0x1bu8, 0x5bu8]);
    assert(ansi_run(s, Seq::<u8>::empty()) == s);
    let s1 = ansi_run(s, seq![0x1bu8]);
    assert(s1 == ansi_step(s, 0x1bu8));
    let s2 = ansi_run(s, seq![0x1bu8, 0x5bu8]);
    assert(s2 == ansi_step(s1, 0x5bu8));
    assert(s2.state == AnsiState::Csi && s2.csi == Seq::<u8>::empty());
    let s3 = ansi_run(s, seq![0x1bu8, 0x5bu8, 0x32u8]);
    assert(s3 == ansi_step(s2, 0x32u8));
    assert(s3.csi =~= seq![0x32u8]);
    let s4 = ansi_run(s, bytes);
    assert(s4 == ansi_step(s3, 0x4au8));
    assert(s3.csi.push(0x4au8) =~= seq![0x32u8, 0x4au8]);
}

/// A printable byte lands in the cell at the print position, in the current
/// colour, when the line has room after it.
pub proof fn lemma_printable_lands(s: Screen, b: u8)
    requires
        screen_wf(s),
        s.state == AnsiState::Normal,
        0x20 <= b <= 0x7e,
        s.col + 1 < BUFFER_WIDTH,
    ensures
        ansi_step(s, b).cells[s.row * BUFFER_WIDTH + s.col] == (ScreenChar { ascii_character: b, color_code: s.color }),
        ansi_step(s, b).row == s.row,
        ansi_step(s, b).col == s.col + 1,
{
}

/// Moving the cursor right and back left by the same count returns it where
/// it was, as long as the move right stays on the screen.
pub proof fn lemma_cursor_right_left(s: Screen, count: int)
    requires
        0 <= cursor_pos(s),
        0 <= count,
        cursor_pos(s) + count < BUFFER_CELLS - 1,
    ensures
        cursor_pos(moved_cursor(moved_cursor(s, CursorMove::Right, count), CursorMove::Left, count)) == cursor_pos(s),
{
    let p = cursor_pos(s) + count;
    let r = moved_cursor(s, CursorMove::Right, count);
    vstd::arithmetic::div_mod::lemma_fundamental_div_mod(p, BUFFER_WIDTH as int);
    assert(cursor_pos(r) == p);
    let q = p - count;
    let l = moved_cursor(r, CursorMove::Left, count);
    vstd::arithmetic::div_mod::lemma_fundamental_div_mod(q, BUFFER_WIDTH as int);
    if q > 0 {
        assert(cursor_pos(l) == q);
    } else {
        vstd::arithmetic::div_mod::lemma_fundamental_div_mod(0, BUFFER_WIDTH as int);
        assert(cursor_pos(l) == 0);
    }
}

/// A home sequence completed by the `k`-th byte spoils every longer run.
proof fn lemma_no_home_extends(s: Screen, bytes: Seq<u8>, k: int)
    requires
        0 < k <= bytes.len(),
        completes_home(ansi_run(s, bytes.subrange(0, k - 1)), bytes[k - 1]),
    ensures
        !no_home(s, bytes),
    decreases bytes.len() - k,
{
    if k == bytes.len() {
        assert(bytes.drop_last() =~= bytes.subrange(0, k - 1));
    } else {
        assert(bytes.drop_last().subrange(0, k - 1) =~= bytes.subrange(0, k - 1));
        lemma_no_home_extends(s, bytes.drop_last(), k);
    }
}

proof fn lemma_no_home_prefix(s: Screen, bytes: Seq<u8>, k: int)
    requires
        0 < k <= bytes.len(),
        no_home(s, bytes),
    ensures
        !completes_home(ansi_run(s, bytes.subrange(0, k - 1)), bytes[k - 1]),
    decreases bytes.len() - k,
{
    if k == bytes.len() {
        assert(bytes.drop_last() =~= bytes.subrange(0, k - 1));
    } else {
        assert(bytes.drop_last().subrange(0, k - 1) =~= bytes.subrange(0, k - 1));
        lemma_no_home_prefix(s, bytes.drop_last(), k);
    }
}

} // verus!
