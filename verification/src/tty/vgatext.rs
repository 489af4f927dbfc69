//! The display itself: palette, attribute byte, character cell, the layout of
//! the cells in video memory and the registers that set the device up.

use crate::memio::{
    cast_slice, flat, lemma_flat_index, lemma_flat_len, mmio_inb, mmio_outb, stores, vmemset,
    vmemwrite, vwrite, Access, Pod,
};
use vstd::prelude::*;

verus! {

/// The sixteen colors of the text-mode palette.
#[derive(Clone, Copy, Debug, Hash, PartialEq, Eq, Structural)]
pub enum Color {
    Black,
    Blue,
    Green,
    Cyan,
    Red,
    Magenta,
    Brown,
    LightGray,
    Gray,
    LightBlue,
    LightGreen,
    LightCyan,
    LightRed,
    Pink,
    Yellow,
    White,
}

impl Color {
    /// The palette index of the color, a four-bit value.
    pub open spec fn index(self) -> u8 {
        match self {
            Color::Black => 0x0,
            Color::Blue => 0x1,
            Color::Green => 0x2,
            Color::Cyan => 0x3,
            Color::Red => 0x4,
            Color::Magenta => 0x5,
            Color::Brown => 0x6,
            Color::LightGray => 0x7,
            Color::Gray => 0x8,
            Color::LightBlue => 0x9,
            Color::LightGreen => 0xa,
            Color::LightCyan => 0xb,
            Color::LightRed => 0xc,
            Color::Pink => 0xd,
            Color::Yellow => 0xe,
            Color::White => 0xf,
        }
    }

    /// The palette index of the color.
    pub fn code(self) -> (c: u8)
        ensures
            c == self.index(),
            c < 16,
    {
        match self {
            Color::Black => 0x0,
            Color::Blue => 0x1,
            Color::Green => 0x2,
            Color::Cyan => 0x3,
            Color::Red => 0x4,
            Color::Magenta => 0x5,
            Color::Brown => 0x6,
            Color::LightGray => 0x7,
            Color::Gray => 0x8,
            Color::LightBlue => 0x9,
            Color::LightGreen => 0xa,
            Color::LightCyan => 0xb,
            Color::LightRed => 0xc,
            Color::Pink => 0xd,
            Color::Yellow => 0xe,
            Color::White => 0xf,
        }
    }

    /// The color with palette index `i`, for `i` below sixteen.
    pub open spec fn at(i: int) -> Color {
        if i == 0x0 {
            Color::Black
        } else if i == 0x1 {
            Color::Blue
        } else if i == 0x2 {
            Color::Green
        } else if i == 0x3 {
            Color::Cyan
        } else if i == 0x4 {
            Color::Red
        } else if i == 0x5 {
            Color::Magenta
        } else if i == 0x6 {
            Color::Brown
        } else if i == 0x7 {
            Color::LightGray
        } else if i == 0x8 {
            Color::Gray
        } else if i == 0x9 {
            Color::LightBlue
        } else if i == 0xa {
            Color::LightGreen
        } else if i == 0xb {
            Color::LightCyan
        } else if i == 0xc {
            Color::LightRed
        } else if i == 0xd {
            Color::Pink
        } else if i == 0xe {
            Color::Yellow
        } else {
            Color::White
        }
    }

    /// The color with palette index `c`. There are only sixteen colors: a
    /// larger `c` names none.
    pub fn from(c: u8) -> (color: Color)
        requires
            c < 16,
        ensures
            color == Color::at(c as int),
            color.index() == c,
    {
        match c {
            0x0 => Color::Black,
            0x1 => Color::Blue,
            0x2 => Color::Green,
            0x3 => Color::Cyan,
            0x4 => Color::Red,
            0x5 => Color::Magenta,
            0x6 => Color::Brown,
            0x7 => Color::LightGray,
            0x8 => Color::Gray,
            0x9 => Color::LightBlue,
            0xa => Color::LightGreen,
            0xb => Color::LightCyan,
            0xc => Color::LightRed,
            0xd => Color::Pink,
            0xe => Color::Yellow,
            _ => Color::White,
        }
    }
}

/// Palette index and color correspond one to one.
pub proof fn lemma_color_index(color: Color, i: int)
    ensures
        color.index() < 16,
        Color::at(color.index() as int) == color,
        0 <= i < 16 ==> Color::at(i).index() == i,
{
}

/// An attribute byte: background color in the high four bits, foreground
/// color in the low four.
#[derive(Clone, Copy, Debug, Hash, PartialEq, Eq, Structural)]
pub struct TextColor(pub u8);

impl TextColor {
    /// The attribute byte of `fore` on `back`.
    pub open spec fn packed(fore: Color, back: Color) -> TextColor {
        TextColor((back.index() * 16 + fore.index()) as u8)
    }

    /// The foreground color that the attribute names.
    pub open spec fn foreground(self) -> Color {
        Color::at(self.0 as int % 16)
    }

    /// The background color that the attribute names.
    pub open spec fn background(self) -> Color {
        Color::at(self.0 as int / 16)
    }

    /// The attribute of `fore` on `back`. Taking it apart again gives `fore`
    /// and `back`.
    pub fn new(fore: Color, back: Color) -> (tc: TextColor)
        ensures
            tc == TextColor::packed(fore, back),
            tc.foreground() == fore,
            tc.background() == back,
    {
        let b: u8 = back.code();
        let f: u8 = fore.code();
        assert((b << 4) | f == b * 16 + f) by (bit_vector)
            requires
                b < 16,
                f < 16,
        ;
        TextColor((b << 4) | f)
    }

    /// White on black, the color a console starts with.
    #[verifier::allow_in_spec]
    pub fn default() -> TextColor
        returns
            TextColor(0x0f),
    {
        Self::new(Color::White, Color::Black)
    }

    /// `c` on black.
    pub fn from_fore(c: Color) -> (tc: TextColor)
        ensures
            tc == TextColor::packed(c, Color::Black),
            tc.foreground() == c,
            tc.background() == Color::Black,
    {
        Self::new(c, Color::Black)
    }

    /// White on `c`.
    pub fn from_back(c: Color) -> (tc: TextColor)
        ensures
            tc == TextColor::packed(Color::White, c),
            tc.foreground() == Color::White,
            tc.background() == c,
    {
        Self::new(Color::White, c)
    }

    /// The foreground color.
    pub fn fore(&self) -> (color: Color)
        ensures
            color == self.foreground(),
    {
        let bits: u8 = self.0;
        assert(bits & 0x0f == bits % 16) by (bit_vector);
        Color::from(bits & 0x0f)
    }

    /// The background color.
    pub fn back(&self) -> (color: Color)
        ensures
            color == self.background(),
    {
        let bits: u8 = self.0;
        assert(bits >> 4 == bits / 16) by (bit_vector);
        Color::from(bits >> 4)
    }
}

/// An attribute byte taken apart names the two colors it was made of; put
/// together again it is the same byte.
pub proof fn lemma_text_color_round_trip(fore: Color, back: Color, tc: TextColor)
    ensures
        TextColor::packed(fore, back).foreground() == fore,
        TextColor::packed(fore, back).background() == back,
        TextColor::packed(tc.foreground(), tc.background()) == tc,
{
    lemma_color_index(fore, 0);
    lemma_color_index(back, 0);
    lemma_color_index(tc.foreground(), tc.0 as int % 16);
    lemma_color_index(tc.background(), tc.0 as int / 16);
}

impl From<TextColor> for u8 {
    fn from(b: TextColor) -> (bits: u8) {
        b.0
    }
}

impl vstd::std_specs::convert::FromSpecImpl<TextColor> for u8 {
    open spec fn obeys_from_spec() -> bool {
        true
    }

    open spec fn from_spec(b: TextColor) -> u8 {
        b.0
    }
}

impl Pod for TextColor {
    open spec fn size() -> nat {
        1
    }

    open spec fn bytes(&self) -> Seq<u8> {
        seq![self.0]
    }

    proof fn lemma_size(&self) {
    }

    fn put_bytes(&self, out: &mut Vec<u8>) {
        out.push(self.0);
        assert(out@ =~= old(out)@ + self.bytes());
    }
}

/// The line feed. It never stands in a cell: it moves the place of writing.
pub const NEWLINE: u8 = 0x0a;

/// The space character.
pub const SPACE: u8 = 0x20;

/// One cell of the display: a character of code page 437 and its attribute,
/// laid out as the device has them, character first.
#[derive(Clone, Copy, Debug, Hash, PartialEq, Eq, Structural)]
pub struct Character {
    pub ascii: u8,
    pub color: TextColor,
}

impl Character {
    /// The cell that shows `ascii` in `color`.
    #[verifier::allow_in_spec]
    pub fn new(ascii: u8, color: TextColor) -> Character
        returns
            (Character { ascii, color }),
    {
        Character { ascii, color }
    }

    /// The cell that shows `ascii` white on black.
    #[verifier::allow_in_spec]
    pub fn from_ascii(ascii: u8) -> Character
        returns
            (Character { ascii, color: TextColor(0x0f) }),
    {
        Character { ascii, color: TextColor::default() }
    }

    /// The blank cell: a space, black on black.
    #[verifier::allow_in_spec]
    pub fn blank() -> Character
        returns
            (Character { ascii: 0x20, color: TextColor(0x00) }),
    {
        Character { ascii: SPACE, color: TextColor::new(Color::Black, Color::Black) }
    }

    /// The attribute of the cell.
    #[verifier::allow_in_spec]
    pub fn color(&self) -> TextColor
        returns
            self.color,
    {
        self.color
    }

    /// The character of the cell.
    #[verifier::allow_in_spec]
    pub fn ascii(&self) -> u8
        returns
            self.ascii,
    {
        self.ascii
    }
}

impl From<u8> for Character {
    fn from(c: u8) -> (cell: Character) {
        Character::from_ascii(c)
    }
}

impl vstd::std_specs::convert::FromSpecImpl<u8> for Character {
    open spec fn obeys_from_spec() -> bool {
        true
    }

    open spec fn from_spec(c: u8) -> Character {
        Character { ascii: c, color: TextColor(0x0f) }
    }
}

impl Pod for Character {
    open spec fn size() -> nat {
        2
    }

    open spec fn bytes(&self) -> Seq<u8> {
        seq![self.ascii, self.color.0]
    }

    proof fn lemma_size(&self) {
    }

    fn put_bytes(&self, out: &mut Vec<u8>) {
        out.push(self.ascii);
        out.push(self.color.0);
        assert(out@ =~= old(out)@ + self.bytes());
    }
}

/// The cells that show `text`, all in `color`.
pub open spec fn colored(text: Seq<u8>, color: TextColor) -> Seq<Character> {
    Seq::new(text.len(), |i: int| Character { ascii: text[i], color })
}

/// The bytes of a run of cells as they stand in video memory: for each cell
/// its character, then its attribute.
pub open spec fn cell_bytes(cells: Seq<Character>) -> Seq<u8> {
    Seq::new(
        2 * cells.len(),
        |i: int|
            if i % 2 == 0 {
                cells[i / 2].ascii
            } else {
                cells[i / 2].color.0
            },
    )
}

/// The layout of cells is that of their bytes one after the other.
pub proof fn lemma_cell_bytes(cells: Seq<Character>)
    ensures
        flat(cells) == cell_bytes(cells),
{
    lemma_flat_len(cells);
    assert forall|k: int| 0 <= k < 2 * cells.len() implies flat(cells)[k] == cell_bytes(cells)[k] by {
        let i = k / 2;
        let j = k % 2;
        lemma_flat_index(cells, i, j);
    }
    assert(flat(cells) =~= cell_bytes(cells));
}

/// Rows of the display.
pub const HEIGHT: usize = 25;

/// Columns of the display.
pub const WIDTH: usize = 80;

/// Cells of the display, `WIDTH * HEIGHT`.
pub const CELLS: usize = 2000;

/// Physical address of the first cell.
pub const VIDEO_MEMORY: u64 = 0xb8000;

/// Whether `pos`, a column and a row, names a cell of the display.
pub open spec fn on_screen(pos: (usize, usize)) -> bool {
    pos.0 < WIDTH && pos.1 < HEIGHT
}

/// The place of the cell at column `pos.0` of row `pos.1`, counted row by row.
pub open spec fn cell_index(pos: (usize, usize)) -> int {
    pos.0 + pos.1 * WIDTH
}

/// The physical address of the cell at column `pos.0` of row `pos.1`.
pub open spec fn cell_address(pos: (usize, usize)) -> int {
    VIDEO_MEMORY + cell_index(pos) * 2
}

/// Whether `len` cells from `pos` onwards lie on the display.
pub open spec fn run_on_screen(pos: (usize, usize), len: int) -> bool {
    on_screen(pos) && cell_index(pos) + len <= CELLS
}

/// The accesses that begin setting the device up. The first two hide the
/// hardware cursor. Reading the status register then makes the device take
/// the next byte sent to 0x3C0 as an index; the index selects the attribute
/// mode register, and the last access reads that register.
pub open spec fn setup_accesses() -> Seq<Access> {
    seq![
        Access::Out { port: 0x3D4, value: 0x0A },
        Access::Out { port: 0x3D5, value: 0x20 },
        Access::In { port: 0x3DA },
        Access::Out { port: 0x3C0, value: 0x30 },
        Access::In { port: 0x3C1 },
    ]
}

/// First part of setting the device up: the accesses that hide the hardware
/// cursor, select the attribute mode register and read it.
///
/// The byte that the last access returns goes to `vga_init_finish`.
pub fn vga_init() -> (accesses: Vec<Access>)
    ensures
        accesses@ == setup_accesses(),
{
    let mut accesses: Vec<Access> = Vec::new();
    accesses.push(mmio_outb(0x3D4, 0x0A));
    accesses.push(mmio_outb(0x3D5, 0x20));
    accesses.push(mmio_inb(0x3DA));
    accesses.push(mmio_outb(0x3C0, 0x30));
    accesses.push(mmio_inb(0x3C1));
    assert(accesses@ =~= setup_accesses());
    accesses
}

/// Second part of setting the device up: the access that writes the attribute
/// mode register back with bit 3, which makes characters blink, cleared.
/// `mode` is the byte that the last access of `vga_init` returned.
pub fn vga_init_finish(mode: u8) -> (accesses: Vec<Access>)
    ensures
        accesses@ == seq![Access::Out { port: 0x3C0, value: mode & 0xF7 }],
{
    let mut accesses: Vec<Access> = Vec::new();
    accesses.push(mmio_outb(0x3C0, mode & 0xF7));
    assert(accesses@ =~= seq![Access::Out { port: 0x3C0, value: mode & 0xF7 }]);
    accesses
}

/// Whether column `pos.0` of row `pos.1` is a cell of the display.
pub fn valid_pos(pos: (usize, usize)) -> (valid: bool)
    ensures
        valid == on_screen(pos),
{
    pos.0 < WIDTH && pos.1 < HEIGHT
}

/// The stores that show the cells of `src` from `pos` onwards. The run goes
/// on into the next row where a row ends.
pub fn write_at(pos: (usize, usize), src: &[Character]) -> (accesses: Vec<Access>)
    requires
        run_on_screen(pos, src@.len() as int),
    ensures
        accesses@ == stores(cell_address(pos), cell_bytes(src@)),
{
    let bytes = cast_slice(src);
    proof {
        lemma_cell_bytes(src@);
    }
    let accesses = vmemwrite(
        VIDEO_MEMORY + ((pos.0 + pos.1 * WIDTH) * 2) as u64,
        bytes.as_slice(),
        src.len() * 2,
    );
    assert(bytes@.take(src@.len() * 2 as int) =~= bytes@);
    accesses
}

/// The stores that show the characters of `src`, all in `color`, from `pos`
/// onwards.
pub fn write_color_at(pos: (usize, usize), src: &[u8], color: TextColor) -> (accesses: Vec<Access>)
    requires
        run_on_screen(pos, src@.len() as int),
    ensures
        accesses@ == stores(cell_address(pos), cell_bytes(colored(src@, color))),
{
    let base: u64 = VIDEO_MEMORY + ((pos.0 + pos.1 * WIDTH) * 2) as u64;
    let attribute: u8 = color.into();
    let ghost cells = colored(src@, color);
    let mut accesses: Vec<Access> = Vec::new();
    let mut i: usize = 0;
    while i < src.len()
        invariant
            i <= src@.len(),
            run_on_screen(pos, src@.len() as int),
            base == cell_address(pos),
            attribute == color.0,
            cells == colored(src@, color),
            accesses@ == stores(base as int, cell_bytes(cells.take(i as int))),
        decreases src.len() - i,
    {
        accesses.push(Access::Write { address: base + (2 * i) as u64, value: src[i] });
        accesses.push(Access::Write { address: base + (2 * i + 1) as u64, value: attribute });
        i += 1;
        assert(accesses@ =~= stores(base as int, cell_bytes(cells.take(i as int))));
    }
    assert(cells.take(i as int) =~= cells);
    accesses
}

/// The stores that show `char` at `pos`.
pub fn writechar(pos: (usize, usize), char: Character) -> (accesses: Vec<Access>)
    requires
        on_screen(pos),
    ensures
        accesses@ == stores(cell_address(pos), seq![char.ascii, char.color.0]),
{
    vwrite(VIDEO_MEMORY + ((pos.0 + pos.1 * WIDTH) * 2) as u64, &char)
}

/// The stores that zero all of video memory, characters and attributes alike.
pub fn reset() -> (accesses: Vec<Access>)
    ensures
        accesses@ == stores(VIDEO_MEMORY as int, Seq::new(2 * CELLS as nat, |i: int| 0u8)),
{
    vmemset(VIDEO_MEMORY, 0, WIDTH * HEIGHT * 2)
}

} // verus!
