//! How numbers are packed into GPU command words.
//!
//! The layouts are those of the console's GPU. Numbers are taken to be in the
//! range of their fields; what a field does not hold is not looked at here.

use vstd::prelude::*;

verus! {

/// The two's complement bit pattern of a 16-bit number.
pub open spec fn pattern16(x: i16) -> int {
    if x < 0 {
        x + 0x1_0000
    } else {
        x as int
    }
}

/// The 16-bit number with the low 16 bits of `x`.
pub open spec fn wrapped16(x: int) -> i16 {
    if x % 0x1_0000 < 0x8000 {
        (x % 0x1_0000) as i16
    } else {
        (x % 0x1_0000 - 0x1_0000) as i16
    }
}

/// Blue, green and red from bit 16, 8 and 0 on.
pub open spec fn color_word(r: u8, g: u8, b: u8) -> u32 {
    (r + 0x100 * g + 0x1_0000 * b) as u32
}

/// A vertex: the vertical coordinate in the upper half, the horizontal one in
/// the lower.
pub open spec fn vertex_word(x: i16, y: i16) -> u32 {
    (pattern16(x) + 0x1_0000 * pattern16(y)) as u32
}

/// A size: the height in the upper half, the width in the lower.
pub open spec fn size_word(w: u16, h: u16) -> u32 {
    (w + 0x1_0000 * h) as u32
}

/// A texture coordinate with what rides in its upper half.
pub open spec fn texcoord_word(u: u8, v: u8, high: u16) -> u32 {
    (u + 0x100 * v + 0x1_0000 * high) as u32
}

/// One if set.
pub open spec fn flag(on: bool) -> int {
    if on {
        1
    } else {
        0
    }
}

/// The command of a polygon: Gouraud-shaded, with four corners, textured,
/// semi-transparent, with unmodulated texels.
pub open spec fn polygon_command(
    gouraud: bool,
    quad: bool,
    textured: bool,
    semi_transparent: bool,
    raw: bool,
) -> u32 {
    (0x2000_0000 + flag(gouraud) * 0x1000_0000 + flag(quad) * 0x0800_0000 + flag(textured)
        * 0x0400_0000 + flag(semi_transparent) * 0x0200_0000 + flag(raw) * 0x0100_0000) as u32
}

pub(crate) fn to_pattern16(x: i16) -> (p: u32)
    ensures
        p == pattern16(x),
        p < 0x1_0000,
{
    if x < 0 {
        (x as i32 + 0x1_0000) as u32
    } else {
        x as u32
    }
}

pub(crate) fn to_wrapped16(x: i32) -> (w: i16)
    ensures
        w == wrapped16(x as int),
{
    let wide = x as i64 + 0x1_0000_0000;
    let low = (wide as u64 % 0x1_0000) as i32;
    if low < 0x8000 {
        low as i16
    } else {
        (low - 0x1_0000) as i16
    }
}

/// Pack a colour.
pub fn pack_color(r: u8, g: u8, b: u8) -> (word: u32)
    ensures
        word == color_word(r, g, b),
        word < 0x100_0000,
{
    r as u32 + 0x100 * (g as u32) + 0x1_0000 * (b as u32)
}

/// Pack a vertex.
pub fn pack_vertex(x: i16, y: i16) -> (word: u32)
    ensures
        word == vertex_word(x, y),
{
    to_pattern16(x) + 0x1_0000 * to_pattern16(y)
}

/// Pack a size.
pub fn pack_xy(w: u16, h: u16) -> (word: u32)
    ensures
        word == size_word(w, h),
{
    w as u32 + 0x1_0000 * (h as u32)
}

/// Pack a texture coordinate with what rides in its upper half: a CLUT with the
/// first vertex, a texture page with the second.
pub fn pack_texcoord(u: u8, v: u8, high: u16) -> (word: u32)
    ensures
        word == texcoord_word(u, v, high),
{
    u as u32 + 0x100 * (v as u32) + 0x1_0000 * (high as u32)
}

/// The command of a polygon.
pub fn polygon_opcode(
    gouraud: bool,
    quad: bool,
    textured: bool,
    semi_transparent: bool,
    raw: bool,
) -> (word: u32)
    ensures
        word == polygon_command(gouraud, quad, textured, semi_transparent, raw),
        word % 0x100_0000 == 0,
        word <= 0x3F00_0000,
{
    let mut word: u32 = 0x2000_0000;
    if gouraud {
        word = word + 0x1000_0000;
    }
    if quad {
        word = word + 0x0800_0000;
    }
    if textured {
        word = word + 0x0400_0000;
    }
    if semi_transparent {
        word = word + 0x0200_0000;
    }
    if raw {
        word = word + 0x0100_0000;
    }
    word
}

/// The texture-window command that repeats nothing.
pub const RESET_TEXTURE_WINDOW: u32 = 0xE200_0000;

/// Colour depth of a texture page.
#[derive(Copy, Clone, Debug, PartialEq, Eq, Structural)]
pub enum TexDepth {
    /// Four bits for each texel, through a CLUT of 16.
    Bit4,
    /// Eight bits for each texel, through a CLUT of 256.
    Bit8,
    /// Direct colour.
    Bit15,
}

/// The two-bit field that selects a depth.
pub open spec fn depth_bits(depth: TexDepth) -> int {
    match depth {
        TexDepth::Bit4 => 0,
        TexDepth::Bit8 => 1,
        TexDepth::Bit15 => 2,
    }
}

/// A texture page: 256 rows of VRAM from a column that is a multiple of 64 on.
#[derive(Copy, Clone, Debug, PartialEq, Eq, Structural)]
pub struct Tpage {
    pub x: u16,
    pub y: u16,
    pub depth: TexDepth,
}

impl Tpage {
    /// The page lies on the grid of pages.
    pub open spec fn wf(self) -> bool {
        &&& self.x % 64 == 0
        &&& self.x < 1024
        &&& self.y == 0 || self.y == 256
    }

    /// The page's column, row and depth with a blend field, as they stand in a
    /// textured primitive and in the low bits of a draw mode.
    pub open spec fn page_bits(self, abr: u8) -> int {
        self.x / 64 + 0x10 * flag(self.y == 256) + 0x20 * (abr % 4) + 0x80 * depth_bits(self.depth)
    }

    /// The page at a column and row of VRAM.
    pub fn new(x: u16, y: u16, depth: TexDepth) -> (page: Self)
        requires
            x % 64 == 0,
            x < 1024,
            y == 0 || y == 256,
        ensures
            page == (Tpage { x, y, depth }),
            page.wf(),
    {
        Tpage { x, y, depth }
    }

    /// The half-word that names the page in a textured primitive.
    pub fn uv_tpage_word(&self, abr: u8) -> (word: u16)
        requires
            self.wf(),
        ensures
            word == self.page_bits(abr),
            word < 0x200,
    {
        let row: u16 = if self.y == 256 {
            0x10
        } else {
            0
        };
        let depth: u16 = match self.depth {
            TexDepth::Bit4 => 0,
            TexDepth::Bit8 => 0x80,
            TexDepth::Bit15 => 0x100,
        };
        self.x / 64 + row + 0x20 * ((abr % 4) as u16) + depth
    }

    /// The draw-mode command that installs the page with a blend equation: no
    /// dithering, drawing to the displayed area allowed.
    pub fn draw_mode_word(&self, abr: u8) -> (word: u32)
        requires
            self.wf(),
        ensures
            word == 0xE100_0400 + self.page_bits(abr),
    {
        0xE100_0400 + self.uv_tpage_word(abr) as u32
    }
}

/// A colour look-up table in VRAM.
#[derive(Copy, Clone, Debug, PartialEq, Eq, Structural)]
pub struct Clut {
    pub x: u16,
    pub y: u16,
}

impl Clut {
    /// The table lies on a column that is a multiple of 16.
    pub open spec fn wf(self) -> bool {
        &&& self.x % 16 == 0
        &&& self.x < 1024
        &&& self.y < 512
    }

    /// The table's column and row, as they stand in a textured primitive.
    pub open spec fn table_bits(self) -> int {
        self.x / 16 + 0x40 * self.y
    }

    /// The table at a column and row of VRAM.
    pub fn new(x: u16, y: u16) -> (clut: Self)
        requires
            x % 16 == 0,
            x < 1024,
            y < 512,
        ensures
            clut == (Clut { x, y }),
            clut.wf(),
    {
        Clut { x, y }
    }

    /// The half-word that names the table in a textured primitive: its row from
    /// bit 6 on, its column in units of sixteen.
    pub fn uv_clut_word(&self) -> (word: u16)
        requires
            self.wf(),
        ensures
            word == self.table_bits(),
    {
        self.x / 16 + 0x40 * self.y
    }
}

} // verus!
