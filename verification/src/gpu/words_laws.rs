//! What command words say when they are taken apart again.

use vstd::prelude::*;

use crate::gpu::words::{
    color_word, polygon_command, size_word, texcoord_word, vertex_word, wrapped16, Clut, TexDepth,
    Tpage,
};

verus! {

/// The signed number in the lower half of a word.
pub open spec fn low_in(word: u32) -> int {
    if word % 0x1_0000 >= 0x8000 {
        word % 0x1_0000 - 0x1_0000
    } else {
        (word % 0x1_0000) as int
    }
}

/// The signed number in the upper half of a word.
pub open spec fn high_in(word: u32) -> int {
    if word / 0x1_0000 >= 0x8000 {
        word / 0x1_0000 - 0x1_0000
    } else {
        (word / 0x1_0000) as int
    }
}

/// Byte `n` of a word, counted from the lowest.
pub open spec fn byte_in(word: u32, n: int) -> int {
    if n == 0 {
        word as int % 256
    } else if n == 1 {
        word as int / 256 % 256
    } else if n == 2 {
        word as int / 0x1_0000 % 256
    } else {
        word as int / 0x100_0000
    }
}

/// Whether bit `n` of a command's top byte is set.
pub open spec fn command_bit(word: u32, n: int) -> bool {
    let top = word as int / 0x100_0000;
    if n == 0 {
        top % 2 == 1
    } else if n == 1 {
        top / 2 % 2 == 1
    } else if n == 2 {
        top / 4 % 2 == 1
    } else if n == 3 {
        top / 8 % 2 == 1
    } else {
        top / 16 % 2 == 1
    }
}

proof fn bytes_come_apart(a: int, b: int, c: int)
    requires
        0 <= a < 256,
        0 <= b < 256,
        0 <= c < 0x1_0000,
    ensures
        ({
            let w = a + 256 * b + 0x1_0000 * c;
            &&& w % 256 == a
            &&& w / 256 % 256 == b
            &&& w / 0x1_0000 == c
            &&& c < 256 ==> w / 0x1_0000 % 256 == c && w / 0x100_0000 == 0
        }),
{
    let w = a + 256 * b + 0x1_0000 * c;
    let x = b + 256 * c;
    assert(w == 256 * x + a);
    assert(w / 256 == x && w % 256 == a);
    assert(x / 256 == c && x % 256 == b);
    assert(w / 0x1_0000 == x / 256);
}

/// A vertex has its horizontal coordinate in the lower half, its vertical one in
/// the upper half.
pub proof fn vertex_reads_back(x: i16, y: i16)
    ensures
        low_in(vertex_word(x, y)) == x,
        high_in(vertex_word(x, y)) == y,
{
}

/// A size has its width in the lower half, its height in the upper half.
pub proof fn size_reads_back(w: u16, h: u16)
    ensures
        size_word(w, h) % 0x1_0000 == w,
        size_word(w, h) / 0x1_0000 == h,
{
}

/// A colour has red in its lowest byte, then green, then blue, and an empty top
/// byte for the command.
pub proof fn color_reads_back(r: u8, g: u8, b: u8)
    ensures
        byte_in(color_word(r, g, b), 0) == r,
        byte_in(color_word(r, g, b), 1) == g,
        byte_in(color_word(r, g, b), 2) == b,
        byte_in(color_word(r, g, b), 3) == 0,
{
    bytes_come_apart(r as int, g as int, b as int);
}

/// A texture coordinate has its column in the lowest byte, its row above it, and
/// what rides along in the upper half.
pub proof fn texcoord_reads_back(u: u8, v: u8, high: u16)
    ensures
        byte_in(texcoord_word(u, v, high), 0) == u,
        byte_in(texcoord_word(u, v, high), 1) == v,
        texcoord_word(u, v, high) / 0x1_0000 == high,
{
    bytes_come_apart(u as int, v as int, high as int);
}

/// A polygon's command says what it is: kind one in its upper three bits, and a
/// bit each for shading, a fourth corner, a texture, blending and raw texels. It
/// leaves room for a colour.
pub proof fn polygon_command_reads_back(
    gouraud: bool,
    quad: bool,
    textured: bool,
    semi_transparent: bool,
    raw: bool,
)
    ensures
        ({
            let word = polygon_command(gouraud, quad, textured, semi_transparent, raw);
            &&& word / 0x2000_0000 == 1
            &&& command_bit(word, 4) == gouraud
            &&& command_bit(word, 3) == quad
            &&& command_bit(word, 2) == textured
            &&& command_bit(word, 1) == semi_transparent
            &&& command_bit(word, 0) == raw
            &&& word % 0x100_0000 == 0
        }),
{
}

/// The wrapped form of a number that fits is the number, and numbers that are
/// 65536 apart have the same.
pub proof fn wrapping_keeps_what_fits(x: int)
    ensures
        -0x8000 <= x < 0x8000 ==> wrapped16(x) == x,
        wrapped16(x + 0x1_0000) == wrapped16(x),
{
}

/// A texture page can be told from its bits: its column in units of 64, its row
/// in units of 256, its blend field, its depth.
pub proof fn page_reads_back(page: Tpage, abr: u8)
    requires
        page.wf(),
        abr < 4,
    ensures
        ({
            let bits = page.page_bits(abr);
            &&& 0 <= bits < 0x200
            &&& 64 * (bits % 16) == page.x
            &&& 256 * (bits / 16 % 2) == page.y
            &&& bits / 32 % 4 == abr
            &&& bits / 128 == 0 <==> page.depth == TexDepth::Bit4
            &&& bits / 128 == 1 <==> page.depth == TexDepth::Bit8
            &&& bits / 128 == 2 <==> page.depth == TexDepth::Bit15
        }),
{
}

/// A colour table can be told from its bits: its column in units of 16, its row
/// above six bits.
pub proof fn table_reads_back(clut: Clut)
    requires
        clut.wf(),
    ensures
        16 * (clut.table_bits() % 64) == clut.x,
        clut.table_bits() / 64 == clut.y,
        0 <= clut.table_bits() < 0x8000,
{
}

} // verus!
