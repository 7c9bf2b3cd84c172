//! What a font's bitmap, its atlas and its texts have to do with each other.

use vstd::prelude::*;

use crate::font::atlas::{uv_of, FontAtlas};
use crate::font::bitmap::{
    byte_weight, mirrored, normalised, row_bits, spaced_width, total_advance, BitOrder, BitmapFont,
};
use crate::font::pack::{cell_width_of, dims_of};
use crate::font::texels::{font_texel, glyph_at, nibble};

verus! {

/// Whether the pixel in column `c` is set in a byte of eight pixels: the leftmost
/// in the lowest bit, or in the highest.
pub open spec fn bit_is_set(byte: u8, c: u32, order: BitOrder) -> bool {
    match order {
        BitOrder::Lsb => (byte >> (c as u8)) & 1 == 1,
        BitOrder::Msb => (byte >> ((7 - c) as u8)) & 1 == 1,
    }
}

proof fn mirrored_bit(b: u8, c: u8)
    by (bit_vector)
    requires
        c < 8,
    ensures
        ((mirrored(b) as u8) >> c) & 1 == (b >> ((7 - c) as u8)) & 1,
        0 <= mirrored(b) <= 255,
{
}

proof fn bit_of_a_row(a: u32, b: u32, d: u32, e: u32, c: u32)
    by (bit_vector)
    requires
        a < 256,
        b < 256,
        d < 256,
        e < 256,
        c < 32,
    ensures
        c < 8 ==> ((a + 256 * b + 65536 * d + 16777216 * e) as u32 >> c) & 1 == (a >> c) & 1,
        8 <= c < 16 ==> ((a + 256 * b + 65536 * d + 16777216 * e) as u32 >> c) & 1 == (b >> ((c
            - 8) as u32)) & 1,
        16 <= c < 24 ==> ((a + 256 * b + 65536 * d + 16777216 * e) as u32 >> c) & 1 == (d >> ((c
            - 16) as u32)) & 1,
        24 <= c ==> ((a + 256 * b + 65536 * d + 16777216 * e) as u32 >> c) & 1 == (e >> ((c - 24)
            as u32)) & 1,
{
}

proof fn same_bit(b: u8, c: u32)
    by (bit_vector)
    requires
        c < 8,
    ensures
        ((b as u32) >> c) & 1 == 1 <==> (b >> (c as u8)) & 1 == 1,
{
}

proof fn normalised_bit(b: u8, c: u32, order: BitOrder)
    requires
        c < 8,
    ensures
        0 <= normalised(order, b) <= 255,
        ((normalised(order, b) as u32) >> c) & 1 == 1 <==> bit_is_set(b, c, order),
{
    mirrored_bit(b, c as u8);
    same_bit(b, c);
    same_bit(mirrored(b) as u8, c);
}

/// A pixel is a bit of the bitmap: glyphs stand one behind the other, rows of a
/// glyph too, each in as many bytes as its pixels need, eight pixels to a byte
/// from left to right.
pub proof fn pixels_are_bits(font: BitmapFont, i: int, r: int, c: int)
    requires
        font.wf(),
        0 <= i < font.glyph_count,
        0 <= r < font.glyph_h,
        0 <= c < font.glyph_w,
    ensures
        ({
            let per_row = (font.glyph_w + 7) / 8;
            let at = (i * font.glyph_h + r) * per_row + c / 8;
            font.pixel(i, r, c) == bit_is_set(font.bitmap@[at], (c % 8) as u32, font.bit_order)
        }),
{
    let n = font.spec_row_bytes();
    let base = font.row_start(i, r);
    let per_row = (font.glyph_w + 7) / 8;
    let h = font.glyph_h as int;
    assert(base == (i * h + r) * per_row) by {
        assert(i * (per_row * h) + r * per_row == (i * h + r) * per_row) by (nonlinear_arith);
    }
    let order = font.bit_order;
    let b = font.bitmap@;
    assert(1 <= n <= 4);
    let (x0, x1, x2, x3) = (
        normalised(order, b[base]),
        if n > 1 {
            normalised(order, b[base + 1])
        } else {
            0
        },
        if n > 2 {
            normalised(order, b[base + 2])
        } else {
            0
        },
        if n > 3 {
            normalised(order, b[base + 3])
        } else {
            0
        },
    );
    normalised_bit(b[base], 0, order);
    normalised_bit(b[base + 1], 0, order);
    normalised_bit(b[base + 2], 0, order);
    normalised_bit(b[base + 3], 0, order);
    reveal_with_fuel(row_bits, 5);
    assert(row_bits(font, base, 1) == x0);
    assert(row_bits(font, base, n) == x0 + 256 * x1 + 65536 * x2 + 16777216 * x3) by {
        assert(byte_weight(0) == 1 && byte_weight(1) == 256 && byte_weight(2) == 65536
            && byte_weight(3) == 16777216);
    }
    bit_of_a_row(x0 as u32, x1 as u32, x2 as u32, x3 as u32, c as u32);
    normalised_bit(b[base + c / 8], (c % 8) as u32, order);
    if c < 8 {
        assert(c / 8 == 0 && c % 8 == c);
    } else if c < 16 {
        assert(c / 8 == 1 && c % 8 == c - 8);
    } else if c < 24 {
        assert(c / 8 == 2 && c % 8 == c - 16);
    } else {
        assert(c / 8 == 3 && c % 8 == c - 24);
    }
}

/// The layout of an atlas: cells of whole groups of four texels that hold a glyph,
/// as many in a row as fit a page, rows for all glyphs and no more, and room for
/// every row in halfwords.
pub proof fn layout_holds_the_glyphs(font: BitmapFont)
    requires
        0 < font.glyph_w,
        0 < font.glyph_count,
    ensures
        ({
            let d = dims_of(font);
            let cell = cell_width_of(font);
            &&& cell % 4 == 0
            &&& font.glyph_w <= cell < font.glyph_w + 4
            &&& 1 <= d.glyphs_per_row <= font.glyph_count
            &&& d.width == d.glyphs_per_row * cell
            &&& d.width <= 256
            &&& d.glyphs_per_row == font.glyph_count || d.width + cell > 256
            &&& exists|rows: int|
                d.height == rows * font.glyph_h && #[trigger] (rows * d.glyphs_per_row)
                    >= font.glyph_count && (rows - 1) * d.glyphs_per_row < font.glyph_count
            &&& d.halfwords % 2 == 0
            &&& d.width <= 4 * d.halfwords < d.width + 8
        }),
{
    let d = dims_of(font);
    let cell = cell_width_of(font);
    let count = font.glyph_count as int;
    let most = 256int / cell;
    assert(4 <= cell <= 256);
    vstd::arithmetic::div_mod::lemma_fundamental_div_mod(256, cell);
    vstd::arithmetic::div_mod::lemma_mod_bound(256, cell);
    assert(1 <= most) by {
        vstd::arithmetic::div_mod::lemma_div_is_ordered(cell, 256, cell);
        vstd::arithmetic::div_mod::lemma_div_by_self(cell);
    }
    let columns = d.glyphs_per_row;
    assert(columns * cell <= most * cell && cell * most == most * cell) by (nonlinear_arith)
        requires
            columns <= most,
            0 < cell,
    ;
    if columns != count {
        assert(columns == most);
    }
    let rows = (count + columns - 1) / columns;
    vstd::arithmetic::div_mod::lemma_fundamental_div_mod(count + columns - 1, columns);
    vstd::arithmetic::div_mod::lemma_mod_bound(count + columns - 1, columns);
    assert(columns * rows == rows * columns && (rows - 1) * columns == rows * columns - columns)
        by (nonlinear_arith);
    assert(d.height == rows * font.glyph_h);
    assert(rows * d.glyphs_per_row >= font.glyph_count);
    let groups = columns * (cell / 4);
    assert(columns * cell == 4 * groups) by (nonlinear_arith)
        requires
            cell == 4 * (cell / 4),
            groups == columns * (cell / 4),
    ;
}

/// Where a text looks for a glyph, the atlas shows that glyph: every pixel of its
/// cell is the pixel of the bitmap.
pub proof fn texts_show_their_glyphs(atlas: FontAtlas, ch: char, r: int, c: int)
    requires
        atlas.font.wf(),
        0 < atlas.font.glyph_w,
        atlas.glyphs_per_row == dims_of(*atlas.font).glyphs_per_row,
        atlas.uv_origin == (0u8, 0u8),
        dims_of(*atlas.font).height <= 256,
        atlas.font.first_char <= ch as int,
        (ch as int) < atlas.font.first_char + atlas.font.glyph_count,
        0 <= r < atlas.font.glyph_h,
        0 <= c < atlas.font.glyph_w,
    ensures
        uv_of(atlas, ch) is Some,
        ({
            let (u, v) = uv_of(atlas, ch)->0;
            font_texel(*atlas.font, u + c, v + r) == atlas.font.pixel(
                ch as int - atlas.font.first_char,
                r,
                c,
            )
        }),
{
    let font = *atlas.font;
    let d = dims_of(font);
    let cell = cell_width_of(font);
    let i = ch as int - font.first_char;
    let n = d.glyphs_per_row;
    let h = font.glyph_h as int;
    layout_holds_the_glyphs(font);
    let (row, column) = (i / n, i % n);
    vstd::arithmetic::div_mod::lemma_fundamental_div_mod(i, n);
    vstd::arithmetic::div_mod::lemma_mod_bound(i, n);
    vstd::arithmetic::div_mod::lemma_div_pos_is_pos(i, n);
    let count = font.glyph_count as int;
    let rows = choose|rows: int|
        d.height == rows * font.glyph_h && #[trigger] (rows * d.glyphs_per_row) >= font.glyph_count
            && (rows - 1) * d.glyphs_per_row < font.glyph_count;
    assert(row < rows) by (nonlinear_arith)
        requires
            n * row <= i,
            i < count,
            count <= rows * n,
            0 < n,
    ;
    assert((row + 1) * h <= rows * h && (row + 1) * h == row * h + h && 0 <= row * h)
        by (nonlinear_arith)
        requires
            row + 1 <= rows,
            0 <= row,
            0 <= h,
    ;
    assert((column + 1) * cell <= n * cell && (column + 1) * cell == column * cell + cell && 0
        <= column * cell) by (nonlinear_arith)
        requires
            column + 1 <= n,
            0 <= column,
            0 <= cell,
    ;
    let (u, v) = (column * cell, row * h);
    assert(uv_of(atlas, ch) == Some((u as u8, v as u8)));
    vstd::arithmetic::div_mod::lemma_fundamental_div_mod_converse(u + c, cell, column, c);
    vstd::arithmetic::div_mod::lemma_fundamental_div_mod_converse(v + r, h, row, r);
    assert(row * n == n * row) by (nonlinear_arith);
    assert(glyph_at(font, u + c, v + r) == i);
}

/// Four texels share a halfword, the leftmost in its lowest bits.
pub proof fn texels_fill_halfwords_from_below(word: u16)
    ensures
        word == nibble(word, 0) + 16 * nibble(word, 1) + 256 * nibble(word, 2) + 4096 * nibble(
            word,
            3,
        ),
        nibble(word, 0) < 16,
        nibble(word, 1) < 16,
        nibble(word, 2) < 16,
        nibble(word, 3) < 16,
{
    assert(word == ((word >> 0u16) & 0xF) + 16 * ((word >> 4u16) & 0xF) + 256 * ((word >> 8u16)
        & 0xF) + 4096 * ((word >> 12u16) & 0xF)) by (bit_vector);
    assert((word >> 0u16) & 0xF < 16 && (word >> 4u16) & 0xF < 16 && (word >> 8u16) & 0xF < 16 && (
    word >> 12u16) & 0xF < 16) by (bit_vector);
}

/// The width of a text with spacing is its plain width and a space between each
/// two characters. Texts long enough to leave the 32-bit range are left out.
pub proof fn spaces_go_between(font: BitmapFont, text: Seq<char>, spacing: i8)
    requires
        0 < text.len() <= 0x10_0000,
    ensures
        spaced_width(font, text, spacing) == total_advance(font, text) + spacing * (text.len()
            - 1),
        -128 * text.len() <= spaced_width(font, text, spacing) <= 383 * text.len(),
    decreases text.len(),
{
    if text.len() > 1 {
        let before = text.drop_last();
        let n = before.len() as int;
        spaces_go_between(font, before, spacing);
        assert(spacing * n == spacing * (n - 1) + spacing) by (nonlinear_arith);
    } else {
        assert(text.drop_last().len() == 0);
        assert(text.last() == text[0]);
        assert(total_advance(font, text.drop_last()) == 0);
        assert(spacing * 0 == 0) by (nonlinear_arith);
    }
}

} // verus!
