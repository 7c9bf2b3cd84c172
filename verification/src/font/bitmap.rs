//! The font as data: its metrics and its glyph bitmaps.

use vstd::prelude::*;
use vstd::string::*;
use crate::fixed::{saturate32, saturated32};

verus! {

/// Bit-packing convention within each bitmap byte.
///
/// - [`BitOrder::Lsb`]: bit 0 of each byte is the **leftmost** pixel.
/// - [`BitOrder::Msb`]: bit 7 is the leftmost pixel.
///
/// Fonts imported from different sources carry different bit orders;
/// [`BitmapFont::glyph_row_packed`] handles both.
#[derive(Copy, Clone, Debug, PartialEq, Eq, Structural)]
pub enum BitOrder {
    /// Bit 0 is the leftmost pixel.
    Lsb,
    /// Bit 7 is the leftmost pixel.
    Msb,
}

/// A bitmap font as a static data descriptor.
///
/// The type stays size-agnostic -- 6x8, 8x8, 8x16, 12x16 all work; the atlas
/// layout reads `glyph_w` / `glyph_h`.
///
/// Glyph `i` in the `bitmap` slice occupies the `row_bytes * glyph_h` bytes from
/// `i * row_bytes * glyph_h` on, where `row_bytes = ceil(glyph_w / 8)`. Wider
/// glyphs (12, 16 px) use multiple bytes per row: byte 0 covers columns 0..=7,
/// byte 1 covers columns 8..=15, regardless of [`BitOrder`] within each byte.
///
/// The `first_char` / `glyph_count` window is a codepoint range -- code `c` is
/// looked up at offset `c - first_char` in the bitmap as long as
/// `first_char <= c < first_char + glyph_count`.
#[derive(Copy, Clone, Debug)]
pub struct BitmapFont {
    /// Glyph cell width in pixels.
    pub glyph_w: u8,
    /// Glyph cell height in pixels.
    pub glyph_h: u8,
    /// First codepoint covered.
    pub first_char: u16,
    /// Number of glyphs in this font.
    pub glyph_count: u16,
    /// Row-major bitmap bytes. `glyph_count * glyph_h *
    /// ceil(glyph_w / 8)` bytes total.
    pub bitmap: &'static [u8],
    /// Optional per-glyph pixel advances. Proportional fonts fill this;
    /// fixed-cell bitmap fonts leave it `None` and use `advance_x`.
    pub glyph_advances: Option<&'static [u8]>,
    /// Pixel step between adjacent characters on a text line; in proportional
    /// fonts the fallback for missing/out-of-range glyphs.
    pub advance_x: u8,
    /// Pixel step between text lines. Usually `== glyph_h`.
    pub line_height: u8,
    /// Bit packing within each bitmap byte.
    pub bit_order: BitOrder,
}

/// The glyph of `ch`, if the font covers its codepoint.
pub open spec fn index_of(font: BitmapFont, ch: char) -> Option<int> {
    let cp = ch as int;
    if font.first_char <= cp < font.first_char + font.glyph_count {
        Some(cp - font.first_char)
    } else {
        None
    }
}

/// The step behind `ch`: that of its glyph, where the font covers it and has a
/// table with an entry for it, or else the font's own.
pub open spec fn advance_of(font: BitmapFont, ch: char) -> u8 {
    match (index_of(font, ch), font.glyph_advances) {
        (Some(i), Some(advances)) => if i < advances@.len() {
            advances@[i]
        } else {
            font.advance_x
        },
        _ => font.advance_x,
    }
}

/// The sum of the steps behind the characters of `text`.
pub open spec fn total_advance(font: BitmapFont, text: Seq<char>) -> nat
    decreases text.len(),
{
    if text.len() == 0 {
        0
    } else {
        total_advance(font, text.drop_last()) + advance_of(font, text.last()) as nat
    }
}

/// The width of `text` with `spacing` between adjacent characters, before it is
/// clamped: each step saturates at 32 bits.
pub open spec fn spaced_width(font: BitmapFont, text: Seq<char>, spacing: i8) -> int
    decreases text.len(),
{
    if text.len() == 0 {
        0
    } else if text.len() == 1 {
        advance_of(font, text[0]) as int
    } else {
        saturated32(
            saturated32(spaced_width(font, text.drop_last(), spacing) + spacing) + advance_of(
                font,
                text.last(),
            ),
        ) as int
    }
}

/// The bits of a byte in the opposite order.
pub open spec fn mirrored(b: u8) -> int {
    0x80 * (b % 2) + 0x40 * (b / 2 % 2) + 0x20 * (b / 4 % 2) + 0x10 * (b / 8 % 2) + 8 * (b / 16
        % 2) + 4 * (b / 32 % 2) + 2 * (b / 64 % 2) + b / 128
}

/// A bitmap byte with the leftmost pixel in bit 0.
pub open spec fn normalised(order: BitOrder, b: u8) -> int {
    match order {
        BitOrder::Lsb => b as int,
        BitOrder::Msb => mirrored(b),
    }
}

/// What a bit in byte `k` of a row is worth.
pub open spec fn byte_weight(k: int) -> int {
    if k == 0 {
        1
    } else if k == 1 {
        0x100
    } else if k == 2 {
        0x1_0000
    } else {
        0x100_0000
    }
}

/// The first `k` bytes of a row that starts at `base`, as a number with the
/// leftmost pixel in bit 0.
pub open spec fn row_bits(font: BitmapFont, base: int, k: int) -> int
    decreases k,
{
    if k <= 0 {
        0
    } else {
        row_bits(font, base, k - 1) + byte_weight(k - 1) * normalised(
            font.bit_order,
            font.bitmap@[base + k - 1],
        )
    }
}

impl BitmapFont {
    /// Bytes per row of a glyph.
    pub open spec fn spec_row_bytes(self) -> int {
        (self.glyph_w + 7) / 8
    }

    /// Bytes per glyph.
    pub open spec fn spec_glyph_stride(self) -> int {
        self.spec_row_bytes() * self.glyph_h
    }

    /// Where row `r` of glyph `i` starts in the bitmap.
    pub open spec fn row_start(self, i: int, r: int) -> int {
        i * self.spec_glyph_stride() + r * self.spec_row_bytes()
    }

    /// Row `r` of glyph `i`, with the leftmost pixel in bit 0.
    pub open spec fn row_of(self, i: int, r: int) -> u32 {
        row_bits(self, self.row_start(i, r), self.spec_row_bytes()) as u32
    }

    /// Whether the pixel in column `c` of row `r` of glyph `i` is set.
    pub open spec fn pixel(self, i: int, r: int, c: int) -> bool {
        (self.row_of(i, r) >> (c as u32)) & 1 == 1
    }

    /// The bitmap holds every glyph, and a row fits 32 bits.
    pub open spec fn wf(self) -> bool {
        &&& self.glyph_w <= 32
        &&& self.glyph_count * self.spec_glyph_stride() <= self.bitmap@.len()
    }

    /// Bytes per row of a single glyph in the source bitmap.
    /// Derived from the glyph width -- 1 byte for fonts up to 8 wide, 2 bytes
    /// for 9..16-wide, etc.
    pub fn row_bytes(&self) -> (bytes: usize)
        ensures
            bytes == self.spec_row_bytes(),
    {
        (self.glyph_w as usize + 7) / 8
    }

    /// Total bitmap bytes per glyph.
    pub fn glyph_stride(&self) -> (bytes: usize)
        ensures
            bytes == self.spec_glyph_stride(),
            bytes <= 32 * 255,
    {
        let rows = self.row_bytes();
        assert(0 <= rows * self.glyph_h <= 32 * 255) by (nonlinear_arith)
            requires
                0 <= rows <= 32,
                0 <= self.glyph_h <= 255,
        ;
        rows * self.glyph_h as usize
    }

    /// Glyph index for `ch` if the font covers its codepoint.
    pub fn glyph_index(&self, ch: char) -> (index: Option<u16>)
        ensures
            match index {
                Some(i) => index_of(*self, ch) == Some(i as int) && i < self.glyph_count,
                None => index_of(*self, ch) is None,
            },
    {
        let cp = ch as u32;
        let first = self.first_char as u32;
        let end = first + self.glyph_count as u32;
        if cp >= first && cp < end {
            Some((cp - first) as u16)
        } else {
            None
        }
    }

    /// Pixel advance for `ch`, falling back to `advance_x` when the font has no
    /// per-glyph table or `ch` is outside the covered range.
    pub fn glyph_advance(&self, ch: char) -> (advance: u8)
        ensures
            advance == advance_of(*self, ch),
    {
        match (self.glyph_index(ch), self.glyph_advances) {
            (Some(index), Some(advances)) => if (index as usize) < advances.len() {
                advances[index as usize]
            } else {
                self.advance_x
            },
            _ => self.advance_x,
        }
    }

    /// Pixel width of `text` with this font's advance metrics.
    pub fn text_width(&self, text: &str) -> (width: u16)
        ensures
            width == if total_advance(*self, text@) > u16::MAX {
                u16::MAX as nat
            } else {
                total_advance(*self, text@)
            },
    {
        let mut width: u16 = 0;
        for ch in it: text.chars()
            invariant
                it.seq() == text@,
                width == if total_advance(*self, text@.take(it.index())) > u16::MAX {
                    u16::MAX as nat
                } else {
                    total_advance(*self, text@.take(it.index()))
                },
        {
            assert(text@.take(it.index() + 1).drop_last() =~= text@.take(it.index()));
            width = width.saturating_add(self.glyph_advance(ch) as u16);
        }
        assert(text@.take(text@.len() as int) =~= text@);
        width
    }

    /// Pixel width of `text` with an extra signed spacing value inserted
    /// between adjacent characters. The spacing is in final screen pixels,
    /// so callers that scale glyphs can decide whether or not to scale the
    /// spacing separately.
    pub fn text_width_with_spacing(&self, text: &str, letter_spacing: i8) -> (width: u16)
        ensures
            width == if spaced_width(*self, text@, letter_spacing) < 0 {
                0
            } else if spaced_width(*self, text@, letter_spacing) > u16::MAX {
                u16::MAX as int
            } else {
                spaced_width(*self, text@, letter_spacing)
            },
    {
        let mut width: i32 = 0;
        let mut first = true;
        for ch in it: text.chars()
            invariant
                it.seq() == text@,
                first == (it.index() == 0),
                width == spaced_width(*self, text@.take(it.index()), letter_spacing),
        {
            assert(text@.take(it.index() + 1).drop_last() =~= text@.take(it.index()));
            let advance = self.glyph_advance(ch) as i32;
            if first {
                width = advance;
                first = false;
            } else {
                let spaced: i32 = saturate32(width as i64 + letter_spacing as i64);
                width = saturate32(spaced as i64 + advance as i64);
            }
        }
        assert(text@.take(text@.len() as int) =~= text@);
        if width < 0 {
            0
        } else if width > 0xFFFF {
            0xFFFF
        } else {
            width as u16
        }
    }

    /// Fetch row `r` of glyph `i` -- the row comes out as a `u32` with pixel 0
    /// in bit 0, pixel 1 in bit 1, up to pixel 31 (enough for any realistic
    /// cell width), whatever the font's [`BitOrder`].
    pub fn glyph_row_packed(&self, i: u16, r: u8) -> (row: u32)
        requires
            self.glyph_w <= 32,
            self.row_start(i as int, r as int) + self.spec_row_bytes() <= self.bitmap@.len(),
        ensures
            row == self.row_of(i as int, r as int),
            row == row_bits(
                *self,
                self.row_start(i as int, r as int),
                self.spec_row_bytes(),
            ),
    {
        let stride = self.glyph_stride();
        let bytes = self.row_bytes();
        let len = self.bitmap.len();
        assert(0 <= i * stride <= 0xFFFF * (32 * 255)) by (nonlinear_arith)
            requires
                0 <= i <= 0xFFFF,
                0 <= stride <= 32 * 255,
        ;
        assert(0 <= r * bytes <= 255 * 4) by (nonlinear_arith)
            requires
                0 <= r <= 255,
                0 <= bytes <= 4,
        ;
        let base = i as usize * stride + r as usize * bytes;
        let mut out: u32 = 0;
        let mut k: usize = 0;
        while k < bytes
            invariant
                k <= bytes <= 4,
                base + bytes <= len,
                len == self.bitmap@.len(),
                out == row_bits(*self, base as int, k as int),
                out < byte_weight(k as int) || k == 4,
            decreases bytes - k,
        {
            let raw = self.bitmap[base + k];
            let byte = match self.bit_order {
                BitOrder::Lsb => raw as u32,
                BitOrder::Msb => mirror(raw),
            };
            let weight: u32 = match k {
                0 => 1,
                1 => 0x100,
                2 => 0x1_0000,
                _ => 0x100_0000,
            };
            assert(0 <= weight * byte <= weight * 255) by (nonlinear_arith)
                requires
                    0 <= byte <= 255,
                    0 <= weight,
            ;
            out = out + weight * byte;
            k += 1;
        }
        out
    }
}

fn mirror(b: u8) -> (m: u32)
    ensures
        m == mirrored(b),
        m <= 255,
{
    0x80 * (b as u32 % 2) + 0x40 * (b as u32 / 2 % 2) + 0x20 * (b as u32 / 4 % 2) + 0x10 * (b as u32
        / 8 % 2) + 8 * (b as u32 / 16 % 2) + 4 * (b as u32 / 32 % 2) + 2 * (b as u32 / 64 % 2) + b as u32
        / 128
}

/// The width of a longer text is that of its beginning plus the steps behind the
/// rest, so a running sum of steps measures every prefix on the way.
pub proof fn width_runs_along(font: BitmapFont, first: Seq<char>, second: Seq<char>)
    ensures
        total_advance(font, first + second) == total_advance(font, first) + total_advance(
            font,
            second,
        ),
    decreases second.len(),
{
    if second.len() == 0 {
        assert(first + second =~= first);
    } else {
        assert((first + second).drop_last() =~= first + second.drop_last());
        width_runs_along(font, first, second.drop_last());
    }
}

/// Mirroring a byte twice gives it back.
pub proof fn mirroring_is_its_own_inverse(b: u8)
    by (bit_vector)
    ensures
        0 <= mirrored(b) <= 255,
        mirrored(mirrored(b) as u8) == b,
{
}

} // verus!
