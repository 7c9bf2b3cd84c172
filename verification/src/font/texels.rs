//! Expanding glyph bitmaps into 4bpp texels.

use vstd::prelude::*;
use vstd::arithmetic::div_mod::{lemma_fundamental_div_mod, lemma_fundamental_div_mod_converse};
use crate::font::bitmap::BitmapFont;
use crate::font::pack::{
    AtlasPlacement, FontPackMetrics, atlas_columns, cell_width, cell_width_of, dims_are_bounded,
    dims_of, is_sound, overlap, sizes_of,
};

verus! {

/// Texel `k` of the four in a halfword; the first is the leftmost.
pub open spec fn nibble(word: u16, k: int) -> u16 {
    (word >> ((4 * k) as u16)) & 0xF
}

/// The texel in column `x` of row `y` of an image whose rows are `stride`
/// halfwords.
pub open spec fn texel(image: Seq<u16>, stride: int, x: int, y: int) -> u16 {
    nibble(image[y * stride + x / 4], x % 4)
}

/// A texel that is lit or is not.
pub open spec fn shade(lit: bool) -> u16 {
    if lit {
        1
    } else {
        0
    }
}

/// No texel is other than 0 or 1.
pub open spec fn is_binary(word: u16) -> bool {
    word & 0xEEEE == 0
}

/// The glyph that column `lx` of row `ly` of an atlas belongs to.
pub open spec fn glyph_at(font: BitmapFont, lx: int, ly: int) -> int {
    ly / (font.glyph_h as int) * dims_of(font).glyphs_per_row + lx / cell_width_of(font)
}

/// Whether the texel in column `lx` of row `ly` of the atlas of `font` is lit:
/// the pixel of the glyph there, and nothing in the padding of its cell or where
/// there is no glyph.
pub open spec fn font_texel(font: BitmapFont, lx: int, ly: int) -> bool {
    let g = glyph_at(font, lx, ly);
    let c = lx % cell_width_of(font);
    &&& 0 <= lx < dims_of(font).width
    &&& 0 <= ly < dims_of(font).height
    &&& g < font.glyph_count
    &&& c < font.glyph_w
    &&& font.pixel(g, ly % (font.glyph_h as int), c)
}

proof fn nibbles_are_apart(word: u16, k: u16, j: u16)
    by (bit_vector)
    requires
        k < 4,
        j < 4,
        word & 0xEEEE == 0,
    ensures
        ((word | (1u16 << ((4 * k) as u16))) >> ((4 * j) as u16)) & 0xF == if j == k {
            1
        } else {
            (word >> ((4 * j) as u16)) & 0xF
        },
        (word | (1u16 << ((4 * k) as u16))) & 0xEEEE == 0,
{
}

pub proof fn zero_is_dark(j: u16)
    by (bit_vector)
    requires
        j < 4,
    ensures
        0u16 & 0xEEEE == 0,
        (0u16 >> ((4 * j) as u16)) & 0xF == 0,
{
}

/// Different places of an image are in different halfwords or are different
/// texels of one.
proof fn places_are_apart(stride: int, x: int, y: int, x2: int, y2: int)
    requires
        0 <= x < 4 * stride,
        0 <= x2 < 4 * stride,
        y * stride + x / 4 == y2 * stride + x2 / 4,
        x % 4 == x2 % 4,
    ensures
        x == x2,
        y == y2,
{
    lemma_fundamental_div_mod_converse(y * stride + x / 4, stride, y, x / 4);
    lemma_fundamental_div_mod_converse(y2 * stride + x2 / 4, stride, y2, x2 / 4);
}

/// A place in an atlas, from the glyph, row and column that it shows.
proof fn place_of_pixel(font: BitmapFont, g: int, r: int, c: int)
    requires
        0 <= g < font.glyph_count,
        0 <= r < font.glyph_h,
        0 <= c < font.glyph_w,
    ensures
        ({
            let gpr = dims_of(font).glyphs_per_row;
            let lx = g % gpr * cell_width_of(font) + c;
            let ly = g / gpr * font.glyph_h + r;
            &&& 0 <= lx < dims_of(font).width
            &&& 0 <= ly < dims_of(font).height
            &&& glyph_at(font, lx, ly) == g
            &&& lx % cell_width_of(font) == c
            &&& ly % (font.glyph_h as int) == r
        }),
{
    dims_are_bounded(font);
    let gpr = dims_of(font).glyphs_per_row;
    let cell = cell_width_of(font);
    let h = font.glyph_h as int;
    let count = font.glyph_count as int;
    let rows = (count + gpr - 1) / gpr;
    let lx = g % gpr * cell + c;
    let ly = g / gpr * h + r;
    lemma_fundamental_div_mod(g, gpr);
    lemma_fundamental_div_mod_converse(lx, cell, g % gpr, c);
    lemma_fundamental_div_mod_converse(ly, h, g / gpr, r);
    assert(0 <= g % gpr * cell && (g % gpr + 1) * cell <= gpr * cell) by (nonlinear_arith)
        requires
            0 <= g % gpr < gpr,
            0 < cell,
    ;
    assert((g % gpr + 1) * cell == g % gpr * cell + cell) by (nonlinear_arith);
    assert(0 <= g / gpr < rows) by (nonlinear_arith)
        requires
            0 <= g < count,
            0 < gpr,
            rows == (count + gpr - 1) / gpr,
    ;
    assert(0 <= g / gpr * h && (g / gpr + 1) * h <= rows * h) by (nonlinear_arith)
        requires
            0 <= g / gpr < rows,
            0 < h,
    ;
    assert((g / gpr + 1) * h == g / gpr * h + h) by (nonlinear_arith);
    assert(g / gpr * gpr + g % gpr == g) by (nonlinear_arith)
        requires
            g == gpr * (g / gpr) + g % gpr,
    ;
}

/// The glyph, row and column of a place give the place back.
proof fn pixel_of_place(font: BitmapFont, lx: int, ly: int)
    requires
        0 < font.glyph_h,
        0 <= lx < dims_of(font).width,
        0 <= ly < dims_of(font).height,
    ensures
        ({
            let gpr = dims_of(font).glyphs_per_row;
            let g = glyph_at(font, lx, ly);
            &&& 0 <= g
            &&& lx == g % gpr * cell_width_of(font) + lx % cell_width_of(font)
            &&& ly == g / gpr * font.glyph_h + ly % (font.glyph_h as int)
        }),
{
    dims_are_bounded(font);
    let gpr = dims_of(font).glyphs_per_row;
    let cell = cell_width_of(font);
    let h = font.glyph_h as int;
    let a = lx / cell;
    let b = ly / h;
    lemma_fundamental_div_mod(lx, cell);
    lemma_fundamental_div_mod(ly, h);
    assert(0 <= a < gpr) by (nonlinear_arith)
        requires
            0 <= lx < gpr * cell,
            lx == cell * a + lx % cell,
            0 <= lx % cell < cell,
            0 < cell,
    ;
    assert(0 <= b) by (nonlinear_arith)
        requires
            0 <= ly,
            ly == h * b + ly % h,
            0 <= ly % h < h,
            0 < h,
    ;
    assert(0 <= b * gpr) by (nonlinear_arith)
        requires
            0 <= b,
            0 < gpr,
    ;
    lemma_fundamental_div_mod_converse(b * gpr + a, gpr, b, a);
    assert(a * cell == cell * a && b * h == h * b) by (nonlinear_arith);
}

/// The pixel that a place shows comes before pixel `c` of row `r` of glyph `g`.
spec fn comes_before(font: BitmapFont, lx: int, ly: int, g: int, r: int, c: int) -> bool {
    let g2 = glyph_at(font, lx, ly);
    let r2 = ly % (font.glyph_h as int);
    let c2 = lx % cell_width_of(font);
    g2 < g || g2 == g && (r2 < r || r2 == r && c2 < c)
}

/// The image after the pixels before the given one have been drawn.
spec fn drawn_to(
    before: Seq<u16>,
    now: Seq<u16>,
    stride: int,
    x0: int,
    y0: int,
    font: BitmapFont,
    g: int,
    r: int,
    c: int,
) -> bool {
    &&& now.len() == before.len()
    &&& forall|i: int| 0 <= i < now.len() ==> is_binary(#[trigger] now[i])
    &&& forall|x: int, y: int|
        0 <= x < 4 * stride && 0 <= y && y * stride + x / 4 < now.len() ==> #[trigger] texel(
            now,
            stride,
            x,
            y,
        ) == if font_texel(font, x - 4 * x0, y - y0) && comes_before(
            font,
            x - 4 * x0,
            y - y0,
            g,
            r,
            c,
        ) {
            1
        } else {
            texel(before, stride, x, y)
        }
}

/// An image with the atlas of `font` drawn over it, its left edge `x0` halfwords
/// in and its first row `y0` rows down.
pub open spec fn is_drawn(
    before: Seq<u16>,
    after: Seq<u16>,
    stride: int,
    x0: int,
    y0: int,
    font: BitmapFont,
) -> bool {
    &&& after.len() == before.len()
    &&& forall|i: int| 0 <= i < after.len() ==> is_binary(#[trigger] after[i])
    &&& forall|x: int, y: int|
        0 <= x < 4 * stride && 0 <= y && y * stride + x / 4 < after.len() ==> #[trigger] texel(
            after,
            stride,
            x,
            y,
        ) == if font_texel(font, x - 4 * x0, y - y0) {
            1
        } else {
            texel(before, stride, x, y)
        }
}

/// Drawing one pixel more.
proof fn pixel_drawn(
    before: Seq<u16>,
    now: Seq<u16>,
    next: Seq<u16>,
    stride: int,
    x0: int,
    y0: int,
    font: BitmapFont,
    g: int,
    r: int,
    c: int,
)
    requires
        drawn_to(before, now, stride, x0, y0, font, g, r, c),
        0 <= g < font.glyph_count,
        0 <= r < font.glyph_h,
        0 <= c < font.glyph_w,
        0 <= x0,
        0 <= y0,
        4 * x0 + dims_of(font).width <= 4 * stride,
        (y0 + dims_of(font).height) * stride <= before.len(),
        ({
            let gpr = dims_of(font).glyphs_per_row;
            let x = 4 * x0 + g % gpr * cell_width_of(font) + c;
            let y = y0 + g / gpr * font.glyph_h + r;
            let i = y * stride + x / 4;
            &&& 0 <= i < now.len()
            &&& if font.pixel(g, r, c) {
                next == now.update(i, now[i] | (1u16 << ((4 * (x % 4)) as u16)))
            } else {
                next == now
            }
        }),
    ensures
        drawn_to(before, next, stride, x0, y0, font, g, r, c + 1),
{
    let gpr = dims_of(font).glyphs_per_row;
    let lx = g % gpr * cell_width_of(font) + c;
    let ly = g / gpr * font.glyph_h + r;
    let x = 4 * x0 + lx;
    let y = y0 + ly;
    let i = y * stride + x / 4;
    place_of_pixel(font, g, r, c);
    dims_are_bounded(font);
    nibbles_are_apart(now[i], (x % 4) as u16, 0);
    assert forall|x2: int, y2: int|
        0 <= x2 < 4 * stride && 0 <= y2 && y2 * stride + x2 / 4 < next.len() implies
        #[trigger] texel(next, stride, x2, y2) == if font_texel(font, x2 - 4 * x0, y2 - y0)
        && comes_before(font, x2 - 4 * x0, y2 - y0, g, r, c + 1) {
        1
    } else {
        texel(before, stride, x2, y2)
    } by {
        let i2 = y2 * stride + x2 / 4;
        assert(0 <= y2 * stride) by (nonlinear_arith)
            requires
                0 <= y2,
                0 <= stride,
        ;
        assert(texel(now, stride, x2, y2) == nibble(now[i2], x2 % 4));
        if x2 == x && y2 == y {
            assert(font_texel(font, lx, ly) == font.pixel(g, r, c));
            nibbles_are_apart(now[i], (x % 4) as u16, (x % 4) as u16);
        } else {
            if i2 == i {
                if x2 % 4 == x % 4 {
                    places_are_apart(stride, x, y, x2, y2);
                }
                nibbles_are_apart(now[i], (x % 4) as u16, (x2 % 4) as u16);
            }
            assert(texel(next, stride, x2, y2) == texel(now, stride, x2, y2));
            if font_texel(font, x2 - 4 * x0, y2 - y0) {
                pixel_of_place(font, x2 - 4 * x0, y2 - y0);
                assert(comes_before(font, x2 - 4 * x0, y2 - y0, g, r, c + 1) == comes_before(
                    font,
                    x2 - 4 * x0,
                    y2 - y0,
                    g,
                    r,
                    c,
                ));
            }
        }
    }
    assert forall|k: int| 0 <= k < next.len() implies is_binary(#[trigger] next[k]) by {
        assert(is_binary(now[k]));
    }
}

/// After the last pixel of a row, or the last row of a glyph, the next begins.
proof fn row_drawn(
    before: Seq<u16>,
    now: Seq<u16>,
    stride: int,
    x0: int,
    y0: int,
    font: BitmapFont,
    g: int,
    r: int,
)
    requires
        0 <= r,
    ensures
        drawn_to(before, now, stride, x0, y0, font, g, r, font.glyph_w as int) ==> drawn_to(
            before,
            now,
            stride,
            x0,
            y0,
            font,
            g,
            r + 1,
            0,
        ),
        0 < font.glyph_h && drawn_to(before, now, stride, x0, y0, font, g, font.glyph_h as int, 0)
            ==> drawn_to(before, now, stride, x0, y0, font, g + 1, 0, 0),
{
    dims_are_bounded(font);
    assert forall|x: int, y: int| font_texel(font, x - 4 * x0, y - y0) implies #[trigger] texel(
        now,
        stride,
        x,
        y,
    ) == texel(now, stride, x, y) && comes_before(
        font,
        x - 4 * x0,
        y - y0,
        g,
        r,
        font.glyph_w as int,
    ) == comes_before(font, x - 4 * x0, y - y0, g, r + 1, 0) by {
        let c2 = (x - 4 * x0) % cell_width_of(font);
        assert(0 <= c2 < font.glyph_w);
    }
    if 0 < font.glyph_h {
        assert forall|x: int, y: int| font_texel(font, x - 4 * x0, y - y0) implies
            #[trigger] texel(now, stride, x, y) == texel(now, stride, x, y) && comes_before(
            font,
            x - 4 * x0,
            y - y0,
            g,
            font.glyph_h as int,
            0,
        ) == comes_before(font, x - 4 * x0, y - y0, g + 1, 0, 0) by {
            let r2 = (y - y0) % (font.glyph_h as int);
            assert(0 <= r2 < font.glyph_h);
            assert(0 <= (x - 4 * x0) % cell_width_of(font));
        }
    }
}

/// Draw the atlas of `font` into an image of `stride` halfwords a row: lit
/// texels become 1, and nothing else changes.
#[verifier::rlimit(60)]
pub fn draw_font(image: &mut [u16], stride: usize, x0: usize, y0: usize, font: &BitmapFont)
    requires
        font.wf(),
        forall|i: int| 0 <= i < old(image)@.len() ==> is_binary(#[trigger] old(image)@[i]),
        4 * x0 + dims_of(*font).width <= 4 * stride,
        (y0 + dims_of(*font).height) * stride <= old(image)@.len(),
    ensures
        is_drawn(old(image)@, final(image)@, stride as int, x0 as int, y0 as int, *font),
{
    let cell = cell_width(font) as usize;
    let len = image.len();
    let ghost before = image@;
    let ghost gpr = dims_of(*font).glyphs_per_row;
    proof {
        dims_are_bounded(*font);
    }
    let columns = atlas_columns(font) as usize;
    if font.glyph_h == 0 {
        return;
    }
    let mut g: u16 = 0;
    assert(drawn_to(before, image@, stride as int, x0 as int, y0 as int, *font, 0, 0, 0)) by {
        assert forall|x: int, y: int| font_texel(*font, x - 4 * x0, y - y0) implies
            #[trigger] texel(image@, stride as int, x, y) == texel(image@, stride as int, x, y)
            && !comes_before(*font, x - 4 * x0, y - y0, 0, 0, 0) by {
            pixel_of_place(*font, x - 4 * x0, y - y0);
        }
    }
    while g < font.glyph_count
        invariant
            g <= font.glyph_count,
            0 < font.glyph_h,
            font.wf(),
            before == old(image)@,
            len == image@.len(),
            before.len() == len,
            cell == cell_width_of(*font),
            columns == dims_of(*font).glyphs_per_row,
            4 * x0 + dims_of(*font).width <= 4 * stride,
            (y0 + dims_of(*font).height) * stride <= before.len(),
            drawn_to(
                before,
                image@,
                stride as int,
                x0 as int,
                y0 as int,
                *font,
                g as int,
                0,
                0,
            ),
        decreases font.glyph_count - g,
    {
        let mut r: u8 = 0;
        while r < font.glyph_h
            invariant
                g < font.glyph_count,
                r <= font.glyph_h,
                0 < font.glyph_h,
                font.wf(),
                len == image@.len(),
                before.len() == len,
                cell == cell_width_of(*font),
                columns == dims_of(*font).glyphs_per_row,
                4 * x0 + dims_of(*font).width <= 4 * stride,
                (y0 + dims_of(*font).height) * stride <= before.len(),
                drawn_to(
                    before,
                    image@,
                    stride as int,
                    x0 as int,
                    y0 as int,
                    *font,
                    g as int,
                    r as int,
                    0,
                ),
            decreases font.glyph_h - r,
        {
            proof {
                row_is_in_bitmap(*font, g as int, r as int);
            }
            let bits = font.glyph_row_packed(g, r);
            let mut c: u8 = 0;
            while c < font.glyph_w
                invariant
                    g < font.glyph_count,
                    r < font.glyph_h,
                    c <= font.glyph_w,
                    font.wf(),
                    len == image@.len(),
                    before.len() == len,
                    cell == cell_width_of(*font),
                    columns == dims_of(*font).glyphs_per_row,
                    4 * x0 + dims_of(*font).width <= 4 * stride,
                    (y0 + dims_of(*font).height) * stride <= before.len(),
                    bits == font.row_of(g as int, r as int),
                    drawn_to(
                        before,
                        image@,
                        stride as int,
                        x0 as int,
                        y0 as int,
                        *font,
                        g as int,
                        r as int,
                        c as int,
                    ),
                decreases font.glyph_w - c,
            {
                let ghost now = image@;
                proof {
                    place_is_in_image(
                        *font,
                        stride as int,
                        x0 as int,
                        y0 as int,
                        g as int,
                        r as int,
                        c as int,
                        len as int,
                    );
                }
                let lx = (g as usize % columns) * cell + c as usize;
                let y = y0 + (g as usize / columns) * font.glyph_h as usize + r as usize;
                let i = y * stride + x0 + lx / 4;
                if (bits >> (c as u32)) & 1 == 1 {
                    let shift = (4 * (lx % 4)) as u16;
                    image[i] = image[i] | (1u16 << shift);
                }
                proof {
                    pixel_drawn(
                        before,
                        now,
                        image@,
                        stride as int,
                        x0 as int,
                        y0 as int,
                        *font,
                        g as int,
                        r as int,
                        c as int,
                    );
                }
                c += 1;
            }
            proof {
                row_drawn(
                    before,
                    image@,
                    stride as int,
                    x0 as int,
                    y0 as int,
                    *font,
                    g as int,
                    r as int,
                );
            }
            r += 1;
        }
        proof {
            row_drawn(before, image@, stride as int, x0 as int, y0 as int, *font, g as int, 0);
        }
        g += 1;
    }
    assert forall|x: int, y: int| font_texel(*font, x - 4 * x0, y - y0) implies #[trigger] texel(
        image@,
        stride as int,
        x,
        y,
    ) == texel(image@, stride as int, x, y) && comes_before(
        *font,
        x - 4 * x0,
        y - y0,
        font.glyph_count as int,
        0,
        0,
    ) by {}
}

/// Every row of every glyph is in the bitmap.
proof fn row_is_in_bitmap(font: BitmapFont, g: int, r: int)
    requires
        font.wf(),
        0 <= g < font.glyph_count,
        0 <= r < font.glyph_h,
    ensures
        font.row_start(g, r) + font.spec_row_bytes() <= font.bitmap@.len(),
{
    let stride = font.spec_glyph_stride();
    let bytes = font.spec_row_bytes();
    assert((r + 1) * bytes <= stride) by (nonlinear_arith)
        requires
            stride == bytes * font.glyph_h,
            r + 1 <= font.glyph_h,
            0 <= bytes,
    ;
    assert((r + 1) * bytes == r * bytes + bytes) by (nonlinear_arith);
    assert((g + 1) * stride <= font.glyph_count * stride) by (nonlinear_arith)
        requires
            g + 1 <= font.glyph_count,
            0 <= stride,
    ;
    assert((g + 1) * stride == g * stride + stride) by (nonlinear_arith);
}

/// Every pixel of every glyph is in the image.
proof fn place_is_in_image(
    font: BitmapFont,
    stride: int,
    x0: int,
    y0: int,
    g: int,
    r: int,
    c: int,
    len: int,
)
    requires
        0 <= g < font.glyph_count,
        0 <= r < font.glyph_h,
        0 <= c < font.glyph_w,
        0 <= x0,
        0 <= y0,
        4 * x0 + dims_of(font).width <= 4 * stride,
        (y0 + dims_of(font).height) * stride <= len,
    ensures
        ({
            let gpr = dims_of(font).glyphs_per_row;
            let lx = g % gpr * cell_width_of(font) + c;
            let ly = g / gpr * font.glyph_h + r;
            let x = 4 * x0 + lx;
            let y = y0 + ly;
            &&& 0 <= lx < 256
            &&& 0 <= ly
            &&& 0 <= g % gpr * cell_width_of(font) <= lx
            &&& 0 <= g / gpr * font.glyph_h <= ly
            &&& x < 4 * stride
            &&& x <= 4 * stride <= 4 * len
            &&& y < len
            &&& 0 <= y * stride
            &&& 0 <= y * stride + x / 4 < len
        }),
{
    place_of_pixel(font, g, r, c);
    dims_are_bounded(font);
    let gpr = dims_of(font).glyphs_per_row;
    let lx = g % gpr * cell_width_of(font) + c;
    let ly = g / gpr * font.glyph_h + r;
    let x = 4 * x0 + lx;
    let y = y0 + ly;
    let h = dims_of(font).height;
    assert(0 <= g % gpr * cell_width_of(font)) by (nonlinear_arith)
        requires
            0 <= g % gpr,
            0 <= cell_width_of(font),
    ;
    assert(0 <= g / gpr * font.glyph_h) by (nonlinear_arith)
        requires
            0 <= g / gpr,
            0 <= font.glyph_h,
    ;
    assert(0 <= y * stride && (y + 1) * stride <= (y0 + h) * stride) by (nonlinear_arith)
        requires
            0 <= y,
            y + 1 <= y0 + h,
            0 < stride,
    ;
    assert((y + 1) * stride == y * stride + stride) by (nonlinear_arith);
    assert(y <= y * stride) by (nonlinear_arith)
        requires
            0 <= y,
            1 <= stride,
    ;
}

/// The left edge of a placed atlas, in halfwords of the whole page run.
pub open spec fn left_edge(at: AtlasPlacement) -> int {
    at.page * 64 + at.x_halfwords
}

/// The texel in column `x` of row `y` of the page run is lit by atlas `i`.
pub open spec fn lit_by(
    fonts: Seq<&'static BitmapFont>,
    placed: Seq<Option<AtlasPlacement>>,
    i: int,
    x: int,
    y: int,
) -> bool {
    placed[i] is Some && font_texel(
        *fonts[i],
        x - 4 * left_edge(placed[i]->0),
        y - placed[i]->0.y,
    )
}

/// Every font has a place inside the page run that the metrics describe.
pub open spec fn is_packable(
    fonts: Seq<&'static BitmapFont>,
    placed: Seq<Option<AtlasPlacement>>,
    metrics: FontPackMetrics,
) -> bool {
    &&& fonts.len() <= placed.len()
    &&& metrics.scratch_halfwords == metrics.pages * 64 * metrics.upload_rows
    &&& forall|i: int|
        0 <= i < fonts.len() ==> {
            &&& (#[trigger] fonts[i]).wf()
            &&& dims_of(*fonts[i]).height > 0
            &&& placed[i] is Some
            &&& placed[i]->0.page < metrics.pages
            &&& placed[i]->0.x_halfwords + dims_of(*fonts[i]).halfwords <= 64
            &&& placed[i]->0.y + dims_of(*fonts[i]).height <= metrics.upload_rows
        }
}

/// Expand every font into one image of the whole page run.
///
/// The first `metrics.scratch_halfwords` of `scratch` become the image; `None`,
/// with nothing written, if it is shorter than that.
pub fn pack_font_bits(
    fonts: &[&'static BitmapFont],
    placements: &[Option<AtlasPlacement>; 16],
    metrics: FontPackMetrics,
    scratch: &mut [u16],
) -> (result: Option<()>)
    requires
        is_packable(fonts@, placements@, metrics),
    ensures
        final(scratch)@.len() == old(scratch)@.len(),
        result is Some <==> metrics.scratch_halfwords <= old(scratch)@.len(),
        result is None ==> final(scratch)@ == old(scratch)@,
        result is Some ==> {
            let n = metrics.scratch_halfwords as int;
            let stride = metrics.pages * 64;
            &&& final(scratch)@.skip(n) == old(scratch)@.skip(n)
            &&& forall|x: int, y: int|
                0 <= x < 4 * stride && 0 <= y < metrics.upload_rows ==> #[trigger] texel(
                    final(scratch)@,
                    stride,
                    x,
                    y,
                ) == shade(
                    exists|i: int|
                        0 <= i < fonts@.len() && #[trigger] lit_by(fonts@, placements@, i, x, y),
                )
        },
{
    let n = metrics.scratch_halfwords;
    if n > scratch.len() {
        return None;
    }
    let stride = metrics.pages as usize * 64;
    let ghost rows = metrics.upload_rows as int;
    let (image, rest) = scratch.split_at_mut(n);
    let mut k: usize = 0;
    while k < n
        invariant
            k <= n,
            image@.len() == n,
            forall|j: int| 0 <= j < k ==> #[trigger] image@[j] == 0,
        decreases n - k,
    {
        image[k] = 0;
        k += 1;
    }
    proof {
        zero_is_dark(0);
        assert forall|x: int, y: int|
            0 <= x < 4 * stride && 0 <= y < rows implies #[trigger] texel(
            image@,
            stride as int,
            x,
            y,
        ) == 0 by {
            place_is_inside(stride as int, rows, x, y);
            zero_is_dark((x % 4) as u16);
        }
        assert forall|i: int| 0 <= i < image@.len() implies is_binary(#[trigger] image@[i]) by {}
    }
    let mut i: usize = 0;
    while i < fonts.len()
        invariant
            i <= fonts@.len() <= 16,
            stride == metrics.pages * 64,
            n == stride * rows,
            rows == metrics.upload_rows,
            n == metrics.scratch_halfwords,
            is_packable(fonts@, placements@, metrics),
            image@.len() == n,
            forall|k: int| 0 <= k < image@.len() ==> is_binary(#[trigger] image@[k]),
            forall|x: int, y: int|
                0 <= x < 4 * stride && 0 <= y < rows ==> #[trigger] texel(
                    image@,
                    stride as int,
                    x,
                    y,
                ) == shade(
                    exists|j: int|
                        0 <= j < i && #[trigger] lit_by(fonts@, placements@, j, x, y),
                ),
        decreases fonts@.len() - i,
    {
        let font = fonts[i];
        assert(fonts@[i as int].wf());
        let at = placements[i].unwrap();
        let x0 = at.page as usize * 64 + at.x_halfwords as usize;
        let ghost before = image@;
        proof {
            dims_are_bounded(*font);
            assert((at.y + dims_of(*font).height) * stride <= rows * stride) by (nonlinear_arith)
                requires
                    at.y + dims_of(*font).height <= rows,
                    0 <= stride,
            ;
            assert(rows * stride == stride * rows) by (nonlinear_arith);
        }
        draw_font(image, stride, x0, at.y as usize, font);
        proof {
            assert forall|x: int, y: int|
                0 <= x < 4 * stride && 0 <= y < rows implies #[trigger] texel(
                image@,
                stride as int,
                x,
                y,
            ) == shade(
                exists|j: int|
                    0 <= j < i + 1 && #[trigger] lit_by(fonts@, placements@, j, x, y),
            ) by {
                place_is_inside(stride as int, rows, x, y);
                assert(texel(before, stride as int, x, y) == shade(
                    exists|j: int|
                        0 <= j < i && #[trigger] lit_by(fonts@, placements@, j, x, y),
                ));
                assert(lit_by(fonts@, placements@, i as int, x, y) == font_texel(
                    *font,
                    x - 4 * x0,
                    y - at.y,
                ));
            }
        }
        i += 1;
    }
    let ghost done = image@;
    proof {
        assert forall|x: int, y: int|
            0 <= x < 4 * stride && 0 <= y < rows implies texel(done, stride as int, x, y)
            == #[trigger] texel(done + rest@, stride as int, x, y) by {
            place_is_inside(stride as int, rows, x, y);
        }
    }
    Some(())
}

proof fn place_is_inside(stride: int, rows: int, x: int, y: int)
    requires
        0 <= x < 4 * stride,
        0 <= y < rows,
    ensures
        0 <= y * stride,
        y * stride + x / 4 < stride * rows,
{
    assert(0 <= y * stride && (y + 1) * stride <= rows * stride) by (nonlinear_arith)
        requires
            0 <= y,
            y + 1 <= rows,
            0 <= stride,
    ;
    assert((y + 1) * stride == y * stride + stride) by (nonlinear_arith);
    assert(rows * stride == stride * rows) by (nonlinear_arith);
}

/// A packed atlas shows its font and nothing of any other: over the whole of its
/// rectangle, padding included, each texel is the one that its font asks for.
pub proof fn packed_atlas_shows_its_font(
    fonts: Seq<&'static BitmapFont>,
    placed: Seq<Option<AtlasPlacement>>,
    i: int,
    lx: int,
    ly: int,
)
    requires
        0 <= i < fonts.len(),
        is_sound(sizes_of(fonts), placed),
        forall|j: int| 0 <= j < fonts.len() ==> (#[trigger] placed[j]) is Some,
        0 <= lx < dims_of(*fonts[i]).width,
        0 <= ly < dims_of(*fonts[i]).height,
    ensures
        (exists|j: int|
            0 <= j < fonts.len() && #[trigger] lit_by(
                fonts,
                placed,
                j,
                4 * left_edge(placed[i]->0) + lx,
                placed[i]->0.y + ly,
            )) <==> font_texel(*fonts[i], lx, ly),
{
    let sizes = sizes_of(fonts);
    let x = 4 * left_edge(placed[i]->0) + lx;
    let y = placed[i]->0.y + ly;
    assert(lit_by(fonts, placed, i, x, y) == font_texel(*fonts[i], lx, ly));
    dims_are_bounded(*fonts[i]);
    assert forall|j: int| 0 <= j < fonts.len() && j != i implies !#[trigger] lit_by(
        fonts,
        placed,
        j,
        x,
        y,
    ) by {
        dims_are_bounded(*fonts[j]);
        let a = placed[i]->0;
        let b = placed[j]->0;
        assert(placed[i] is Some && placed[j] is Some);
        assert(!overlap(a, sizes[i].w, sizes[i].h, b, sizes[j].w, sizes[j].h));
    }
}

} // verus!
