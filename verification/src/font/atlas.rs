//! A font laid out as a texture, and the commands that draw text with it.
//!
//! | Method | Primitive | Words / glyph | Does |
//! |---|---|---|---|
//! | [`FontAtlas::draw_text`] | textured rectangle | 4 | 1:1 axis-aligned, single tint |
//! | [`FontAtlas::draw_text_scaled`] | textured quad | 9 | integer scale, single tint |
//! | [`FontAtlas::draw_text_scaled_q8`] | textured quad | 9 | Q8 fractional scale (1.5x = 384), single tint |
//! | [`FontAtlas::draw_text_rotated`] | textured quad | 9 | rotation, single tint |
//! | [`FontAtlas::draw_text_affine`] | textured quad | 9 | arbitrary 2x2 matrix, single tint |
//! | [`FontAtlas::draw_text_gradient`] | Gouraud-textured quad | 12 | 1:1, top/bottom gradient |
//! | [`FontAtlas::draw_text_scaled_gradient`] | Gouraud-textured quad | 12 | scaled + top/bottom gradient |
//!
//! Each returns the words to be sent to GP0 in that order. The rectangle path
//! samples the page of the current draw mode, which its words set first; quads
//! name their page themselves.
//!
//! Characters outside the font's codepoint range are skipped -- they still
//! advance the cursor so the rest of the string lines up. Screen coordinates are
//! 16-bit and wrap.

use vstd::arithmetic::div_mod::lemma_fundamental_div_mod;
use vstd::prelude::*;
use vstd::string::*;
use crate::fixed::{floor_div, saturate16, saturate32, saturated16, saturated32};
use crate::font::bitmap::{BitmapFont, advance_of, index_of, spaced_width, total_advance};
use crate::font::pack::{cell_width, cell_width_of};
use crate::gpu::words::{
    RESET_TEXTURE_WINDOW, Tpage, color_word, pack_color, pack_texcoord, pack_vertex, pack_xy,
    polygon_command, polygon_opcode, size_word, texcoord_word, to_wrapped16, vertex_word,
    wrapped16,
};
use crate::gte::transform::{
    cos_1_3_12, cosine_of, sin_1_3_12, sine_of, sines_of_the_quarters,
};

verus! {

/// A [`BitmapFont`] installed in VRAM and ready to draw from.
#[derive(Copy, Clone, Debug)]
pub struct FontAtlas {
    pub font: &'static BitmapFont,
    pub tpage: Tpage,
    /// Pre-encoded CLUT half-word.
    pub clut_word: u16,
    /// How many glyphs per row of the atlas texture.
    pub glyphs_per_row: u16,
    /// Page-local texel origin of this atlas inside a packed page.
    pub uv_origin: (u8, u8),
}

/// `value` scaled by a Q8 factor (256 is one) and rounded, but at least 1.
pub open spec fn scaled_q8(value: i16, scale_q8: u16) -> i16 {
    let x = (value * scale_q8 + 128) / 256;
    if x < 1 {
        1
    } else {
        saturated16(x)
    }
}

/// A Q8 number rounded to the nearest integer, halves away from zero.
pub open spec fn rounded_q8(value_q8: i32) -> i16 {
    let x = if value_q8 >= 0 {
        (value_q8 + 128) / 256
    } else {
        -((128 - value_q8) / 256)
    };
    saturated16(x)
}

/// Scale a glyph dimension by a Q8 factor.
pub fn scale_q8_i16(value: i16, scale_q8: u16) -> (scaled: i16)
    ensures
        scaled == scaled_q8(value, scale_q8),
{
    assert(-0x8000 * 0xFFFF <= value * scale_q8 <= 0x7FFF * 0xFFFF) by (nonlinear_arith)
        requires
            -0x8000 <= value <= 0x7FFF,
            0 <= scale_q8 <= 0xFFFF,
    ;
    let product: i64 = value as i64 * scale_q8 as i64;
    let x = floor_div(product + 128, 256);
    if x < 1 {
        1
    } else {
        saturate16(x)
    }
}

/// Round a Q8 screen coordinate to a pixel.
pub fn round_q8_to_i16(value_q8: i32) -> (rounded: i16)
    ensures
        rounded == rounded_q8(value_q8),
{
    let wide = value_q8 as i64;
    if wide >= 0 {
        saturate16(floor_div(wide + 128, 256))
    } else {
        saturate16(-floor_div(128 - wide, 256))
    }
}

/// GPU semi-transparency equation for [`FontAtlas::draw_text_blended`].
///
/// The choice is *not* per-primitive: the primitive only carries a "blend me"
/// bit, and the equation comes from the two-bit ABR field of the current draw
/// mode.
#[derive(Copy, Clone, Debug, PartialEq, Eq, Structural)]
pub enum TextBlend {
    /// `(background + foreground) / 2`. A fixed 50% wash; the tint still
    /// recolours, but it cannot fade a glyph away.
    Average,
    /// `background + foreground`, clamped per channel. The mode to reach
    /// for when text has to fade.
    Add,
    /// `background - foreground`, clamped per channel. Works as a drop shadow.
    Subtract,
    /// `background + foreground / 4`, clamped per channel.
    AddQuarter,
}

impl TextBlend {
    pub open spec fn spec_abr(self) -> u8 {
        match self {
            TextBlend::Average => 0,
            TextBlend::Add => 1,
            TextBlend::Subtract => 2,
            TextBlend::AddQuarter => 3,
        }
    }

    /// The two-bit draw-mode semi-transparency ("ABR") field selecting
    /// this equation.
    pub fn abr(self) -> (abr: u8)
        ensures
            abr == self.spec_abr(),
            abr < 4,
    {
        match self {
            TextBlend::Average => 0,
            TextBlend::Add => 1,
            TextBlend::Subtract => 2,
            TextBlend::AddQuarter => 3,
        }
    }
}

/// GP0 command for a variable-size textured rectangle.
pub const RECT_CMD: u32 = 0x6400_0000;

/// GP0 command for a variable-size textured rectangle with the
/// semi-transparency bit (25) set.
pub const SEMI_TRANSPARENT_RECT_CMD: u32 = 0x6600_0000;

/// GP0 command for a variable-size MONOCHROME rectangle with the
/// semi-transparency bit (25) set.
///
/// Untextured, so it costs three data words however large it is.
pub const SEMI_TRANSPARENT_FLAT_RECT_CMD: u32 = 0x6200_0000;

/// The draw-mode word that installs `tpage` with `blend`'s equation in
/// the ABR field.
pub fn blended_draw_mode_word(tpage: Tpage, blend: TextBlend) -> (word: u32)
    requires
        tpage.wf(),
    ensures
        word == blended_mode(tpage, blend),
{
    tpage.draw_mode_word(blend.abr())
}

/// The draw-mode word that installs `tpage` for opaque drawing.
pub open spec fn opaque_mode(tpage: Tpage) -> u32 {
    (0xE100_0400 + tpage.page_bits(0)) as u32
}

/// The draw-mode word that installs `tpage` with an equation.
pub open spec fn blended_mode(tpage: Tpage, blend: TextBlend) -> u32 {
    (0xE100_0400 + tpage.page_bits(blend.spec_abr())) as u32
}

/// Only the blend field of the draw mode depends on the equation.
pub proof fn blending_moves_only_the_blend_field(tpage: Tpage, blend: TextBlend)
    requires
        tpage.wf(),
    ensures
        tpage.page_bits(blend.spec_abr()) == tpage.page_bits(0) + 0x20 * blend.spec_abr(),
        tpage.page_bits(blend.spec_abr()) / 0x20 % 4 == blend.spec_abr(),
        0 <= tpage.page_bits(blend.spec_abr()) < 0x200,
{
}

/// The four corner texture coordinates of a glyph cell: top-left, top-right,
/// bottom-left, bottom-right, the far edges held at 255.
pub open spec fn corners_of(u: u8, v: u8, gw: u8, gh: u8) -> Seq<(u8, u8)> {
    let u1 = if u + gw > 255 {
        255u8
    } else {
        (u + gw) as u8
    };
    let v1 = if v + gh > 255 {
        255u8
    } else {
        (v + gh) as u8
    };
    seq![(u, v), (u1, v), (u, v1), (u1, v1)]
}

/// The four corner UVs (texel coords) of a glyph cell whose top-left is
/// `(u, v)` and size is `gw x gh`, with the far edge **saturated at 255**
/// instead of wrapping. Corner order matches the quad-path vertices: top-left,
/// top-right, bottom-left, bottom-right.
///
/// A full-width 256-texel atlas puts the rightmost column so that the far U is
/// 256, which would wrap to `0` in the `u8` UV field and smear that glyph.
pub fn glyph_quad_uvs(u: u8, v: u8, gw: u8, gh: u8) -> (uvs: [(u8, u8); 4])
    ensures
        uvs@ == corners_of(u, v, gw, gh),
{
    let u1 = u.saturating_add(gw);
    let v1 = v.saturating_add(gh);
    let uvs = [(u, v), (u1, v), (u, v1), (u1, v1)];
    assert(uvs@ =~= corners_of(u, v, gw, gh));
    uvs
}

/// The texture coordinate of the glyph of `ch`, if the font covers it.
pub open spec fn uv_of(atlas: FontAtlas, ch: char) -> Option<(u8, u8)> {
    match index_of(*atlas.font, ch) {
        None => None,
        Some(i) => {
            let per_row = atlas.glyphs_per_row as int;
            Some(
                (
                    ((atlas.uv_origin.0 + i % per_row * cell_width_of(*atlas.font)) % 256) as u8,
                    ((atlas.uv_origin.1 + i / per_row * atlas.font.glyph_h) % 256) as u8,
                ),
            )
        },
    }
}

/// The nine words of a textured quad.
pub open spec fn quad_words(
    verts: Seq<(i16, i16)>,
    uvs: Seq<(u8, u8)>,
    command: u32,
    clut: u16,
    tpage: u16,
) -> Seq<u32> {
    seq![
        command,
        vertex_word(verts[0].0, verts[0].1),
        texcoord_word(uvs[0].0, uvs[0].1, clut),
        vertex_word(verts[1].0, verts[1].1),
        texcoord_word(uvs[1].0, uvs[1].1, tpage),
        vertex_word(verts[2].0, verts[2].1),
        texcoord_word(uvs[2].0, uvs[2].1, 0),
        vertex_word(verts[3].0, verts[3].1),
        texcoord_word(uvs[3].0, uvs[3].1, 0),
    ]
}

/// The twelve words of a Gouraud-textured quad; the colour of the first corner
/// rides in the command.
pub open spec fn gouraud_quad_words(
    verts: Seq<(i16, i16)>,
    uvs: Seq<(u8, u8)>,
    colors: Seq<(u8, u8, u8)>,
    command: u32,
    clut: u16,
    tpage: u16,
) -> Seq<u32> {
    seq![
        command,
        vertex_word(verts[0].0, verts[0].1),
        texcoord_word(uvs[0].0, uvs[0].1, clut),
        color_word(colors[1].0, colors[1].1, colors[1].2),
        vertex_word(verts[1].0, verts[1].1),
        texcoord_word(uvs[1].0, uvs[1].1, tpage),
        color_word(colors[2].0, colors[2].1, colors[2].2),
        vertex_word(verts[2].0, verts[2].1),
        texcoord_word(uvs[2].0, uvs[2].1, 0),
        color_word(colors[3].0, colors[3].1, colors[3].2),
        vertex_word(verts[3].0, verts[3].1),
        texcoord_word(uvs[3].0, uvs[3].1, 0),
    ]
}

fn push_textured_quad(
    words: &mut Vec<u32>,
    verts: [(i16, i16); 4],
    uvs: [(u8, u8); 4],
    command: u32,
    clut: u16,
    tpage: u16,
)
    ensures
        final(words)@ == old(words)@ + quad_words(verts@, uvs@, command, clut, tpage),
{
    words.push(command);
    words.push(pack_vertex(verts[0].0, verts[0].1));
    words.push(pack_texcoord(uvs[0].0, uvs[0].1, clut));
    words.push(pack_vertex(verts[1].0, verts[1].1));
    words.push(pack_texcoord(uvs[1].0, uvs[1].1, tpage));
    words.push(pack_vertex(verts[2].0, verts[2].1));
    words.push(pack_texcoord(uvs[2].0, uvs[2].1, 0));
    words.push(pack_vertex(verts[3].0, verts[3].1));
    words.push(pack_texcoord(uvs[3].0, uvs[3].1, 0));
    assert(words@ =~= old(words)@ + quad_words(verts@, uvs@, command, clut, tpage));
}

fn push_textured_gouraud_quad(
    words: &mut Vec<u32>,
    verts: [(i16, i16); 4],
    uvs: [(u8, u8); 4],
    colors: [(u8, u8, u8); 4],
    command: u32,
    clut: u16,
    tpage: u16,
)
    ensures
        final(words)@ == old(words)@ + gouraud_quad_words(
            verts@,
            uvs@,
            colors@,
            command,
            clut,
            tpage,
        ),
{
    words.push(command);
    words.push(pack_vertex(verts[0].0, verts[0].1));
    words.push(pack_texcoord(uvs[0].0, uvs[0].1, clut));
    words.push(pack_color(colors[1].0, colors[1].1, colors[1].2));
    words.push(pack_vertex(verts[1].0, verts[1].1));
    words.push(pack_texcoord(uvs[1].0, uvs[1].1, tpage));
    words.push(pack_color(colors[2].0, colors[2].1, colors[2].2));
    words.push(pack_vertex(verts[2].0, verts[2].1));
    words.push(pack_texcoord(uvs[2].0, uvs[2].1, 0));
    words.push(pack_color(colors[3].0, colors[3].1, colors[3].2));
    words.push(pack_vertex(verts[3].0, verts[3].1));
    words.push(pack_texcoord(uvs[3].0, uvs[3].1, 0));
    assert(words@ =~= old(words)@ + gouraud_quad_words(
        verts@,
        uvs@,
        colors@,
        command,
        clut,
        tpage,
    ));
}

/// Where the pen is behind `text` on the rectangle path.
pub open spec fn pen_of(font: BitmapFont, text: Seq<char>, x: i16, gap: int) -> i16
    decreases text.len(),
{
    if text.len() == 0 {
        x
    } else {
        wrapped16(pen_of(font, text.drop_last(), x, gap) + advance_of(font, text.last()) + gap)
    }
}

/// The rectangles of `text`: for each covered character a command, a corner, a
/// texture coordinate and a size.
pub open spec fn rect_words(
    atlas: FontAtlas,
    text: Seq<char>,
    x: i16,
    y: i16,
    gap: int,
    command: u32,
) -> Seq<u32>
    decreases text.len(),
{
    if text.len() == 0 {
        Seq::empty()
    } else {
        let before = text.drop_last();
        rect_words(atlas, before, x, y, gap, command) + match uv_of(atlas, text.last()) {
            None => Seq::empty(),
            Some((u, v)) => seq![
                command,
                vertex_word(pen_of(*atlas.font, before, x, gap), y),
                texcoord_word(u, v, atlas.clut_word),
                size_word(atlas.font.glyph_w as u16, atlas.font.glyph_h as u16),
            ],
        }
    }
}

/// The commands that draw a run of opaque text: the atlas's page as the draw
/// mode, then the glyphs.
pub open spec fn plain_text(
    atlas: FontAtlas,
    text: Seq<char>,
    x: i16,
    y: i16,
    gap: int,
    tint: (u8, u8, u8),
) -> Seq<u32> {
    seq![opaque_mode(atlas.tpage)] + rect_words(
        atlas,
        text,
        x,
        y,
        gap,
        (RECT_CMD + color_word(tint.0, tint.1, tint.2)) as u32,
    )
}

/// The commands that draw a run of blended text: the equation as part of the
/// draw mode, the glyphs, and the opaque draw mode again.
pub open spec fn blended_text(
    atlas: FontAtlas,
    text: Seq<char>,
    x: i16,
    y: i16,
    gap: int,
    tint: (u8, u8, u8),
    blend: TextBlend,
) -> Seq<u32> {
    seq![blended_mode(atlas.tpage, blend), RESET_TEXTURE_WINDOW] + rect_words(
        atlas,
        text,
        x,
        y,
        gap,
        (SEMI_TRANSPARENT_RECT_CMD + color_word(tint.0, tint.1, tint.2)) as u32,
    ) + seq![opaque_mode(atlas.tpage)]
}

/// A blended run leaves the draw mode that opaque text begins with.
pub proof fn blending_ends_opaque(
    atlas: FontAtlas,
    text: Seq<char>,
    x: i16,
    y: i16,
    gap: int,
    tint: (u8, u8, u8),
    blend: TextBlend,
)
    ensures
        blended_text(atlas, text, x, y, gap, tint, blend).last() == plain_text(
            atlas,
            text,
            x,
            y,
            gap,
            tint,
        )[0],
{
}

/// Where the pen is behind `text` on the scaled path, in Q8; each step
/// saturates.
pub open spec fn pen_q8_of(
    font: BitmapFont,
    text: Seq<char>,
    x: i16,
    scale_q8: u16,
    gap: i8,
) -> i32
    decreases text.len(),
{
    if text.len() == 0 {
        (x * 256) as i32
    } else {
        saturated32(
            saturated32(
                pen_q8_of(font, text.drop_last(), x, scale_q8, gap) + advance_of(font, text.last())
                    * scale_q8,
            ) + gap * 256,
        )
    }
}

/// The corners of an upright rectangle: top-left, top-right, bottom-left,
/// bottom-right.
pub open spec fn upright(x: i16, y: i16, w: i16, h: i16) -> Seq<(i16, i16)> {
    seq![
        (x, y),
        (wrapped16(x + w), y),
        (x, wrapped16(y + h)),
        (wrapped16(x + w), wrapped16(y + h)),
    ]
}

fn upright_corners(x: i16, y: i16, w: i16, h: i16) -> (verts: [(i16, i16); 4])
    ensures
        verts@ == upright(x, y, w, h),
{
    let x1 = to_wrapped16(x as i32 + w as i32);
    let y1 = to_wrapped16(y as i32 + h as i32);
    let verts = [(x, y), (x1, y), (x, y1), (x1, y1)];
    assert(verts@ =~= upright(x, y, w, h));
    verts
}

/// The quads of scaled `text`.
pub open spec fn scaled_words(
    atlas: FontAtlas,
    text: Seq<char>,
    x: i16,
    y: i16,
    scale: (u16, u16),
    gap: i8,
    command: u32,
) -> Seq<u32>
    decreases text.len(),
{
    if text.len() == 0 {
        Seq::empty()
    } else {
        let before = text.drop_last();
        let font = *atlas.font;
        scaled_words(atlas, before, x, y, scale, gap, command) + match uv_of(atlas, text.last()) {
            None => Seq::empty(),
            Some((u, v)) => quad_words(
                upright(
                    rounded_q8(pen_q8_of(font, before, x, scale.0, gap)),
                    y,
                    scaled_q8(font.glyph_w as i16, scale.0),
                    scaled_q8(font.glyph_h as i16, scale.1),
                ),
                corners_of(u, v, font.glyph_w, font.glyph_h),
                command,
                atlas.clut_word,
                atlas.tpage.page_bits(0) as u16,
            ),
        }
    }
}

/// The Gouraud quads of scaled `text`.
pub open spec fn scaled_gouraud_words(
    atlas: FontAtlas,
    text: Seq<char>,
    x: i16,
    y: i16,
    scale: (u16, u16),
    gap: i8,
    colors: Seq<(u8, u8, u8)>,
    command: u32,
) -> Seq<u32>
    decreases text.len(),
{
    if text.len() == 0 {
        Seq::empty()
    } else {
        let before = text.drop_last();
        let font = *atlas.font;
        scaled_gouraud_words(atlas, before, x, y, scale, gap, colors, command) + match uv_of(
            atlas,
            text.last(),
        ) {
            None => Seq::empty(),
            Some((u, v)) => gouraud_quad_words(
                upright(
                    rounded_q8(pen_q8_of(font, before, x, scale.0, gap)),
                    y,
                    scaled_q8(font.glyph_w as i16, scale.0),
                    scaled_q8(font.glyph_h as i16, scale.1),
                ),
                corners_of(u, v, font.glyph_w, font.glyph_h),
                colors,
                command,
                atlas.clut_word,
                atlas.tpage.page_bits(0) as u16,
            ),
        }
    }
}

/// Where the pen is behind `text` on the integer-scaled gradient path.
pub open spec fn pen_scaled_of(font: BitmapFont, text: Seq<char>, x: i16, scale: u8) -> i16
    decreases text.len(),
{
    if text.len() == 0 {
        x
    } else {
        wrapped16(
            pen_scaled_of(font, text.drop_last(), x, scale) + advance_of(font, text.last())
                * scale,
        )
    }
}

/// The Gouraud quads of `text` on the integer-scaled gradient path.
pub open spec fn gradient_words(
    atlas: FontAtlas,
    text: Seq<char>,
    x: i16,
    y: i16,
    scale: (u8, u8),
    colors: Seq<(u8, u8, u8)>,
    command: u32,
) -> Seq<u32>
    decreases text.len(),
{
    if text.len() == 0 {
        Seq::empty()
    } else {
        let before = text.drop_last();
        let font = *atlas.font;
        gradient_words(atlas, before, x, y, scale, colors, command) + match uv_of(
            atlas,
            text.last(),
        ) {
            None => Seq::empty(),
            Some((u, v)) => gouraud_quad_words(
                upright(
                    pen_scaled_of(font, before, x, scale.0),
                    y,
                    wrapped16(font.glyph_w * scale.0),
                    wrapped16(font.glyph_h * scale.1),
                ),
                corners_of(u, v, font.glyph_w, font.glyph_h),
                colors,
                command,
                atlas.clut_word,
                atlas.tpage.page_bits(0) as u16,
            ),
        }
    }
}

/// A plane map in Q12: the image of `(lx, ly)` is the origin plus the rows of
/// the matrix times it, rounded down.
pub struct Map2 {
    pub origin: (int, int),
    pub m00: int,
    pub m01: int,
    pub m10: int,
    pub m11: int,
}

/// The image of a point.
pub open spec fn mapped(map: Map2, lx: int, ly: int) -> (i16, i16) {
    (
        wrapped16(map.origin.0 + (map.m00 * lx + map.m01 * ly) / 4096),
        wrapped16(map.origin.1 + (map.m10 * lx + map.m11 * ly) / 4096),
    )
}

/// The quads of `text` under a plane map, with its top-left corner at
/// `(left, top)` before the map.
pub open spec fn mapped_words(
    atlas: FontAtlas,
    text: Seq<char>,
    map: Map2,
    left: int,
    top: int,
    command: u32,
) -> Seq<u32>
    decreases text.len(),
{
    if text.len() == 0 {
        Seq::empty()
    } else {
        let before = text.drop_last();
        let font = *atlas.font;
        let x0 = left + total_advance(font, before);
        let x1 = x0 + font.glyph_w;
        let y1 = top + font.glyph_h;
        mapped_words(atlas, before, map, left, top, command) + match uv_of(atlas, text.last()) {
            None => Seq::empty(),
            Some((u, v)) => quad_words(
                seq![
                    mapped(map, x0, top),
                    mapped(map, x1, top),
                    mapped(map, x0, y1),
                    mapped(map, x1, y1),
                ],
                corners_of(u, v, font.glyph_w, font.glyph_h),
                command,
                atlas.clut_word,
                atlas.tpage.page_bits(0) as u16,
            ),
        }
    }
}

/// The turn by `angle_q12` about `(cx, cy)`.
pub open spec fn rotation_of(cx: i16, cy: i16, angle_q12: u16) -> Map2 {
    let (s, c) = (sine_of(angle_q12 as int / 16), cosine_of(angle_q12 as int / 16));
    Map2 {
        origin: (cx as int, cy as int),
        m00: c as int,
        m01: -s,
        m10: s as int,
        m11: c as int,
    }
}

/// Text at angle zero is upright, and a full turn changes nothing.
pub proof fn full_turns_change_nothing(cx: i16, cy: i16, angle_q12: u16)
    requires
        angle_q12 + 4096 <= 0xFFFF,
    ensures
        rotation_of(cx, cy, (angle_q12 + 4096) as u16) == rotation_of(cx, cy, angle_q12),
        rotation_of(cx, cy, 0) == (Map2 {
            origin: (cx as int, cy as int),
            m00: 4096,
            m01: 0,
            m10: 0,
            m11: 4096,
        }),
{
    sines_of_the_quarters();
    let a = angle_q12 as int / 16;
    assert((angle_q12 + 4096) / 16 == a + 256);
    assert((a + 256) % 256 == a % 256 && (a + 64 + 256) % 256 == (a + 64) % 256);
}

/// The longest text, in characters, that the mapped paths measure: its pen stays
/// in 32 bits.
pub const MAX_MAPPED_TEXT: usize = 0x80_0000;

impl FontAtlas {
    /// The page is a real one, and there is at least one glyph in a row.
    pub open spec fn wf(self) -> bool {
        &&& self.tpage.wf()
        &&& self.glyphs_per_row > 0
    }

    /// Look up the atlas UV for a character, returning the
    /// top-left `(u, v)` of the glyph in texel coords, or `None`
    /// if the char is outside the font's range.
    pub fn glyph_uv(&self, ch: char) -> (uv: Option<(u8, u8)>)
        requires
            self.wf(),
        ensures
            uv == uv_of(*self, ch),
    {
        let index = self.font.glyph_index(ch)?;
        let col = (index % self.glyphs_per_row) as u32;
        let row = (index / self.glyphs_per_row) as u32;
        let cell = cell_width(self.font) as u32;
        assert(0 <= col * cell <= 0xFFFF * 256) by (nonlinear_arith)
            requires
                0 <= col <= 0xFFFF,
                0 <= cell <= 256,
        ;
        assert(0 <= row * self.font.glyph_h <= 0xFFFF * 255) by (nonlinear_arith)
            requires
                0 <= row <= 0xFFFF,
                0 <= self.font.glyph_h <= 255,
        ;
        let u = self.uv_origin.0 as u32 + col * cell;
        let v = self.uv_origin.1 as u32 + row * self.font.glyph_h as u32;
        Some(((u % 256) as u8, (v % 256) as u8))
    }

    /// Append the rectangles of `text`.
    fn push_rects(
        &self,
        words: &mut Vec<u32>,
        x: i16,
        y: i16,
        text: &str,
        letter_spacing: i8,
        command: u32,
    )
        requires
            self.wf(),
        ensures
            final(words)@ == old(words)@ + rect_words(
                *self,
                text@,
                x,
                y,
                letter_spacing as int,
                command,
            ),
    {
        let font = self.font;
        let glyph_size = pack_xy(font.glyph_w as u16, font.glyph_h as u16);
        let ghost gap = letter_spacing as int;
        let mut cursor_x = x;
        assert(text@.take(0) =~= Seq::<char>::empty());
        assert(old(words)@ + Seq::<u32>::empty() =~= old(words)@);
        for ch in it: text.chars()
            invariant
                it.seq() == text@,
                self.wf(),
                font == self.font,
                gap == letter_spacing,
                glyph_size == size_word(font.glyph_w as u16, font.glyph_h as u16),
                cursor_x == pen_of(*font, text@.take(it.index()), x, gap),
                words@ == old(words)@ + rect_words(
                    *self,
                    text@.take(it.index()),
                    x,
                    y,
                    gap,
                    command,
                ),
        {
            let ghost before = text@.take(it.index());
            let ghost so_far = words@;
            assert(text@.take(it.index() + 1).drop_last() =~= before);
            if let Some((u, v)) = self.glyph_uv(ch) {
                words.push(command);
                words.push(pack_vertex(cursor_x, y));
                words.push(pack_texcoord(u, v, self.clut_word));
                words.push(glyph_size);
            }
            assert(words@ =~= old(words)@ + rect_words(
                *self,
                text@.take(it.index() + 1),
                x,
                y,
                gap,
                command,
            ));
            cursor_x = to_wrapped16(
                cursor_x as i32 + font.glyph_advance(ch) as i32 + letter_spacing as i32,
            );
        }
        assert(text@.take(text@.len() as int) =~= text@);
    }

    /// Draw `text` at screen-space `(x, y)` with the given tint.
    ///
    /// `(0x80, 0x80, 0x80)` = unmodulated white; any other value
    /// recolours every glyph via the per-texel multiplier
    /// (`output = texel * tint / 128`).
    ///
    /// **Fast path** -- textured rectangles, 4 words per glyph, on the page of
    /// the current draw mode. That is set to the atlas's page first and left
    /// there.
    pub fn draw_text(&self, x: i16, y: i16, text: &str, tint: (u8, u8, u8)) -> (words: Vec<u32>)
        requires
            self.wf(),
        ensures
            words@ == plain_text(*self, text@, x, y, 0, tint),
    {
        self.draw_text_with_spacing(x, y, text, 0, tint)
    }

    /// Draw `text` with signed spacing inserted between adjacent characters.
    /// `letter_spacing` is measured in final screen pixels and is not applied
    /// after the last character.
    pub fn draw_text_with_spacing(
        &self,
        x: i16,
        y: i16,
        text: &str,
        letter_spacing: i8,
        tint: (u8, u8, u8),
    ) -> (words: Vec<u32>)
        requires
            self.wf(),
        ensures
            words@ == plain_text(*self, text@, x, y, letter_spacing as int, tint),
    {
        let mut words: Vec<u32> = Vec::new();
        words.push(self.tpage.draw_mode_word(0));
        assert(words@ =~= seq![opaque_mode(self.tpage)]);
        let command = RECT_CMD + pack_color(tint.0, tint.1, tint.2);
        self.push_rects(&mut words, x, y, text, letter_spacing, command);
        words
    }

    /// Draw `text` with the GPU's semi-transparency enabled, blending
    /// each glyph against the framebuffer with `blend`'s equation.
    ///
    /// The opaque path can only recolour a glyph, and a tint ramped toward
    /// black draws a *black* glyph, not an absent one. [`TextBlend::Add`] plus
    /// a ramped tint is the real fade -- at tint zero the glyph contributes
    /// nothing and vanishes.
    ///
    /// The atlas's opaque draw mode is restored at the end, so that a blended
    /// run leaves no stray blend equation for whatever draws next.
    pub fn draw_text_blended(
        &self,
        x: i16,
        y: i16,
        text: &str,
        tint: (u8, u8, u8),
        blend: TextBlend,
    ) -> (words: Vec<u32>)
        requires
            self.wf(),
        ensures
            words@ == blended_text(*self, text@, x, y, 0, tint, blend),
    {
        self.draw_text_blended_with_spacing(x, y, text, 0, tint, blend)
    }

    /// [`Self::draw_text_blended`] with signed inter-character spacing,
    /// measured in screen pixels and not applied after the last glyph.
    pub fn draw_text_blended_with_spacing(
        &self,
        x: i16,
        y: i16,
        text: &str,
        letter_spacing: i8,
        tint: (u8, u8, u8),
        blend: TextBlend,
    ) -> (words: Vec<u32>)
        requires
            self.wf(),
        ensures
            words@ == blended_text(*self, text@, x, y, letter_spacing as int, tint, blend),
    {
        let mut words: Vec<u32> = Vec::new();
        words.push(blended_draw_mode_word(self.tpage, blend));
        words.push(RESET_TEXTURE_WINDOW);
        let command = SEMI_TRANSPARENT_RECT_CMD + pack_color(tint.0, tint.1, tint.2);
        assert(words@ =~= seq![blended_mode(self.tpage, blend), RESET_TEXTURE_WINDOW]);
        self.push_rects(&mut words, x, y, text, letter_spacing, command);
        words.push(self.tpage.draw_mode_word(0));
        assert(words@ =~= blended_text(
            *self,
            text@,
            x,
            y,
            letter_spacing as int,
            tint,
            blend,
        ));
        words
    }

    /// Draw a flat semi-transparent rectangle in `blend`'s equation --
    /// a backing plate for a run of text drawn on top of it. Nothing, if it has
    /// no area.
    ///
    /// The blend equation is carried by the draw-mode word, which also names a
    /// texture page, and the atlas knows which one. The atlas's opaque draw mode
    /// is restored at the end.
    ///
    /// [`TextBlend::Subtract`] is the equation to reach for behind text: it
    /// scales with the tint and fades to nothing along with the text it seats.
    pub fn draw_backdrop_blended(
        &self,
        x: i16,
        y: i16,
        w: u16,
        h: u16,
        tint: (u8, u8, u8),
        blend: TextBlend,
    ) -> (words: Vec<u32>)
        requires
            self.wf(),
        ensures
            words@ == backdrop(*self, (x, y), (w, h), tint, blend),
    {
        let mut words: Vec<u32> = Vec::new();
        if w == 0 || h == 0 {
            return words;
        }
        words.push(blended_draw_mode_word(self.tpage, blend));
        words.push(SEMI_TRANSPARENT_FLAT_RECT_CMD + pack_color(tint.0, tint.1, tint.2));
        words.push(pack_vertex(x, y));
        words.push(pack_xy(w, h));
        words.push(self.tpage.draw_mode_word(0));
        words
    }

    /// Draw `text` at screen-space `(x, y)` scaled by `(scale_x, scale_y)`.
    /// `scale=(1, 1)` matches [`Self::draw_text`]'s output, but via the quad
    /// path instead of the rect path -- so prefer `draw_text` for native-size.
    ///
    /// **Quad path** -- 9 words per glyph. Textures are sampled with
    /// nearest-neighbour, so integer scales produce crisp pixel-doubled output.
    pub fn draw_text_scaled(
        &self,
        x: i16,
        y: i16,
        text: &str,
        scale_x: u8,
        scale_y: u8,
        tint: (u8, u8, u8),
    ) -> (words: Vec<u32>)
        requires
            self.wf(),
            scale_x > 0,
            scale_y > 0,
        ensures
            words@ == scaled_text(
                *self,
                text@,
                x,
                y,
                (whole_scale(scale_x), whole_scale(scale_y)),
                0,
                tint,
            ),
    {
        self.draw_text_scaled_with_spacing(x, y, text, scale_x, scale_y, 0, tint)
    }

    /// Draw `text` with Q8 fixed-point scale factors (`256` = 1.0x).
    /// This keeps the font atlas monochrome while allowing fractional
    /// screen-space glyph sizes such as 1.5x (`384`).
    pub fn draw_text_scaled_q8(
        &self,
        x: i16,
        y: i16,
        text: &str,
        scale_x_q8: u16,
        scale_y_q8: u16,
        tint: (u8, u8, u8),
    ) -> (words: Vec<u32>)
        requires
            self.wf(),
            scale_x_q8 > 0,
            scale_y_q8 > 0,
        ensures
            words@ == scaled_text(*self, text@, x, y, (scale_x_q8, scale_y_q8), 0, tint),
    {
        self.draw_text_scaled_with_spacing_q8(x, y, text, scale_x_q8, scale_y_q8, 0, tint)
    }

    /// Draw scaled text with signed spacing inserted between adjacent
    /// characters. `letter_spacing` is measured in final screen pixels, not
    /// source-glyph pixels.
    pub fn draw_text_scaled_with_spacing(
        &self,
        x: i16,
        y: i16,
        text: &str,
        scale_x: u8,
        scale_y: u8,
        letter_spacing: i8,
        tint: (u8, u8, u8),
    ) -> (words: Vec<u32>)
        requires
            self.wf(),
            scale_x > 0,
            scale_y > 0,
        ensures
            words@ == scaled_text(
                *self,
                text@,
                x,
                y,
                (whole_scale(scale_x), whole_scale(scale_y)),
                letter_spacing,
                tint,
            ),
    {
        self.draw_text_scaled_with_spacing_q8(
            x,
            y,
            text,
            scale_x as u16 * 256,
            scale_y as u16 * 256,
            letter_spacing,
            tint,
        )
    }

    /// Draw scaled text with Q8 fixed-point scale and signed spacing inserted
    /// between adjacent characters. `letter_spacing` is measured in final
    /// screen pixels, not source-glyph pixels.
    pub fn draw_text_scaled_with_spacing_q8(
        &self,
        x: i16,
        y: i16,
        text: &str,
        scale_x_q8: u16,
        scale_y_q8: u16,
        letter_spacing: i8,
        tint: (u8, u8, u8),
    ) -> (words: Vec<u32>)
        requires
            self.wf(),
            scale_x_q8 > 0,
            scale_y_q8 > 0,
        ensures
            words@ == scaled_text(
                *self,
                text@,
                x,
                y,
                (scale_x_q8, scale_y_q8),
                letter_spacing,
                tint,
            ),
    {
        let mut words: Vec<u32> = Vec::new();
        if text.is_empty() {
            return words;
        }
        let font = self.font;
        let sw = scale_q8_i16(font.glyph_w as i16, scale_x_q8);
        let sh = scale_q8_i16(font.glyph_h as i16, scale_y_q8);
        let tpage = self.tpage.uv_tpage_word(0);
        let command = polygon_opcode(false, true, true, false, false) + pack_color(
            tint.0,
            tint.1,
            tint.2,
        );
        let gap_q8: i32 = letter_spacing as i32 * 256;
        let mut cursor_q8: i32 = x as i32 * 256;
        words.push(RESET_TEXTURE_WINDOW);
        let ghost head = words@;
        let ghost scale = (scale_x_q8, scale_y_q8);
        assert(text@.take(0) =~= Seq::<char>::empty());
        assert(head + Seq::<u32>::empty() =~= head);
        for ch in it: text.chars()
            invariant
                it.seq() == text@,
                self.wf(),
                font == self.font,
                scale == (scale_x_q8, scale_y_q8),
                sw == scaled_q8(font.glyph_w as i16, scale_x_q8),
                sh == scaled_q8(font.glyph_h as i16, scale_y_q8),
                tpage == self.tpage.page_bits(0) as u16,
                gap_q8 == letter_spacing * 256,
                cursor_q8 == pen_q8_of(
                    *font,
                    text@.take(it.index()),
                    x,
                    scale_x_q8,
                    letter_spacing,
                ),
                words@ == head + scaled_words(
                    *self,
                    text@.take(it.index()),
                    x,
                    y,
                    scale,
                    letter_spacing,
                    command,
                ),
        {
            assert(text@.take(it.index() + 1).drop_last() =~= text@.take(it.index()));
            if let Some((u, v)) = self.glyph_uv(ch) {
                let verts = upright_corners(round_q8_to_i16(cursor_q8), y, sw, sh);
                let uvs = glyph_quad_uvs(u, v, font.glyph_w, font.glyph_h);
                push_textured_quad(&mut words, verts, uvs, command, self.clut_word, tpage);
            }
            assert(words@ =~= head + scaled_words(
                *self,
                text@.take(it.index() + 1),
                x,
                y,
                scale,
                letter_spacing,
                command,
            ));
            cursor_q8 = advanced_q8(cursor_q8, font.glyph_advance(ch), scale_x_q8, gap_q8);
        }
        assert(text@.take(text@.len() as int) =~= text@);
        words
    }

    /// Draw `text` with per-vertex glyph colours, Q8 scaling, and
    /// authored letter spacing.
    ///
    /// `colors` are ordered top-left, top-right, bottom-left, bottom-right.
    /// This is the general-purpose path behind gradient UI text: vertical
    /// gradients use `[top, top, bottom, bottom]`, horizontal gradients use
    /// `[left, right, left, right]`.
    pub fn draw_text_scaled_gouraud_with_spacing_q8(
        &self,
        x: i16,
        y: i16,
        text: &str,
        scale_x_q8: u16,
        scale_y_q8: u16,
        letter_spacing: i8,
        colors: [(u8, u8, u8); 4],
    ) -> (words: Vec<u32>)
        requires
            self.wf(),
            scale_x_q8 > 0,
            scale_y_q8 > 0,
        ensures
            words@ == behind_reset(
                text@,
                scaled_gouraud_words(
                    *self,
                    text@,
                    x,
                    y,
                    (scale_x_q8, scale_y_q8),
                    letter_spacing,
                    colors@,
                    gouraud_quad_command(colors@[0]),
                ),
            ),
    {
        let mut words: Vec<u32> = Vec::new();
        if text.is_empty() {
            return words;
        }
        let font = self.font;
        let sw = scale_q8_i16(font.glyph_w as i16, scale_x_q8);
        let sh = scale_q8_i16(font.glyph_h as i16, scale_y_q8);
        let tpage = self.tpage.uv_tpage_word(0);
        let command = polygon_opcode(true, true, true, false, false) + pack_color(
            colors[0].0,
            colors[0].1,
            colors[0].2,
        );
        let gap_q8: i32 = letter_spacing as i32 * 256;
        let mut cursor_q8: i32 = x as i32 * 256;
        words.push(RESET_TEXTURE_WINDOW);
        let ghost head = words@;
        let ghost scale = (scale_x_q8, scale_y_q8);
        assert(text@.take(0) =~= Seq::<char>::empty());
        assert(head + Seq::<u32>::empty() =~= head);
        for ch in it: text.chars()
            invariant
                it.seq() == text@,
                self.wf(),
                font == self.font,
                scale == (scale_x_q8, scale_y_q8),
                sw == scaled_q8(font.glyph_w as i16, scale_x_q8),
                sh == scaled_q8(font.glyph_h as i16, scale_y_q8),
                tpage == self.tpage.page_bits(0) as u16,
                gap_q8 == letter_spacing * 256,
                cursor_q8 == pen_q8_of(
                    *font,
                    text@.take(it.index()),
                    x,
                    scale_x_q8,
                    letter_spacing,
                ),
                words@ == head + scaled_gouraud_words(
                    *self,
                    text@.take(it.index()),
                    x,
                    y,
                    scale,
                    letter_spacing,
                    colors@,
                    command,
                ),
        {
            assert(text@.take(it.index() + 1).drop_last() =~= text@.take(it.index()));
            if let Some((u, v)) = self.glyph_uv(ch) {
                let verts = upright_corners(round_q8_to_i16(cursor_q8), y, sw, sh);
                let uvs = glyph_quad_uvs(u, v, font.glyph_w, font.glyph_h);
                push_textured_gouraud_quad(
                    &mut words,
                    verts,
                    uvs,
                    colors,
                    command,
                    self.clut_word,
                    tpage,
                );
            }
            assert(words@ =~= head + scaled_gouraud_words(
                *self,
                text@.take(it.index() + 1),
                x,
                y,
                scale,
                letter_spacing,
                colors@,
                command,
            ));
            cursor_q8 = advanced_q8(cursor_q8, font.glyph_advance(ch), scale_x_q8, gap_q8);
        }
        assert(text@.take(text@.len() as int) =~= text@);
        words
    }

    /// Draw `text` with a top-to-bottom colour gradient.
    ///
    /// Top of each glyph is tinted `top`; bottom is tinted `bottom`. The GPU
    /// interpolates down each glyph, producing a smooth vertical gradient
    /// across the whole line.
    ///
    /// **Gouraud quad path** -- 12 words per glyph.
    pub fn draw_text_gradient(
        &self,
        x: i16,
        y: i16,
        text: &str,
        top: (u8, u8, u8),
        bottom: (u8, u8, u8),
    ) -> (words: Vec<u32>)
        requires
            self.wf(),
        ensures
            words@ == gradient_text(*self, text@, x, y, (1, 1), top, bottom),
    {
        self.draw_text_scaled_gradient(x, y, text, 1, 1, top, bottom)
    }

    /// Draw `text` with a top-to-bottom gradient, scaled by
    /// `(scale_x, scale_y)`. Combines [`Self::draw_text_scaled`]
    /// and [`Self::draw_text_gradient`] in one draw.
    pub fn draw_text_scaled_gradient(
        &self,
        x: i16,
        y: i16,
        text: &str,
        scale_x: u8,
        scale_y: u8,
        top: (u8, u8, u8),
        bottom: (u8, u8, u8),
    ) -> (words: Vec<u32>)
        requires
            self.wf(),
            scale_x > 0,
            scale_y > 0,
        ensures
            words@ == gradient_text(*self, text@, x, y, (scale_x, scale_y), top, bottom),
    {
        let mut words: Vec<u32> = Vec::new();
        if text.is_empty() {
            return words;
        }
        let font = self.font;
        let sw = scaled_cell(font.glyph_w, scale_x);
        let sh = scaled_cell(font.glyph_h, scale_y);
        let tpage = self.tpage.uv_tpage_word(0);
        let command = polygon_opcode(true, true, true, false, false) + pack_color(
            top.0,
            top.1,
            top.2,
        );
        let colors = [top, top, bottom, bottom];
        assert(colors@ =~= seq![top, top, bottom, bottom]);
        let mut cursor_x = x;
        words.push(RESET_TEXTURE_WINDOW);
        let ghost head = words@;
        let ghost scale = (scale_x, scale_y);
        assert(text@.take(0) =~= Seq::<char>::empty());
        assert(head + Seq::<u32>::empty() =~= head);
        for ch in it: text.chars()
            invariant
                it.seq() == text@,
                self.wf(),
                font == self.font,
                scale == (scale_x, scale_y),
                sw == wrapped16(font.glyph_w * scale_x),
                sh == wrapped16(font.glyph_h * scale_y),
                tpage == self.tpage.page_bits(0) as u16,
                cursor_x == pen_scaled_of(*font, text@.take(it.index()), x, scale_x),
                words@ == head + gradient_words(
                    *self,
                    text@.take(it.index()),
                    x,
                    y,
                    scale,
                    colors@,
                    command,
                ),
        {
            assert(text@.take(it.index() + 1).drop_last() =~= text@.take(it.index()));
            if let Some((u, v)) = self.glyph_uv(ch) {
                let verts = upright_corners(cursor_x, y, sw, sh);
                let uvs = glyph_quad_uvs(u, v, font.glyph_w, font.glyph_h);
                push_textured_gouraud_quad(
                    &mut words,
                    verts,
                    uvs,
                    colors,
                    command,
                    self.clut_word,
                    tpage,
                );
            }
            assert(words@ =~= head + gradient_words(
                *self,
                text@.take(it.index() + 1),
                x,
                y,
                scale,
                colors@,
                command,
            ));
            let advance = font.glyph_advance(ch);
            assert(0 <= advance * scale_x <= 255 * 255) by (nonlinear_arith)
                requires
                    0 <= advance <= 255,
                    0 <= scale_x <= 255,
            ;
            cursor_x = to_wrapped16(cursor_x as i32 + advance as i32 * scale_x as i32);
        }
        assert(text@.take(text@.len() as int) =~= text@);
        words
    }

    /// Append the quads of `text` under a plane map in Q12.
    #[verifier::rlimit(30)]
    fn push_mapped(
        &self,
        words: &mut Vec<u32>,
        text: &str,
        origin: (i16, i16),
        m: [[i32; 2]; 2],
        left: i32,
        top: i32,
        command: u32,
    )
        requires
            self.wf(),
            text@.len() <= MAX_MAPPED_TEXT,
            -0x1_0000 <= left <= 0,
            -0x100 <= top <= 0,
            forall|i: int, j: int|
                0 <= i < 2 && 0 <= j < 2 ==> -0x8000 <= #[trigger] m@[i]@[j] <= 0x8000,
        ensures
            final(words)@ == old(words)@ + mapped_words(
                *self,
                text@,
                map_of(origin, m@),
                left as int,
                top as int,
                command,
            ),
    {
        let font = self.font;
        let tpage = self.tpage.uv_tpage_word(0);
        let ghost map = map_of(origin, m@);
        let mut cursor: i32 = 0;
        assert(text@.take(0) =~= Seq::<char>::empty());
        assert(old(words)@ + Seq::<u32>::empty() =~= old(words)@);
        for ch in it: text.chars()
            invariant
                it.seq() == text@,
                self.wf(),
                font == self.font,
                map == map_of(origin, m@),
                tpage == self.tpage.page_bits(0) as u16,
                text@.len() <= MAX_MAPPED_TEXT,
                -0x1_0000 <= left <= 0,
                -0x100 <= top <= 0,
                forall|i: int, j: int|
                    0 <= i < 2 && 0 <= j < 2 ==> -0x8000 <= #[trigger] m@[i]@[j] <= 0x8000,
                cursor == total_advance(*font, text@.take(it.index())),
                cursor <= 255 * it.index(),
                words@ == old(words)@ + mapped_words(
                    *self,
                    text@.take(it.index()),
                    map,
                    left as int,
                    top as int,
                    command,
                ),
        {
            assert(text@.take(it.index() + 1).drop_last() =~= text@.take(it.index()));
            if let Some((u, v)) = self.glyph_uv(ch) {
                let x0: i64 = left as i64 + cursor as i64;
                let x1: i64 = x0 + font.glyph_w as i64;
                let y0: i64 = top as i64;
                let y1: i64 = y0 + font.glyph_h as i64;
                let verts = [
                    map_point(origin, m, x0, y0, Ghost(map)),
                    map_point(origin, m, x1, y0, Ghost(map)),
                    map_point(origin, m, x0, y1, Ghost(map)),
                    map_point(origin, m, x1, y1, Ghost(map)),
                ];
                assert(verts@ =~= seq![
                    mapped(map, x0 as int, y0 as int),
                    mapped(map, x1 as int, y0 as int),
                    mapped(map, x0 as int, y1 as int),
                    mapped(map, x1 as int, y1 as int),
                ]);
                let uvs = glyph_quad_uvs(u, v, font.glyph_w, font.glyph_h);
                push_textured_quad(words, verts, uvs, command, self.clut_word, tpage);
            }
            assert(words@ =~= old(words)@ + mapped_words(
                *self,
                text@.take(it.index() + 1),
                map,
                left as int,
                top as int,
                command,
            ));
            cursor = cursor + font.glyph_advance(ch) as i32;
        }
        assert(text@.take(text@.len() as int) =~= text@);
    }

    /// Draw `text` rotated around the pivot `(cx, cy)` by `angle_q12`, of which
    /// 4096 make a full turn. The string is centred on the pivot at angle 0 --
    /// its natural extent is `text_width x glyph_h`, anchored so `(cx, cy)` sits
    /// at the centre of the baseline.
    ///
    /// **Quad path** -- 9 words per glyph. The sine comes from a table of 256
    /// entries for a full turn, so sixteen angles share one.
    pub fn draw_text_rotated(
        &self,
        cx: i16,
        cy: i16,
        text: &str,
        angle_q12: u16,
        tint: (u8, u8, u8),
    ) -> (words: Vec<u32>)
        requires
            self.wf(),
            text@.len() <= MAX_MAPPED_TEXT,
        ensures
            words@ == rotated_text(*self, text@, cx, cy, angle_q12, tint),
    {
        let mut words: Vec<u32> = Vec::new();
        if text.is_empty() {
            return words;
        }
        let total_w = self.font.text_width(text);
        let left = -((total_w / 2) as i32);
        let top = -((self.font.glyph_h / 2) as i32);
        let (s, c) = (sin_1_3_12(angle_q12 / 16) as i32, cos_1_3_12(angle_q12 / 16) as i32);
        let command = polygon_opcode(false, true, true, false, false) + pack_color(
            tint.0,
            tint.1,
            tint.2,
        );
        words.push(RESET_TEXTURE_WINDOW);
        let m = [[c, -s], [s, c]];
        self.push_mapped(&mut words, text, (cx, cy), m, left, top, command);
        words
    }

    /// Draw `text` through an arbitrary 2x2 affine transform.
    ///
    /// The matrix `m` is Q3.12 fixed-point -- `m = [[4096, 0], [0, 4096]]` is
    /// the identity (native size, axis-aligned). Each glyph's local corner
    /// `(lx, ly)` maps onto screen space as
    /// `(origin.0 + (m[0][0]*lx + m[0][1]*ly) >> 12,
    ///   origin.1 + (m[1][0]*lx + m[1][1]*ly) >> 12)`.
    ///
    /// Covers rotation, non-uniform scale, shear, reflection, and
    /// any combination.
    ///
    /// **Quad path** -- 9 words per glyph.
    pub fn draw_text_affine(
        &self,
        origin: (i16, i16),
        text: &str,
        m: [[i16; 2]; 2],
        tint: (u8, u8, u8),
    ) -> (words: Vec<u32>)
        requires
            self.wf(),
            text@.len() <= MAX_MAPPED_TEXT,
        ensures
            words@ == affine_text(*self, text@, origin, m, tint),
    {
        let mut words: Vec<u32> = Vec::new();
        if text.is_empty() {
            return words;
        }
        let wide = [[m[0][0] as i32, m[0][1] as i32], [m[1][0] as i32, m[1][1] as i32]];
        let command = polygon_opcode(false, true, true, false, false) + pack_color(
            tint.0,
            tint.1,
            tint.2,
        );
        words.push(RESET_TEXTURE_WINDOW);
        self.push_mapped(&mut words, text, origin, wide, 0, 0, command);
        words
    }

    /// Pixel width of `text` when rendered with this atlas.
    pub fn text_width(&self, text: &str) -> (width: u16)
        ensures
            width == measured(*self.font, text@),
    {
        self.font.text_width(text)
    }

    /// Pixel advance of one character, the per-glyph term
    /// [`FontAtlas::text_width`] sums.
    ///
    /// Exposed so a caller scanning a string can carry a running width
    /// instead of re-measuring every prefix.
    pub fn glyph_advance(&self, ch: char) -> (advance: u8)
        ensures
            advance == advance_of(*self.font, ch),
    {
        self.font.glyph_advance(ch)
    }

    /// Pixel width of `text` using this atlas's font metrics plus signed
    /// spacing inserted between adjacent characters.
    pub fn text_width_with_spacing(&self, text: &str, letter_spacing: i8) -> (width: u16)
        ensures
            width == if spaced_width(*self.font, text@, letter_spacing) < 0 {
                0
            } else if spaced_width(*self.font, text@, letter_spacing) > u16::MAX {
                u16::MAX as int
            } else {
                spaced_width(*self.font, text@, letter_spacing)
            },
    {
        self.font.text_width_with_spacing(text, letter_spacing)
    }

    /// Pixel height of a single text line. Usually `== glyph_h`.
    pub fn line_height(&self) -> (height: u16)
        ensures
            height == self.font.line_height,
    {
        self.font.line_height as u16
    }

    /// Access the underlying [`BitmapFont`]. Useful for UI code
    /// that needs glyph dimensions for its own layout math.
    pub fn font(&self) -> (font: &'static BitmapFont)
        ensures
            font == self.font,
    {
        self.font
    }

    /// The page that the atlas is installed at -- useful if the caller wants
    /// to restore it after drawing with a different one.
    pub fn tpage(&self) -> (tpage: Tpage)
        ensures
            tpage == self.tpage,
    {
        self.tpage
    }
}

/// The width of `text`, held at what 16 bits carry.
pub open spec fn measured(font: BitmapFont, text: Seq<char>) -> int {
    if total_advance(font, text) > u16::MAX {
        u16::MAX as int
    } else {
        total_advance(font, text) as int
    }
}

/// Quads come behind a texture-window reset; an empty text draws nothing at all.
pub open spec fn behind_reset(text: Seq<char>, words: Seq<u32>) -> Seq<u32> {
    if text.len() == 0 {
        Seq::empty()
    } else {
        seq![RESET_TEXTURE_WINDOW] + words
    }
}

/// The command of a tinted textured quad.
pub open spec fn textured_quad_command(tint: (u8, u8, u8)) -> u32 {
    (polygon_command(false, true, true, false, false) + color_word(tint.0, tint.1, tint.2)) as u32
}

/// The command of a Gouraud-textured quad with its first colour.
pub open spec fn gouraud_quad_command(color: (u8, u8, u8)) -> u32 {
    (polygon_command(true, true, true, false, false) + color_word(color.0, color.1, color.2))
        as u32
}

/// Everything that drawing a backdrop sends.
pub open spec fn backdrop(
    atlas: FontAtlas,
    corner: (i16, i16),
    size: (u16, u16),
    tint: (u8, u8, u8),
    blend: TextBlend,
) -> Seq<u32> {
    if size.0 == 0 || size.1 == 0 {
        Seq::empty()
    } else {
        seq![
            blended_mode(atlas.tpage, blend),
            (SEMI_TRANSPARENT_FLAT_RECT_CMD + color_word(tint.0, tint.1, tint.2)) as u32,
            vertex_word(corner.0, corner.1),
            size_word(size.0, size.1),
            opaque_mode(atlas.tpage),
        ]
    }
}

/// A whole scale in Q8.
pub open spec fn whole_scale(scale: u8) -> u16 {
    (scale * 256) as u16
}

/// Everything that drawing text with a gradient from top to bottom sends.
pub open spec fn gradient_text(
    atlas: FontAtlas,
    text: Seq<char>,
    x: i16,
    y: i16,
    scale: (u8, u8),
    top: (u8, u8, u8),
    bottom: (u8, u8, u8),
) -> Seq<u32> {
    behind_reset(
        text,
        gradient_words(
            atlas,
            text,
            x,
            y,
            scale,
            seq![top, top, bottom, bottom],
            gouraud_quad_command(top),
        ),
    )
}

/// Everything that drawing rotated text sends.
pub open spec fn rotated_text(
    atlas: FontAtlas,
    text: Seq<char>,
    cx: i16,
    cy: i16,
    angle_q12: u16,
    tint: (u8, u8, u8),
) -> Seq<u32> {
    behind_reset(
        text,
        mapped_words(
            atlas,
            text,
            rotation_of(cx, cy, angle_q12),
            -(measured(*atlas.font, text) / 2),
            -(atlas.font.glyph_h as int / 2),
            textured_quad_command(tint),
        ),
    )
}

/// Everything that drawing text through a matrix sends.
pub open spec fn affine_text(
    atlas: FontAtlas,
    text: Seq<char>,
    origin: (i16, i16),
    m: [[i16; 2]; 2],
    tint: (u8, u8, u8),
) -> Seq<u32> {
    behind_reset(
        text,
        mapped_words(
            atlas,
            text,
            Map2 {
                origin: (origin.0 as int, origin.1 as int),
                m00: m@[0]@[0] as int,
                m01: m@[0]@[1] as int,
                m10: m@[1]@[0] as int,
                m11: m@[1]@[1] as int,
            },
            0,
            0,
            textured_quad_command(tint),
        ),
    )
}

/// Everything that drawing scaled text sends.
pub open spec fn scaled_text(
    atlas: FontAtlas,
    text: Seq<char>,
    x: i16,
    y: i16,
    scale: (u16, u16),
    gap: i8,
    tint: (u8, u8, u8),
) -> Seq<u32> {
    behind_reset(
        text,
        scaled_words(atlas, text, x, y, scale, gap, textured_quad_command(tint)),
    )
}

/// The plane map with this origin and matrix.
pub open spec fn map_of(origin: (i16, i16), m: Seq<[i32; 2]>) -> Map2 {
    Map2 {
        origin: (origin.0 as int, origin.1 as int),
        m00: m[0]@[0] as int,
        m01: m[0]@[1] as int,
        m10: m[1]@[0] as int,
        m11: m[1]@[1] as int,
    }
}

fn scaled_cell(size: u8, scale: u8) -> (scaled: i16)
    ensures
        scaled == wrapped16(size * scale),
{
    assert(0 <= size * scale <= 255 * 255) by (nonlinear_arith)
        requires
            0 <= size <= 255,
            0 <= scale <= 255,
    ;
    to_wrapped16(size as i32 * scale as i32)
}

fn advanced_q8(cursor: i32, advance: u8, scale_q8: u16, gap_q8: i32) -> (next: i32)
    requires
        -0x8000 <= gap_q8 <= 0x8000,
    ensures
        next == saturated32(saturated32(cursor + advance * scale_q8) + gap_q8),
{
    assert(0 <= advance * scale_q8 <= 255 * 0xFFFF) by (nonlinear_arith)
        requires
            0 <= advance <= 255,
            0 <= scale_q8 <= 0xFFFF,
    ;
    let step = saturate32(cursor as i64 + advance as i64 * scale_q8 as i64);
    saturate32(step as i64 + gap_q8 as i64)
}

fn wrap16(x: i64) -> (w: i16)
    ensures
        w == wrapped16(x as int),
{
    let q: i64 = floor_div(x, 0x1_0000);
    proof {
        lemma_fundamental_div_mod(x as int, 0x1_0000);
    }
    let low: i64 = x - q * 0x1_0000;
    if low < 0x8000 {
        low as i16
    } else {
        (low - 0x1_0000) as i16
    }
}

fn map_point(
    origin: (i16, i16),
    m: [[i32; 2]; 2],
    x: i64,
    y: i64,
    Ghost(map): Ghost<Map2>,
) -> (point: (i16, i16))
    requires
        -0x1_0000_0000 <= x <= 0x1_0000_0000,
        -0x1_0000_0000 <= y <= 0x1_0000_0000,
        forall|i: int, j: int|
            0 <= i < 2 && 0 <= j < 2 ==> -0x8000 <= #[trigger] m@[i]@[j] <= 0x8000,
        map == map_of(origin, m@),
    ensures
        point == mapped(map, x as int, y as int),
{
    let (m00, m01) = (m[0][0] as i64, m[0][1] as i64);
    let (m10, m11) = (m[1][0] as i64, m[1][1] as i64);
    assert(m00 == m@[0]@[0] && m01 == m@[0]@[1] && m10 == m@[1]@[0] && m11 == m@[1]@[1]);
    proof {
        product_is_bounded(m00 as int, x as int);
        product_is_bounded(m01 as int, y as int);
        product_is_bounded(m10 as int, x as int);
        product_is_bounded(m11 as int, y as int);
    }
    let sx = origin.0 as i64 + floor_div(m00 * x + m01 * y, 4096);
    let sy = origin.1 as i64 + floor_div(m10 * x + m11 * y, 4096);
    (wrap16(sx), wrap16(sy))
}

proof fn product_is_bounded(a: int, b: int)
    requires
        -0x8000 <= a <= 0x8000,
        -0x1_0000_0000 <= b <= 0x1_0000_0000,
    ensures
        -0x8000_0000_0000 <= a * b <= 0x8000_0000_0000,
{
    assert(-0x8000_0000_0000 <= a * b <= 0x8000_0000_0000) by (nonlinear_arith)
        requires
            -0x8000 <= a <= 0x8000,
            -0x1_0000_0000 <= b <= 0x1_0000_0000,
    ;
}

} // verus!
