//! Where the glyphs of a text are drawn, and what they show.

use vstd::prelude::*;

use crate::font::atlas::{
    affine_text, backdrop, blended_text, corners_of, gouraud_quad_command, gouraud_quad_words,
    gradient_text, gradient_words, mapped, mapped_words, measured, opaque_mode, pen_of, pen_q8_of,
    pen_scaled_of, plain_text, quad_words, rect_words, rotated_text, rounded_q8,
    scaled_gouraud_words, scaled_q8, scaled_text, scaled_words, textured_quad_command, upright,
    uv_of, whole_scale, FontAtlas, Map2, TextBlend,
};
use crate::font::bitmap::{advance_of, index_of, total_advance, BitmapFont};
use crate::font::pack::cell_width_of;
use crate::font::sink::half_width;
use crate::gpu::words::{color_word, size_word, texcoord_word, vertex_word, wrapped16};
use crate::gpu::words_laws::{
    byte_in, color_reads_back, high_in, low_in, size_reads_back, texcoord_reads_back,
    vertex_reads_back, wrapping_keeps_what_fits,
};

verus! {

/// Whether the font has a glyph for every character of a text.
pub open spec fn covered(font: BitmapFont, text: Seq<char>) -> bool {
    forall|k: int|
        0 <= k < text.len() ==> font.first_char <= (#[trigger] text[k]) as int
            && (text[k] as int) < font.first_char + font.glyph_count
}

/// How far the pen goes over the first `k` characters.
pub open spec fn reach(font: BitmapFont, text: Seq<char>, k: int) -> int
    decreases k,
{
    if k <= 0 {
        0
    } else {
        reach(font, text, k - 1) + advance_of(font, text[k - 1])
    }
}

/// The step behind a character is the font's own, unless the font has a table
/// with an entry for the character's glyph.
pub proof fn steps_come_from_the_font(font: BitmapFont, ch: char)
    ensures
        font.glyph_advances is None ==> advance_of(font, ch) == font.advance_x,
        (ch as int) < font.first_char ==> advance_of(font, ch) == font.advance_x,
        ch as int >= font.first_char + font.glyph_count ==> advance_of(font, ch)
            == font.advance_x,
        font.glyph_advances matches Some(steps) ==> forall|i: int|
            0 <= i < font.glyph_count && i < steps@.len() && ch as int == font.first_char + i
                ==> advance_of(font, ch) == #[trigger] steps@[i],
{
}

proof fn reach_of_a_prefix(font: BitmapFont, text: Seq<char>, n: int, k: int)
    requires
        0 <= k <= n <= text.len(),
    ensures
        reach(font, text.take(n), k) == reach(font, text, k),
    decreases k,
{
    if k > 0 {
        reach_of_a_prefix(font, text, n, k - 1);
        assert(text.take(n)[k - 1] == text[k - 1]);
    }
}

/// The width of a text is how far the pen goes over all of it.
pub proof fn width_is_the_whole_reach(font: BitmapFont, text: Seq<char>)
    ensures
        total_advance(font, text) == reach(font, text, text.len() as int),
        0 <= reach(font, text, text.len() as int) <= 255 * text.len(),
    decreases text.len(),
{
    if text.len() > 0 {
        let before = text.drop_last();
        width_is_the_whole_reach(font, before);
        assert(before =~= text.take(text.len() - 1));
        reach_of_a_prefix(font, text, text.len() - 1, text.len() - 1);
    }
}

/// Pieces of words, one behind the other.
pub open spec fn strung(pieces: Seq<Seq<u32>>) -> Seq<u32>
    decreases pieces.len(),
{
    if pieces.len() == 0 {
        Seq::empty()
    } else {
        strung(pieces.drop_last()) + pieces.last()
    }
}

proof fn strung_reads(pieces: Seq<Seq<u32>>, len: int, k: int, j: int)
    requires
        forall|i: int| 0 <= i < pieces.len() ==> (#[trigger] pieces[i]).len() == len,
        0 <= k < pieces.len(),
        0 <= j < len,
    ensures
        strung(pieces).len() == pieces.len() * len,
        0 <= k * len,
        k * len + j < strung(pieces).len(),
        strung(pieces)[k * len + j] == pieces[k][j],
    decreases pieces.len(),
{
    let before = pieces.drop_last();
    let n = before.len() as int;
    assert forall|i: int| 0 <= i < n implies (#[trigger] before[i]).len() == len by {
        assert(before[i] == pieces[i]);
    }
    strung_length(before, len);
    assert(pieces[n].len() == len);
    assert((n + 1) * len == n * len + len) by (nonlinear_arith);
    assert(0 <= k * len && k * len + len <= (n + 1) * len) by (nonlinear_arith)
        requires
            0 <= k <= n,
            0 <= len,
    ;
    if k < n {
        strung_reads(before, len, k, j);
        assert(before[k] == pieces[k]);
    }
}

proof fn strung_length(pieces: Seq<Seq<u32>>, len: int)
    requires
        forall|i: int| 0 <= i < pieces.len() ==> (#[trigger] pieces[i]).len() == len,
    ensures
        strung(pieces).len() == pieces.len() * len,
    decreases pieces.len(),
{
    if pieces.len() > 0 {
        let before = pieces.drop_last();
        let n = before.len() as int;
        assert forall|i: int| 0 <= i < n implies (#[trigger] before[i]).len() == len by {
            assert(before[i] == pieces[i]);
        }
        strung_length(before, len);
        assert(pieces[n].len() == len);
        assert((n + 1) * len == n * len + len) by (nonlinear_arith);
    }
}

/// A part of a text is covered where the text is.
proof fn prefix_is_covered(font: BitmapFont, text: Seq<char>)
    requires
        covered(font, text),
        text.len() > 0,
    ensures
        covered(font, text.drop_last()),
        index_of(font, text.last()) == Some(text.last() as int - font.first_char),
{
    let before = text.drop_last();
    assert forall|k: int| 0 <= k < before.len() implies font.first_char <= (
    #[trigger] before[k]) as int && (before[k] as int) < font.first_char + font.glyph_count by {
        assert(before[k] == text[k]);
    }
    assert(text[text.len() - 1] == text.last());
}

/// A textured quad's nine words: the command, then for each corner where it is and
/// what it shows. The palette rides with the first corner, the page with the
/// second.
pub proof fn quad_reads_back(
    verts: Seq<(i16, i16)>,
    uvs: Seq<(u8, u8)>,
    command: u32,
    clut: u16,
    tpage: u16,
    c: int,
)
    requires
        0 <= c < 4,
    ensures
        ({
            let words = quad_words(verts, uvs, command, clut, tpage);
            &&& words.len() == 9
            &&& words[0] == command
            &&& low_in(words[1 + 2 * c]) == verts[c].0
            &&& high_in(words[1 + 2 * c]) == verts[c].1
            &&& byte_in(words[2 + 2 * c], 0) == uvs[c].0
            &&& byte_in(words[2 + 2 * c], 1) == uvs[c].1
            &&& words[2] / 0x1_0000 == clut
            &&& words[4] / 0x1_0000 == tpage
        }),
{
    let high = if c == 0 {
        clut
    } else if c == 1 {
        tpage
    } else {
        0
    };
    let words = quad_words(verts, uvs, command, clut, tpage);
    texcoord_reads_back(uvs[0].0, uvs[0].1, clut);
    texcoord_reads_back(uvs[1].0, uvs[1].1, tpage);
    vertex_reads_back(verts[c].0, verts[c].1);
    texcoord_reads_back(uvs[c].0, uvs[c].1, high);
    assert(words[1 + 2 * c] == vertex_word(verts[c].0, verts[c].1));
    assert(words[2 + 2 * c] == texcoord_word(uvs[c].0, uvs[c].1, high));
}

/// A shaded quad's twelve words: the command with the first colour, then for each
/// corner where it is and what it shows, with its colour before it.
pub proof fn shaded_quad_reads_back(
    verts: Seq<(i16, i16)>,
    uvs: Seq<(u8, u8)>,
    colors: Seq<(u8, u8, u8)>,
    command: u32,
    clut: u16,
    tpage: u16,
    c: int,
)
    requires
        0 <= c < 4,
    ensures
        ({
            let words = gouraud_quad_words(verts, uvs, colors, command, clut, tpage);
            &&& words.len() == 12
            &&& words[0] == command
            &&& low_in(words[1 + 3 * c]) == verts[c].0
            &&& high_in(words[1 + 3 * c]) == verts[c].1
            &&& byte_in(words[2 + 3 * c], 0) == uvs[c].0
            &&& byte_in(words[2 + 3 * c], 1) == uvs[c].1
            &&& 0 < c ==> byte_in(words[3 * c], 0) == colors[c].0
            &&& 0 < c ==> byte_in(words[3 * c], 1) == colors[c].1
            &&& 0 < c ==> byte_in(words[3 * c], 2) == colors[c].2
            &&& words[2] / 0x1_0000 == clut
            &&& words[5] / 0x1_0000 == tpage
        }),
{
    let high = if c == 0 {
        clut
    } else if c == 1 {
        tpage
    } else {
        0
    };
    let words = gouraud_quad_words(verts, uvs, colors, command, clut, tpage);
    texcoord_reads_back(uvs[0].0, uvs[0].1, clut);
    texcoord_reads_back(uvs[1].0, uvs[1].1, tpage);
    vertex_reads_back(verts[c].0, verts[c].1);
    texcoord_reads_back(uvs[c].0, uvs[c].1, high);
    color_reads_back(colors[c].0, colors[c].1, colors[c].2);
    assert(words[1 + 3 * c] == vertex_word(verts[c].0, verts[c].1));
    assert(words[2 + 3 * c] == texcoord_word(uvs[c].0, uvs[c].1, high));
    if 0 < c {
        assert(words[3 * c] == color_word(colors[c].0, colors[c].1, colors[c].2));
    }
}

#[verifier::opaque]
spec fn mapped_piece(
    atlas: FontAtlas,
    text: Seq<char>,
    map: Map2,
    left: int,
    top: int,
    command: u32,
    k: int,
) -> Seq<u32> {
    let font = *atlas.font;
    let x0 = left + reach(font, text, k);
    let (u, v) = uv_of(atlas, text[k])->0;
    quad_words(
        seq![
            mapped(map, x0, top),
            mapped(map, x0 + font.glyph_w, top),
            mapped(map, x0, top + font.glyph_h),
            mapped(map, x0 + font.glyph_w, top + font.glyph_h),
        ],
        corners_of(u, v, font.glyph_w, font.glyph_h),
        command,
        atlas.clut_word,
        atlas.tpage.page_bits(0) as u16,
    )
}

spec fn mapped_pieces(
    atlas: FontAtlas,
    text: Seq<char>,
    map: Map2,
    left: int,
    top: int,
    command: u32,
) -> Seq<Seq<u32>> {
    Seq::new(text.len(), |k: int| mapped_piece(atlas, text, map, left, top, command, k))
}

proof fn mapped_words_are_strung(
    atlas: FontAtlas,
    text: Seq<char>,
    map: Map2,
    left: int,
    top: int,
    command: u32,
)
    requires
        covered(*atlas.font, text),
    ensures
        mapped_words(atlas, text, map, left, top, command) == strung(
            mapped_pieces(atlas, text, map, left, top, command),
        ),
    decreases text.len(),
{
    reveal(mapped_piece);
    let pieces = mapped_pieces(atlas, text, map, left, top, command);
    if text.len() > 0 {
        let before = text.drop_last();
        let n = text.len() - 1;
        prefix_is_covered(*atlas.font, text);
        mapped_words_are_strung(atlas, before, map, left, top, command);
        assert(before =~= text.take(n));
        assert forall|k: int| 0 <= k < n implies #[trigger] pieces[k] == mapped_pieces(
            atlas,
            before,
            map,
            left,
            top,
            command,
        )[k] by {
            reach_of_a_prefix(*atlas.font, text, n, k);
        }
        assert(pieces.drop_last() =~= mapped_pieces(atlas, before, map, left, top, command));
        width_is_the_whole_reach(*atlas.font, before);
        reach_of_a_prefix(*atlas.font, text, n, n);
    }
}

/// Whether a screen coordinate is where an axis of a plane map puts a point: the
/// origin plus a Q12 sum, rounded down.
pub open spec fn lands(at: int, origin: int, sum: int) -> bool {
    0 <= sum - 4096 * (at - origin) < 4096
}

/// Whether a place is on the 16-bit screen.
pub open spec fn on_screen(origin: int, sum: int) -> bool {
    -0x8000 * 4096 <= 4096 * origin + sum < 0x8000 * 4096
}

proof fn mapping_lands(map: Map2, lx: int, ly: int)
    ensures
        on_screen(map.origin.0, map.m00 * lx + map.m01 * ly) ==> lands(
            mapped(map, lx, ly).0 as int,
            map.origin.0,
            map.m00 * lx + map.m01 * ly,
        ),
        on_screen(map.origin.1, map.m10 * lx + map.m11 * ly) ==> lands(
            mapped(map, lx, ly).1 as int,
            map.origin.1,
            map.m10 * lx + map.m11 * ly,
        ),
{
}

/// The quads of a text under a plane map, nine words each: corner `c` of glyph
/// `k` (top-left, top-right, bottom-left, bottom-right) is where the map puts the
/// corner of its cell, and the cell begins where the pen is behind the characters
/// before it. The corner shows the matching corner of the glyph in the atlas.
pub proof fn mapped_glyphs_follow_the_pen(
    atlas: FontAtlas,
    text: Seq<char>,
    map: Map2,
    left: int,
    top: int,
    command: u32,
    k: int,
    c: int,
)
    requires
        covered(*atlas.font, text),
        0 <= k < text.len(),
        0 <= c < 4,
    ensures
        ({
            let words = mapped_words(atlas, text, map, left, top, command);
            let lx = left + reach(*atlas.font, text, k) + if c == 1 || c == 3 {
                atlas.font.glyph_w as int
            } else {
                0
            };
            let ly = top + if c >= 2 {
                atlas.font.glyph_h as int
            } else {
                0
            };
            let sx = map.m00 * lx + map.m01 * ly;
            let sy = map.m10 * lx + map.m11 * ly;
            &&& words.len() == 9 * text.len()
            &&& words[9 * k] == command
            &&& on_screen(map.origin.0, sx) ==> lands(
                low_in(words[9 * k + 1 + 2 * c]),
                map.origin.0,
                sx,
            )
            &&& on_screen(map.origin.1, sy) ==> lands(
                high_in(words[9 * k + 1 + 2 * c]),
                map.origin.1,
                sy,
            )
            &&& shows_corner(atlas, text[k], c, words[9 * k + 2 + 2 * c])
            &&& words[9 * k + 2] / 0x1_0000 == atlas.clut_word
            &&& words[9 * k + 4] / 0x1_0000 == atlas.tpage.page_bits(0) as u16
        }),
{
    let pieces = mapped_pieces(atlas, text, map, left, top, command);
    mapped_words_are_strung(atlas, text, map, left, top, command);
    assert forall|i: int| 0 <= i < pieces.len() implies (#[trigger] pieces[i]).len() == 9 by {
        reveal(mapped_piece);
    }
    strung_reads(pieces, 9, k, 0);
    strung_reads(pieces, 9, k, 2);
    strung_reads(pieces, 9, k, 4);
    strung_reads(pieces, 9, k, 1 + 2 * c);
    strung_reads(pieces, 9, k, 2 + 2 * c);
    mapped_piece_reads(atlas, text, map, left, top, command, k, c);
    assert(k * 9 == 9 * k);
}

/// Whether a texture coordinate word shows corner `c` of a character's glyph: the
/// near edges at the glyph, the far edges a glyph further, held at 255.
pub open spec fn shows_corner(atlas: FontAtlas, ch: char, c: int, word: u32) -> bool {
    let (u, v) = uv_of(atlas, ch)->0;
    let (w, h) = (atlas.font.glyph_w, atlas.font.glyph_h);
    &&& c == 0 || c == 2 ==> byte_in(word, 0) == u
    &&& c == 0 || c == 1 ==> byte_in(word, 1) == v
    &&& c == 1 || c == 3 ==> byte_in(word, 0) == if u + w <= 255 {
        u + w
    } else {
        255
    }
    &&& c == 2 || c == 3 ==> byte_in(word, 1) == if v + h <= 255 {
        v + h
    } else {
        255
    }
}

proof fn mapped_piece_reads(
    atlas: FontAtlas,
    text: Seq<char>,
    map: Map2,
    left: int,
    top: int,
    command: u32,
    k: int,
    c: int,
)
    requires
        0 <= c < 4,
    ensures
        ({
            let words = mapped_piece(atlas, text, map, left, top, command, k);
            let lx = left + reach(*atlas.font, text, k) + if c == 1 || c == 3 {
                atlas.font.glyph_w as int
            } else {
                0
            };
            let ly = top + if c >= 2 {
                atlas.font.glyph_h as int
            } else {
                0
            };
            let sx = map.m00 * lx + map.m01 * ly;
            let sy = map.m10 * lx + map.m11 * ly;
            &&& words.len() == 9
            &&& words[0] == command
            &&& on_screen(map.origin.0, sx) ==> lands(
                low_in(words[1 + 2 * c]),
                map.origin.0,
                sx,
            )
            &&& on_screen(map.origin.1, sy) ==> lands(
                high_in(words[1 + 2 * c]),
                map.origin.1,
                sy,
            )
            &&& shows_corner(atlas, text[k], c, words[2 + 2 * c])
            &&& words[2] / 0x1_0000 == atlas.clut_word
            &&& words[4] / 0x1_0000 == atlas.tpage.page_bits(0) as u16
        }),
{
    reveal(mapped_piece);
    let font = *atlas.font;
    let x0 = left + reach(font, text, k);
    let x = x0 + if c == 1 || c == 3 {
        font.glyph_w as int
    } else {
        0
    };
    let y = top + if c >= 2 {
        font.glyph_h as int
    } else {
        0
    };
    let corners = seq![
        mapped(map, x0, top),
        mapped(map, x0 + font.glyph_w, top),
        mapped(map, x0, top + font.glyph_h),
        mapped(map, x0 + font.glyph_w, top + font.glyph_h),
    ];
    let (u, v) = uv_of(atlas, text[k])->0;
    let uvs = corners_of(u, v, font.glyph_w, font.glyph_h);
    mapping_lands(map, x, y);
    assert(corners[c] == mapped(map, x, y));
    quad_reads_back(
        corners,
        uvs,
        command,
        atlas.clut_word,
        atlas.tpage.page_bits(0) as u16,
        c,
    );
}

/// A glyph's place in the atlas: glyphs stand in rows, from the origin of the
/// atlas to the right and then down, a cell apart.
pub proof fn glyphs_stand_in_rows(atlas: FontAtlas, ch: char, row: int, column: int)
    requires
        atlas.glyphs_per_row > 0,
        0 <= row,
        0 <= column < atlas.glyphs_per_row,
        row * atlas.glyphs_per_row + column < atlas.font.glyph_count,
        ch as int == atlas.font.first_char + row * atlas.glyphs_per_row + column,
        atlas.uv_origin.0 + column * cell_width_of(*atlas.font) <= 255,
        atlas.uv_origin.1 + row * atlas.font.glyph_h <= 255,
    ensures
        uv_of(atlas, ch) is Some,
        (uv_of(atlas, ch)->0).0 == atlas.uv_origin.0 + column * cell_width_of(*atlas.font),
        (uv_of(atlas, ch)->0).1 == atlas.uv_origin.1 + row * atlas.font.glyph_h,
{
    let n = atlas.glyphs_per_row as int;
    let i = row * n + column;
    vstd::arithmetic::div_mod::lemma_fundamental_div_mod_converse(i, n, row, column);
    assert(0 <= row * n) by (nonlinear_arith)
        requires
            0 <= row,
            0 < n,
    ;
    assert(0 <= column * cell_width_of(*atlas.font) && 0 <= row * atlas.font.glyph_h)
        by (nonlinear_arith)
        requires
            0 <= column,
            0 <= row,
            0 <= cell_width_of(*atlas.font),
    ;
}

/// The identity map moves by whole pixels.
proof fn unturned_place(at: int, origin: int, l: int, other: int)
    requires
        -0x8000 <= origin + l < 0x8000,
        on_screen(origin, 4096 * l + 0 * other) ==> lands(at, origin, 4096 * l + 0 * other),
    ensures
        at == origin + l,
{
}

proof fn unturned_corner(
    atlas: FontAtlas,
    text: Seq<char>,
    origin: (int, int),
    left: int,
    top: int,
    command: u32,
    k: int,
    c: int,
)
    requires
        covered(*atlas.font, text),
        0 <= k < text.len(),
        0 <= c < 4,
        -0x8000 <= origin.0 + left + reach(*atlas.font, text, k),
        origin.0 + left + reach(*atlas.font, text, k) + atlas.font.glyph_w < 0x8000,
        -0x8000 <= origin.1 + top,
        origin.1 + top + atlas.font.glyph_h < 0x8000,
    ensures
        ({
            let map = Map2 { origin, m00: 4096, m01: 0, m10: 0, m11: 4096 };
            let words = mapped_words(atlas, text, map, left, top, command);
            &&& low_in(words[9 * k + 1 + 2 * c]) == origin.0 + left + reach(*atlas.font, text, k)
                + if c == 1 || c == 3 {
                atlas.font.glyph_w as int
            } else {
                0
            }
            &&& high_in(words[9 * k + 1 + 2 * c]) == origin.1 + top + if c >= 2 {
                atlas.font.glyph_h as int
            } else {
                0
            }
        }),
{
    let map = Map2 { origin, m00: 4096, m01: 0, m10: 0, m11: 4096 };
    let words = mapped_words(atlas, text, map, left, top, command);
    let lx = left + reach(*atlas.font, text, k) + if c == 1 || c == 3 {
        atlas.font.glyph_w as int
    } else {
        0
    };
    let ly = top + if c >= 2 {
        atlas.font.glyph_h as int
    } else {
        0
    };
    mapped_glyphs_follow_the_pen(atlas, text, map, left, top, command, k, c);
    let word = words[9 * k + 1 + 2 * c];
    assert(4096 * ly + 0 * lx == 0 * lx + 4096 * ly);
    unturned_place(low_in(word), origin.0, lx, ly);
    unturned_place(high_in(word), origin.1, ly, lx);
}

/// Under the identity map a glyph is upright, its cell of its natural size, and
/// as far to the right of the start as the steps before it add up to.
pub proof fn unturned_glyphs_stand_side_by_side(
    atlas: FontAtlas,
    text: Seq<char>,
    origin: (int, int),
    left: int,
    top: int,
    command: u32,
    k: int,
)
    requires
        covered(*atlas.font, text),
        0 <= k < text.len(),
        -0x8000 <= origin.0 + left + reach(*atlas.font, text, k),
        origin.0 + left + reach(*atlas.font, text, k) + atlas.font.glyph_w < 0x8000,
        -0x8000 <= origin.1 + top,
        origin.1 + top + atlas.font.glyph_h < 0x8000,
    ensures
        ({
            let map = Map2 { origin, m00: 4096, m01: 0, m10: 0, m11: 4096 };
            let words = mapped_words(atlas, text, map, left, top, command);
            let x = origin.0 + left + reach(*atlas.font, text, k);
            let y = origin.1 + top;
            &&& low_in(words[9 * k + 1]) == x
            &&& high_in(words[9 * k + 1]) == y
            &&& low_in(words[9 * k + 3]) == x + atlas.font.glyph_w
            &&& high_in(words[9 * k + 3]) == y
            &&& low_in(words[9 * k + 5]) == x
            &&& high_in(words[9 * k + 5]) == y + atlas.font.glyph_h
            &&& low_in(words[9 * k + 7]) == x + atlas.font.glyph_w
            &&& high_in(words[9 * k + 7]) == y + atlas.font.glyph_h
        }),
{
    unturned_corner(atlas, text, origin, left, top, command, k, 0);
    unturned_corner(atlas, text, origin, left, top, command, k, 1);
    unturned_corner(atlas, text, origin, left, top, command, k, 2);
    unturned_corner(atlas, text, origin, left, top, command, k, 3);
}

/// Text at angle zero is centred on its pivot: it spans its width from half of
/// that to the left on, and its height from half of that above.
pub proof fn unturned_text_is_centred(
    atlas: FontAtlas,
    text: Seq<char>,
    cx: i16,
    cy: i16,
    tint: (u8, u8, u8),
    k: int,
)
    requires
        covered(*atlas.font, text),
        0 <= k < text.len(),
        reach(*atlas.font, text, text.len() as int) <= 0xFFFF,
        -0x8000 <= cx - reach(*atlas.font, text, text.len() as int) / 2,
        cx - reach(*atlas.font, text, text.len() as int) / 2 + reach(*atlas.font, text, k)
            + atlas.font.glyph_w < 0x8000,
        -0x8000 <= cy - atlas.font.glyph_h as int / 2,
        cy - atlas.font.glyph_h as int / 2 + atlas.font.glyph_h < 0x8000,
    ensures
        ({
            let words = rotated_text(atlas, text, cx, cy, 0, tint);
            let width = reach(*atlas.font, text, text.len() as int);
            &&& words.len() == 1 + 9 * text.len()
            &&& low_in(words[1 + 9 * k + 1]) == cx - width / 2 + reach(*atlas.font, text, k)
            &&& high_in(words[1 + 9 * k + 1]) == cy - atlas.font.glyph_h as int / 2
            &&& low_in(words[1 + 9 * k + 7]) == cx - width / 2 + reach(*atlas.font, text, k)
                + atlas.font.glyph_w
            &&& high_in(words[1 + 9 * k + 7]) == cy - atlas.font.glyph_h as int / 2
                + atlas.font.glyph_h
            &&& words[1 + 9 * k] == textured_quad_command(tint)
        }),
{
    width_is_the_whole_reach(*atlas.font, text);
    crate::font::atlas::full_turns_change_nothing(cx, cy, 0);
    let left = -(measured(*atlas.font, text) / 2);
    let top = -(atlas.font.glyph_h as int / 2);
    let command = textured_quad_command(tint);
    reach_grows(*atlas.font, text, k, text.len() as int);
    let map = Map2 { origin: (cx as int, cy as int), m00: 4096, m01: 0, m10: 0, m11: 4096 };
    unturned_glyphs_stand_side_by_side(
        atlas,
        text,
        (cx as int, cy as int),
        left,
        top,
        command,
        k,
    );
    mapped_glyphs_follow_the_pen(atlas, text, map, left, top, command, k, 0);
    let words = mapped_words(atlas, text, map, left, top, command);
    let sent = rotated_text(atlas, text, cx, cy, 0, tint);
    assert(sent[1 + 9 * k] == words[9 * k]);
    assert(sent[1 + 9 * k + 1] == words[9 * k + 1]);
    assert(sent[1 + 9 * k + 7] == words[9 * k + 7]);
}

/// The pen only goes to the right.
proof fn reach_grows(font: BitmapFont, text: Seq<char>, j: int, k: int)
    requires
        0 <= j <= k,
    ensures
        0 <= reach(font, text, j) <= reach(font, text, k),
    decreases k,
{
    if k > 0 {
        if j < k {
            reach_grows(font, text, j, k - 1);
        } else {
            reach_grows(font, text, j - 1, k - 1);
        }
    }
}

/// Text through a matrix starts at its origin, and follows the pen from there.
pub proof fn affine_glyphs_follow_the_pen(
    atlas: FontAtlas,
    text: Seq<char>,
    origin: (i16, i16),
    m: [[i16; 2]; 2],
    tint: (u8, u8, u8),
    k: int,
)
    requires
        covered(*atlas.font, text),
        0 <= k < text.len(),
    ensures
        ({
            let words = affine_text(atlas, text, origin, m, tint);
            let x = reach(*atlas.font, text, k);
            &&& words.len() == 1 + 9 * text.len()
            &&& on_screen(origin.0 as int, m@[0]@[0] * x) ==> lands(
                low_in(words[1 + 9 * k + 1]),
                origin.0 as int,
                m@[0]@[0] * x,
            )
            &&& on_screen(origin.1 as int, m@[1]@[0] * x) ==> lands(
                high_in(words[1 + 9 * k + 1]),
                origin.1 as int,
                m@[1]@[0] * x,
            )
        }),
{
    let map = Map2 {
        origin: (origin.0 as int, origin.1 as int),
        m00: m@[0]@[0] as int,
        m01: m@[0]@[1] as int,
        m10: m@[1]@[0] as int,
        m11: m@[1]@[1] as int,
    };
    let command = textured_quad_command(tint);
    mapped_glyphs_follow_the_pen(atlas, text, map, 0, 0, command, k, 0);
    let words = mapped_words(atlas, text, map, 0, 0, command);
    let sent = affine_text(atlas, text, origin, m, tint);
    assert(sent[1 + 9 * k + 1] == words[9 * k + 1]);
    assert(map.m01 * 0 == 0 && map.m11 * 0 == 0);
}

/// Wrapping on the way or at the end comes to the same.
proof fn wrapping_adds(a: int, b: int)
    ensures
        wrapped16(wrapped16(a) + b) == wrapped16(a + b),
{
}

proof fn pen_is_the_reach(font: BitmapFont, text: Seq<char>, x: i16, gap: int, k: int)
    requires
        0 <= k <= text.len(),
    ensures
        pen_of(font, text.take(k), x, gap) == wrapped16(x + reach(font, text, k) + k * gap),
    decreases k,
{
    if k > 0 {
        pen_is_the_reach(font, text, x, gap, k - 1);
        assert(text.take(k).drop_last() =~= text.take(k - 1));
        assert(text.take(k).last() == text[k - 1]);
        let step = advance_of(font, text[k - 1]) + gap;
        wrapping_adds(x + reach(font, text, k - 1) + (k - 1) * gap, step);
        assert(k * gap == (k - 1) * gap + gap) by (nonlinear_arith);
        assert(pen_of(font, text.take(k), x, gap) == wrapped16(
            wrapped16(x + reach(font, text, k - 1) + (k - 1) * gap) + step,
        ));
    } else {
        assert(text.take(0).len() == 0);
        assert(0 * gap == 0) by (nonlinear_arith);
    }
}

#[verifier::opaque]
spec fn rect_piece(
    atlas: FontAtlas,
    text: Seq<char>,
    x: i16,
    y: i16,
    gap: int,
    command: u32,
    k: int,
) -> Seq<u32> {
    let (u, v) = uv_of(atlas, text[k])->0;
    seq![
        command,
        vertex_word(wrapped16(x + reach(*atlas.font, text, k) + k * gap), y),
        texcoord_word(u, v, atlas.clut_word),
        size_word(atlas.font.glyph_w as u16, atlas.font.glyph_h as u16),
    ]
}

spec fn rect_pieces(
    atlas: FontAtlas,
    text: Seq<char>,
    x: i16,
    y: i16,
    gap: int,
    command: u32,
) -> Seq<Seq<u32>> {
    Seq::new(text.len(), |k: int| rect_piece(atlas, text, x, y, gap, command, k))
}

proof fn rect_words_are_strung(
    atlas: FontAtlas,
    text: Seq<char>,
    x: i16,
    y: i16,
    gap: int,
    command: u32,
)
    requires
        covered(*atlas.font, text),
    ensures
        rect_words(atlas, text, x, y, gap, command) == strung(
            rect_pieces(atlas, text, x, y, gap, command),
        ),
    decreases text.len(),
{
    reveal(rect_piece);
    let pieces = rect_pieces(atlas, text, x, y, gap, command);
    if text.len() > 0 {
        let before = text.drop_last();
        let n = text.len() - 1;
        prefix_is_covered(*atlas.font, text);
        rect_words_are_strung(atlas, before, x, y, gap, command);
        assert(before =~= text.take(n));
        assert forall|k: int| 0 <= k < n implies #[trigger] pieces[k] == rect_pieces(
            atlas,
            before,
            x,
            y,
            gap,
            command,
        )[k] by {
            reach_of_a_prefix(*atlas.font, text, n, k);
        }
        assert(pieces.drop_last() =~= rect_pieces(atlas, before, x, y, gap, command));
        pen_is_the_reach(*atlas.font, text, x, gap, n);
    }
}

/// The rectangles of a text, four words each: glyph `k` is to the right of the
/// start by the steps of the characters before it and a gap behind each of them,
/// and shows its glyph in its natural size.
pub proof fn plain_glyphs_follow_the_pen(
    atlas: FontAtlas,
    text: Seq<char>,
    x: i16,
    y: i16,
    gap: int,
    command: u32,
    k: int,
)
    requires
        covered(*atlas.font, text),
        0 <= k < text.len(),
        -0x8000 <= x + reach(*atlas.font, text, k) + k * gap < 0x8000,
    ensures
        ({
            let words = rect_words(atlas, text, x, y, gap, command);
            &&& words.len() == 4 * text.len()
            &&& words[4 * k] == command
            &&& low_in(words[4 * k + 1]) == x + reach(*atlas.font, text, k) + k * gap
            &&& high_in(words[4 * k + 1]) == y
            &&& shows_corner(atlas, text[k], 0, words[4 * k + 2])
            &&& words[4 * k + 2] / 0x1_0000 == atlas.clut_word
            &&& words[4 * k + 3] % 0x1_0000 == atlas.font.glyph_w
            &&& words[4 * k + 3] / 0x1_0000 == atlas.font.glyph_h
        }),
{
    let pieces = rect_pieces(atlas, text, x, y, gap, command);
    rect_words_are_strung(atlas, text, x, y, gap, command);
    assert forall|i: int| 0 <= i < pieces.len() implies (#[trigger] pieces[i]).len() == 4 by {
        reveal(rect_piece);
    }
    strung_reads(pieces, 4, k, 0);
    strung_reads(pieces, 4, k, 1);
    strung_reads(pieces, 4, k, 2);
    strung_reads(pieces, 4, k, 3);
    assert(k * 4 == 4 * k);
    reveal(rect_piece);
    let (u, v) = uv_of(atlas, text[k])->0;
    let at = x + reach(*atlas.font, text, k) + k * gap;
    wrapping_keeps_what_fits(at);
    vertex_reads_back(wrapped16(at), y);
    texcoord_reads_back(u, v, atlas.clut_word);
    size_reads_back(atlas.font.glyph_w as u16, atlas.font.glyph_h as u16);
}

/// A scaled size is the size times the scale, within half a pixel, and at least
/// one pixel.
pub proof fn sizes_scale(value: i16, scale_q8: u16)
    ensures
        scaled_q8(value, scale_q8) >= 1,
        1 < scaled_q8(value, scale_q8) < 0x7FFF ==> -128 <= 256 * scaled_q8(value, scale_q8)
            - value * scale_q8 <= 128,
        value * scale_q8 >= 384 && value * scale_q8 < 0x7FFF00 ==> 1 < scaled_q8(value, scale_q8)
            < 0x7FFF || scaled_q8(value, scale_q8) == 0x7FFF,
        value > 0 ==> scaled_q8(value, 256) == value,
{
    if value > 0 {
        assert((value * 256 + 128) / 256 == value);
    }
}

/// A pixel is its Q8 coordinate within half, as long as it is on the screen.
pub proof fn pixels_round(value_q8: i32)
    requires
        -0x7F_FF00 <= value_q8 <= 0x7F_FF00,
    ensures
        -128 <= 256 * rounded_q8(value_q8) - value_q8 <= 128,
{
}

proof fn scaled_pen_is_the_reach(
    font: BitmapFont,
    text: Seq<char>,
    x: i16,
    scale_q8: u16,
    gap: i8,
    k: int,
)
    requires
        0 <= k <= text.len(),
        text.len() <= 100,
    ensures
        pen_q8_of(font, text.take(k), x, scale_q8, gap) == 256 * x + reach(font, text, k) * scale_q8
            + 256 * (k * gap),
        0 <= reach(font, text, k) * scale_q8 <= 0xFE_FF01 * k,
        -128 * k <= k * gap <= 127 * k,
    decreases k,
{
    if k > 0 {
        scaled_pen_is_the_reach(font, text, x, scale_q8, gap, k - 1);
        assert(text.take(k).drop_last() =~= text.take(k - 1));
        assert(text.take(k).last() == text[k - 1]);
        let step = advance_of(font, text[k - 1]) as int;
        let before = reach(font, text, k - 1);
        let now = reach(font, text, k);
        assert(now * scale_q8 == before * scale_q8 + step * scale_q8) by (nonlinear_arith)
            requires
                now == before + step,
        ;
        assert(0 <= step * scale_q8 <= 0xFE_FF01) by (nonlinear_arith)
            requires
                0 <= step <= 255,
                0 <= scale_q8 <= 0xFFFF,
        ;
        assert(k * gap == (k - 1) * gap + gap) by (nonlinear_arith);
    } else {
        assert(text.take(0).len() == 0);
        let now = reach(font, text, 0);
        assert(0 * gap == 0 && now * scale_q8 == 0) by (nonlinear_arith)
            requires
                now == 0,
        ;
    }
}

/// Where glyph `k` of a scaled text starts, in Q8: at the start, plus the scaled
/// steps of the characters before it and a gap behind each of them. Texts long
/// enough to leave the 32-bit range are left out.
pub proof fn scaled_pen_follows_the_steps(
    font: BitmapFont,
    text: Seq<char>,
    x: i16,
    scale_q8: u16,
    gap: i8,
    k: int,
)
    requires
        0 <= k <= text.len(),
        text.len() <= 100,
    ensures
        pen_q8_of(font, text.take(k), x, scale_q8, gap) == 256 * x + reach(font, text, k) * scale_q8
            + 256 * (k * gap),
{
    scaled_pen_is_the_reach(font, text, x, scale_q8, gap, k);
}

#[verifier::opaque]
spec fn scaled_piece(
    atlas: FontAtlas,
    text: Seq<char>,
    x: i16,
    y: i16,
    scale: (u16, u16),
    gap: i8,
    command: u32,
    k: int,
) -> Seq<u32> {
    let font = *atlas.font;
    let (u, v) = uv_of(atlas, text[k])->0;
    quad_words(
        upright(
            rounded_q8(pen_q8_of(font, text.take(k), x, scale.0, gap)),
            y,
            scaled_q8(font.glyph_w as i16, scale.0),
            scaled_q8(font.glyph_h as i16, scale.1),
        ),
        corners_of(u, v, font.glyph_w, font.glyph_h),
        command,
        atlas.clut_word,
        atlas.tpage.page_bits(0) as u16,
    )
}

spec fn scaled_pieces(
    atlas: FontAtlas,
    text: Seq<char>,
    x: i16,
    y: i16,
    scale: (u16, u16),
    gap: i8,
    command: u32,
) -> Seq<Seq<u32>> {
    Seq::new(text.len(), |k: int| scaled_piece(atlas, text, x, y, scale, gap, command, k))
}

proof fn scaled_words_are_strung(
    atlas: FontAtlas,
    text: Seq<char>,
    x: i16,
    y: i16,
    scale: (u16, u16),
    gap: i8,
    command: u32,
)
    requires
        covered(*atlas.font, text),
    ensures
        scaled_words(atlas, text, x, y, scale, gap, command) == strung(
            scaled_pieces(atlas, text, x, y, scale, gap, command),
        ),
    decreases text.len(),
{
    reveal(scaled_piece);
    let pieces = scaled_pieces(atlas, text, x, y, scale, gap, command);
    if text.len() > 0 {
        let before = text.drop_last();
        let n = text.len() - 1;
        prefix_is_covered(*atlas.font, text);
        scaled_words_are_strung(atlas, before, x, y, scale, gap, command);
        assert(before =~= text.take(n));
        assert forall|k: int| 0 <= k < n implies #[trigger] pieces[k] == scaled_pieces(
            atlas,
            before,
            x,
            y,
            scale,
            gap,
            command,
        )[k] by {
            assert(before.take(k) =~= text.take(k));
        }
        assert(pieces.drop_last() =~= scaled_pieces(atlas, before, x, y, scale, gap, command));
    }
}

/// The quads of a scaled text, nine words each: glyph `k` starts at the pixel
/// where the scaled pen is, is as large as its scaled cell, and shows its glyph.
pub proof fn scaled_glyphs_follow_the_pen(
    atlas: FontAtlas,
    text: Seq<char>,
    x: i16,
    y: i16,
    scale: (u16, u16),
    gap: i8,
    command: u32,
    k: int,
    c: int,
)
    requires
        covered(*atlas.font, text),
        0 <= k < text.len() <= 100,
        0 <= c < 4,
    ensures
        ({
            let words = scaled_words(atlas, text, x, y, scale, gap, command);
            let font = *atlas.font;
            let pen = 256 * x + reach(font, text, k) * scale.0 + 256 * (k * gap);
            let w = scaled_q8(font.glyph_w as i16, scale.0);
            let h = scaled_q8(font.glyph_h as i16, scale.1);
            let dx = if c == 1 || c == 3 {
                w as int
            } else {
                0
            };
            let dy = if c >= 2 {
                h as int
            } else {
                0
            };
            let px = low_in(words[9 * k + 1 + 2 * c]);
            &&& words.len() == 9 * text.len()
            &&& words[9 * k] == command
            &&& -0x70_0000 <= pen <= 0x70_0000 && pen + 256 * w <= 0x70_0000 ==> -128 <= 256 * (px
                - dx) - pen <= 128
            &&& y + h < 0x8000 ==> high_in(words[9 * k + 1 + 2 * c]) == y + dy
            &&& shows_corner(atlas, text[k], c, words[9 * k + 2 + 2 * c])
            &&& words[9 * k + 2] / 0x1_0000 == atlas.clut_word
            &&& words[9 * k + 4] / 0x1_0000 == atlas.tpage.page_bits(0) as u16
        }),
{
    let font = *atlas.font;
    let pieces = scaled_pieces(atlas, text, x, y, scale, gap, command);
    scaled_words_are_strung(atlas, text, x, y, scale, gap, command);
    assert forall|i: int| 0 <= i < pieces.len() implies (#[trigger] pieces[i]).len() == 9 by {
        reveal(scaled_piece);
    }
    strung_reads(pieces, 9, k, 0);
    strung_reads(pieces, 9, k, 2);
    strung_reads(pieces, 9, k, 4);
    strung_reads(pieces, 9, k, 1 + 2 * c);
    strung_reads(pieces, 9, k, 2 + 2 * c);
    assert(k * 9 == 9 * k);
    scaled_pen_is_the_reach(font, text, x, scale.0, gap, k);
    let pen = pen_q8_of(font, text.take(k), x, scale.0, gap);
    let w = scaled_q8(font.glyph_w as i16, scale.0);
    let h = scaled_q8(font.glyph_h as i16, scale.1);
    let (u, v) = uv_of(atlas, text[k])->0;
    if -0x70_0000 <= pen <= 0x70_0000 {
        pixels_round(pen);
    }
    upright_corners_read(rounded_q8(pen), y, w, h, c);
    quad_reads_back(
        upright(rounded_q8(pen), y, w, h),
        corners_of(u, v, font.glyph_w, font.glyph_h),
        command,
        atlas.clut_word,
        atlas.tpage.page_bits(0) as u16,
        c,
    );
    reveal(scaled_piece);
}

/// The corners of an upright rectangle, as far as they are on the screen.
pub proof fn upright_corners_read(x: i16, y: i16, w: i16, h: i16, c: int)
    requires
        0 <= c < 4,
    ensures
        c == 0 || c == 2 ==> upright(x, y, w, h)[c].0 == x,
        c == 0 || c == 1 ==> upright(x, y, w, h)[c].1 == y,
        (c == 1 || c == 3) && -0x8000 <= x + w < 0x8000 ==> upright(x, y, w, h)[c].0 == x + w,
        (c == 2 || c == 3) && -0x8000 <= y + h < 0x8000 ==> upright(x, y, w, h)[c].1 == y + h,
{
}

proof fn gradient_pen_is_the_reach(font: BitmapFont, text: Seq<char>, x: i16, scale: u8, k: int)
    requires
        0 <= k <= text.len(),
    ensures
        pen_scaled_of(font, text.take(k), x, scale) == wrapped16(
            x + reach(font, text, k) * scale,
        ),
    decreases k,
{
    if k > 0 {
        gradient_pen_is_the_reach(font, text, x, scale, k - 1);
        assert(text.take(k).drop_last() =~= text.take(k - 1));
        assert(text.take(k).last() == text[k - 1]);
        let step = advance_of(font, text[k - 1]) as int;
        let before = reach(font, text, k - 1);
        assert((before + step) * scale == before * scale + step * scale) by (nonlinear_arith);
        wrapping_adds(x + before * scale, step * scale);
    } else {
        assert(text.take(0).len() == 0);
        assert(0 * scale == 0) by (nonlinear_arith);
    }
}

#[verifier::opaque]
spec fn gradient_piece(
    atlas: FontAtlas,
    text: Seq<char>,
    x: i16,
    y: i16,
    scale: (u8, u8),
    colors: Seq<(u8, u8, u8)>,
    command: u32,
    k: int,
) -> Seq<u32> {
    let font = *atlas.font;
    let (u, v) = uv_of(atlas, text[k])->0;
    gouraud_quad_words(
        upright(
            pen_scaled_of(font, text.take(k), x, scale.0),
            y,
            wrapped16(font.glyph_w * scale.0),
            wrapped16(font.glyph_h * scale.1),
        ),
        corners_of(u, v, font.glyph_w, font.glyph_h),
        colors,
        command,
        atlas.clut_word,
        atlas.tpage.page_bits(0) as u16,
    )
}

spec fn gradient_pieces(
    atlas: FontAtlas,
    text: Seq<char>,
    x: i16,
    y: i16,
    scale: (u8, u8),
    colors: Seq<(u8, u8, u8)>,
    command: u32,
) -> Seq<Seq<u32>> {
    Seq::new(text.len(), |k: int| gradient_piece(atlas, text, x, y, scale, colors, command, k))
}

proof fn gradient_words_are_strung(
    atlas: FontAtlas,
    text: Seq<char>,
    x: i16,
    y: i16,
    scale: (u8, u8),
    colors: Seq<(u8, u8, u8)>,
    command: u32,
)
    requires
        covered(*atlas.font, text),
    ensures
        gradient_words(atlas, text, x, y, scale, colors, command) == strung(
            gradient_pieces(atlas, text, x, y, scale, colors, command),
        ),
    decreases text.len(),
{
    reveal(gradient_piece);
    let pieces = gradient_pieces(atlas, text, x, y, scale, colors, command);
    if text.len() > 0 {
        let before = text.drop_last();
        let n = text.len() - 1;
        prefix_is_covered(*atlas.font, text);
        gradient_words_are_strung(atlas, before, x, y, scale, colors, command);
        assert(before =~= text.take(n));
        assert forall|k: int| 0 <= k < n implies #[trigger] pieces[k] == gradient_pieces(
            atlas,
            before,
            x,
            y,
            scale,
            colors,
            command,
        )[k] by {
            assert(before.take(k) =~= text.take(k));
        }
        assert(pieces.drop_last() =~= gradient_pieces(atlas, before, x, y, scale, colors, command));
    }
}

/// The shaded quads of a text on the integer-scaled path, twelve words each: glyph
/// `k` starts the scaled steps of the characters before it to the right of the
/// start, is as large as its scaled cell, shows its glyph, and has the given
/// colour in each corner but the first, whose colour the command holds.
pub proof fn gradient_glyphs_follow_the_pen(
    atlas: FontAtlas,
    text: Seq<char>,
    x: i16,
    y: i16,
    scale: (u8, u8),
    colors: Seq<(u8, u8, u8)>,
    command: u32,
    k: int,
    c: int,
)
    requires
        covered(*atlas.font, text),
        0 <= k < text.len(),
        0 <= c < 4,
        -0x8000 <= x + reach(*atlas.font, text, k) * scale.0,
        x + reach(*atlas.font, text, k) * scale.0 + atlas.font.glyph_w * scale.0 < 0x8000,
        y + atlas.font.glyph_h * scale.1 < 0x8000,
        atlas.font.glyph_w * scale.0 < 0x8000,
        atlas.font.glyph_h * scale.1 < 0x8000,
    ensures
        ({
            let words = gradient_words(atlas, text, x, y, scale, colors, command);
            let font = *atlas.font;
            &&& words.len() == 12 * text.len()
            &&& words[12 * k] == command
            &&& low_in(words[12 * k + 1 + 3 * c]) == x + reach(font, text, k) * scale.0 + if c == 1
                || c == 3 {
                font.glyph_w * scale.0
            } else {
                0
            }
            &&& high_in(words[12 * k + 1 + 3 * c]) == y + if c >= 2 {
                font.glyph_h * scale.1
            } else {
                0
            }
            &&& shows_corner(atlas, text[k], c, words[12 * k + 2 + 3 * c])
            &&& 0 < c ==> byte_in(words[12 * k + 3 * c], 0) == colors[c].0
            &&& 0 < c ==> byte_in(words[12 * k + 3 * c], 1) == colors[c].1
            &&& 0 < c ==> byte_in(words[12 * k + 3 * c], 2) == colors[c].2
            &&& words[12 * k + 2] / 0x1_0000 == atlas.clut_word
            &&& words[12 * k + 5] / 0x1_0000 == atlas.tpage.page_bits(0) as u16
        }),
{
    let font = *atlas.font;
    let pieces = gradient_pieces(atlas, text, x, y, scale, colors, command);
    gradient_words_are_strung(atlas, text, x, y, scale, colors, command);
    assert forall|i: int| 0 <= i < pieces.len() implies (#[trigger] pieces[i]).len() == 12 by {
        reveal(gradient_piece);
    }
    strung_reads(pieces, 12, k, 0);
    strung_reads(pieces, 12, k, 2);
    strung_reads(pieces, 12, k, 5);
    strung_reads(pieces, 12, k, 1 + 3 * c);
    strung_reads(pieces, 12, k, 2 + 3 * c);
    strung_reads(pieces, 12, k, 3 * c);
    assert(k * 12 == 12 * k);
    gradient_pen_is_the_reach(font, text, x, scale.0, k);
    reach_grows(font, text, 0, k);
    assert(0 <= font.glyph_w * scale.0 && 0 <= font.glyph_h * scale.1 && 0 <= reach(font, text, k)
        * scale.0) by (nonlinear_arith)
        requires
            0 <= font.glyph_w,
            0 <= font.glyph_h,
            0 <= scale.0,
            0 <= scale.1,
            0 <= reach(font, text, k),
    ;
    let (w, h) = (font.glyph_w * scale.0, font.glyph_h * scale.1);
    let at = x + reach(font, text, k) * scale.0;
    wrapping_keeps_what_fits(at);
    wrapping_keeps_what_fits(w);
    wrapping_keeps_what_fits(h);
    let (u, v) = uv_of(atlas, text[k])->0;
    upright_corners_read(wrapped16(at), y, wrapped16(w), wrapped16(h), c);
    shaded_quad_reads_back(
        upright(wrapped16(at), y, wrapped16(w), wrapped16(h)),
        corners_of(u, v, font.glyph_w, font.glyph_h),
        colors,
        command,
        atlas.clut_word,
        atlas.tpage.page_bits(0) as u16,
        c,
    );
    reveal(gradient_piece);
}

#[verifier::opaque]
spec fn shaded_piece(
    atlas: FontAtlas,
    text: Seq<char>,
    x: i16,
    y: i16,
    scale: (u16, u16),
    gap: i8,
    colors: Seq<(u8, u8, u8)>,
    command: u32,
    k: int,
) -> Seq<u32> {
    let font = *atlas.font;
    let (u, v) = uv_of(atlas, text[k])->0;
    gouraud_quad_words(
        upright(
            rounded_q8(pen_q8_of(font, text.take(k), x, scale.0, gap)),
            y,
            scaled_q8(font.glyph_w as i16, scale.0),
            scaled_q8(font.glyph_h as i16, scale.1),
        ),
        corners_of(u, v, font.glyph_w, font.glyph_h),
        colors,
        command,
        atlas.clut_word,
        atlas.tpage.page_bits(0) as u16,
    )
}

spec fn shaded_pieces(
    atlas: FontAtlas,
    text: Seq<char>,
    x: i16,
    y: i16,
    scale: (u16, u16),
    gap: i8,
    colors: Seq<(u8, u8, u8)>,
    command: u32,
) -> Seq<Seq<u32>> {
    Seq::new(
        text.len(),
        |k: int| shaded_piece(atlas, text, x, y, scale, gap, colors, command, k),
    )
}

proof fn shaded_words_are_strung(
    atlas: FontAtlas,
    text: Seq<char>,
    x: i16,
    y: i16,
    scale: (u16, u16),
    gap: i8,
    colors: Seq<(u8, u8, u8)>,
    command: u32,
)
    requires
        covered(*atlas.font, text),
    ensures
        scaled_gouraud_words(atlas, text, x, y, scale, gap, colors, command) == strung(
            shaded_pieces(atlas, text, x, y, scale, gap, colors, command),
        ),
    decreases text.len(),
{
    reveal(shaded_piece);
    let pieces = shaded_pieces(atlas, text, x, y, scale, gap, colors, command);
    if text.len() > 0 {
        let before = text.drop_last();
        let n = text.len() - 1;
        prefix_is_covered(*atlas.font, text);
        shaded_words_are_strung(atlas, before, x, y, scale, gap, colors, command);
        assert(before =~= text.take(n));
        assert forall|k: int| 0 <= k < n implies #[trigger] pieces[k] == shaded_pieces(
            atlas,
            before,
            x,
            y,
            scale,
            gap,
            colors,
            command,
        )[k] by {
            assert(before.take(k) =~= text.take(k));
        }
        assert(pieces.drop_last() =~= shaded_pieces(
            atlas,
            before,
            x,
            y,
            scale,
            gap,
            colors,
            command,
        ));
    }
}

/// The shaded quads of a scaled text stand where its plain quads stand and show
/// the same, with the given colour in each corner but the first.
pub proof fn shaded_glyphs_follow_the_pen(
    atlas: FontAtlas,
    text: Seq<char>,
    x: i16,
    y: i16,
    scale: (u16, u16),
    gap: i8,
    colors: Seq<(u8, u8, u8)>,
    command: u32,
    k: int,
    c: int,
)
    requires
        covered(*atlas.font, text),
        0 <= k < text.len(),
        0 <= c < 4,
    ensures
        ({
            let words = scaled_gouraud_words(atlas, text, x, y, scale, gap, colors, command);
            let plain = scaled_words(atlas, text, x, y, scale, gap, command);
            &&& words.len() == 12 * text.len()
            &&& words[12 * k] == command
            &&& low_in(words[12 * k + 1 + 3 * c]) == low_in(plain[9 * k + 1 + 2 * c])
            &&& high_in(words[12 * k + 1 + 3 * c]) == high_in(plain[9 * k + 1 + 2 * c])
            &&& shows_corner(atlas, text[k], c, words[12 * k + 2 + 3 * c])
            &&& 0 < c ==> byte_in(words[12 * k + 3 * c], 0) == colors[c].0
            &&& 0 < c ==> byte_in(words[12 * k + 3 * c], 1) == colors[c].1
            &&& 0 < c ==> byte_in(words[12 * k + 3 * c], 2) == colors[c].2
            &&& words[12 * k + 2] / 0x1_0000 == atlas.clut_word
            &&& words[12 * k + 5] / 0x1_0000 == atlas.tpage.page_bits(0) as u16
        }),
{
    let font = *atlas.font;
    let pieces = shaded_pieces(atlas, text, x, y, scale, gap, colors, command);
    let plain = scaled_pieces(atlas, text, x, y, scale, gap, command);
    shaded_words_are_strung(atlas, text, x, y, scale, gap, colors, command);
    scaled_words_are_strung(atlas, text, x, y, scale, gap, command);
    assert forall|i: int| 0 <= i < pieces.len() implies (#[trigger] pieces[i]).len() == 12 by {
        reveal(shaded_piece);
    }
    assert forall|i: int| 0 <= i < plain.len() implies (#[trigger] plain[i]).len() == 9 by {
        reveal(scaled_piece);
    }
    strung_reads(pieces, 12, k, 0);
    strung_reads(pieces, 12, k, 2);
    strung_reads(pieces, 12, k, 5);
    strung_reads(pieces, 12, k, 1 + 3 * c);
    strung_reads(pieces, 12, k, 2 + 3 * c);
    strung_reads(pieces, 12, k, 3 * c);
    strung_reads(plain, 9, k, 1 + 2 * c);
    assert(k * 12 == 12 * k && k * 9 == 9 * k);
    let (u, v) = uv_of(atlas, text[k])->0;
    let corners = upright(
        rounded_q8(pen_q8_of(font, text.take(k), x, scale.0, gap)),
        y,
        scaled_q8(font.glyph_w as i16, scale.0),
        scaled_q8(font.glyph_h as i16, scale.1),
    );
    let uvs = corners_of(u, v, font.glyph_w, font.glyph_h);
    let page = atlas.tpage.page_bits(0) as u16;
    shaded_quad_reads_back(corners, uvs, colors, command, atlas.clut_word, page, c);
    quad_reads_back(corners, uvs, command, atlas.clut_word, page, c);
    reveal(shaded_piece);
    reveal(scaled_piece);
}

/// Whether a command word begins with a tint: red in the lowest byte, then green,
/// then blue.
pub open spec fn is_tinted(word: u32, tint: (u8, u8, u8)) -> bool {
    byte_in(word, 0) == tint.0 && byte_in(word, 1) == tint.1 && byte_in(word, 2) == tint.2
}

proof fn tints_ride_along(kind: int, tint: (u8, u8, u8))
    requires
        0 <= kind < 256,
    ensures
        ({
            let word = (0x100_0000 * kind + color_word(tint.0, tint.1, tint.2)) as u32;
            is_tinted(word, tint) && byte_in(word, 3) == kind
        }),
{
    let low = color_word(tint.0, tint.1, tint.2) as int;
    color_reads_back(tint.0, tint.1, tint.2);
    let word = 0x100_0000 * kind + low;
    assert(low < 0x100_0000);
    assert(word / 0x100 == 0x1_0000 * kind + low / 0x100);
    assert(word / 0x1_0000 == 0x100 * kind + low / 0x1_0000);
    assert(word / 0x100_0000 == kind);
}

/// Glyphs are drawn as textured quads, shaded or not, in their tint; none of them
/// is blended or raw.
pub proof fn glyph_quads_are_tinted(tint: (u8, u8, u8))
    ensures
        is_tinted(textured_quad_command(tint), tint),
        byte_in(textured_quad_command(tint), 3) == 0x2C,
        is_tinted(gouraud_quad_command(tint), tint),
        byte_in(gouraud_quad_command(tint), 3) == 0x3C,
{
    tints_ride_along(0x2C, tint);
    tints_ride_along(0x3C, tint);
}

/// Plain text begins with the page of its atlas and draws its glyphs as textured
/// rectangles in their tint.
pub proof fn plain_text_is_tinted(
    atlas: FontAtlas,
    text: Seq<char>,
    x: i16,
    y: i16,
    gap: int,
    tint: (u8, u8, u8),
) -> (command: u32)
    ensures
        plain_text(atlas, text, x, y, gap, tint) == seq![opaque_mode(atlas.tpage)] + rect_words(
            atlas,
            text,
            x,
            y,
            gap,
            command,
        ),
        is_tinted(command, tint),
        byte_in(command, 3) == 0x64,
{
    tints_ride_along(0x64, tint);
    (0x6400_0000 + color_word(tint.0, tint.1, tint.2)) as u32
}

/// Blended text draws the same rectangles with the blend bit set, between a draw
/// mode with its equation and the opaque one.
pub proof fn blended_text_is_tinted(
    atlas: FontAtlas,
    text: Seq<char>,
    x: i16,
    y: i16,
    gap: int,
    tint: (u8, u8, u8),
    blend: TextBlend,
) -> (command: u32)
    requires
        atlas.tpage.wf(),
    ensures
        ({
            let words = blended_text(atlas, text, x, y, gap, tint, blend);
            let glyphs = rect_words(atlas, text, x, y, gap, command);
            &&& words.len() == glyphs.len() + 3
            &&& words.subrange(2, 2 + glyphs.len() as int) == glyphs
            &&& words[0] - opaque_mode(atlas.tpage) == 0x20 * blend.spec_abr()
            &&& words.last() == opaque_mode(atlas.tpage)
        }),
        is_tinted(command, tint),
        byte_in(command, 3) == 0x66,
{
    tints_ride_along(0x66, tint);
    let command = (0x6600_0000 + color_word(tint.0, tint.1, tint.2)) as u32;
    let words = blended_text(atlas, text, x, y, gap, tint, blend);
    let glyphs = rect_words(atlas, text, x, y, gap, command);
    assert(words.subrange(2, 2 + glyphs.len() as int) =~= glyphs);
    command
}

/// A backdrop is a blended rectangle without a texture, of the corner, size and
/// tint that were asked for; one without an area draws nothing.
pub proof fn backdrops_read_back(
    atlas: FontAtlas,
    corner: (i16, i16),
    size: (u16, u16),
    tint: (u8, u8, u8),
    blend: TextBlend,
)
    requires
        atlas.tpage.wf(),
    ensures
        ({
            let words = backdrop(atlas, corner, size, tint, blend);
            &&& size.0 == 0 || size.1 == 0 ==> words.len() == 0
            &&& size.0 > 0 && size.1 > 0 ==> {
                &&& words.len() == 5
                &&& words[0] - words[4] == 0x20 * blend.spec_abr()
                &&& is_tinted(words[1], tint)
                &&& byte_in(words[1], 3) == 0x62
                &&& low_in(words[2]) == corner.0
                &&& high_in(words[2]) == corner.1
                &&& words[3] % 0x1_0000 == size.0
                &&& words[3] / 0x1_0000 == size.1
                &&& words[4] == opaque_mode(atlas.tpage)
            }
        }),
{
    tints_ride_along(0x62, tint);
    vertex_reads_back(corner.0, corner.1);
    size_reads_back(size.0, size.1);
}

/// A gradient has the first colour in both upper corners of every glyph and the
/// second in both lower ones.
pub proof fn gradients_go_down(
    atlas: FontAtlas,
    text: Seq<char>,
    x: i16,
    y: i16,
    scale: (u8, u8),
    top: (u8, u8, u8),
    bottom: (u8, u8, u8),
    k: int,
    c: int,
)
    requires
        covered(*atlas.font, text),
        0 <= k < text.len(),
        0 <= c < 4,
        -0x8000 <= x + reach(*atlas.font, text, k) * scale.0,
        x + reach(*atlas.font, text, k) * scale.0 + atlas.font.glyph_w * scale.0 < 0x8000,
        y + atlas.font.glyph_h * scale.1 < 0x8000,
        atlas.font.glyph_w * scale.0 < 0x8000,
        atlas.font.glyph_h * scale.1 < 0x8000,
    ensures
        ({
            let words = gradient_text(atlas, text, x, y, scale, top, bottom);
            &&& words.len() == 1 + 12 * text.len()
            &&& is_tinted(
                words[1 + 12 * k + 3 * c],
                if c < 2 {
                    top
                } else {
                    bottom
                },
            )
        }),
{
    let colors = seq![top, top, bottom, bottom];
    let command = gouraud_quad_command(top);
    gradient_glyphs_follow_the_pen(atlas, text, x, y, scale, colors, command, k, c);
    glyph_quads_are_tinted(top);
    let words = gradient_words(atlas, text, x, y, scale, colors, command);
    let all = gradient_text(atlas, text, x, y, scale, top, bottom);
    assert(all[1 + 12 * k + 3 * c] == words[12 * k + 3 * c]);
}

/// Scaled text begins with a reset of the texture window and draws each glyph as a
/// quad in its tint; an empty text sends nothing.
pub proof fn scaled_text_is_tinted(
    atlas: FontAtlas,
    text: Seq<char>,
    x: i16,
    y: i16,
    scale: (u16, u16),
    gap: i8,
    tint: (u8, u8, u8),
) -> (command: u32)
    ensures
        ({
            let words = scaled_text(atlas, text, x, y, scale, gap, tint);
            &&& text.len() == 0 ==> words.len() == 0
            &&& text.len() > 0 ==> words[0] == 0xE200_0000 && words.drop_first()
                == scaled_words(atlas, text, x, y, scale, gap, command)
        }),
        is_tinted(command, tint),
        byte_in(command, 3) == 0x2C,
{
    glyph_quads_are_tinted(tint);
    let command = textured_quad_command(tint);
    let words = scaled_text(atlas, text, x, y, scale, gap, tint);
    if text.len() > 0 {
        assert(words.drop_first() =~= scaled_words(atlas, text, x, y, scale, gap, command));
    }
    command
}

/// Text that is drawn centred has as much of it to the left of the centre as to
/// the right, but for an odd pixel, which goes to the right.
pub proof fn centred_text_has_equal_halves(width: i16)
    requires
        0 <= width,
    ensures
        0 <= (width - half_width(width)) - half_width(width) <= 1,
{
}

/// A whole scale multiplies sizes.
pub proof fn whole_scales_multiply(value: i16, scale: u8)
    requires
        0 < value,
        0 < scale,
        value * scale < 0x7FFF,
    ensures
        scaled_q8(value, whole_scale(scale)) == value * scale,
{
    let exact = value * scale;
    assert(value * (scale * 256) == 256 * exact && exact >= 1) by (nonlinear_arith)
        requires
            exact == value * scale,
            0 < value,
            0 < scale,
    ;
    assert((256 * exact + 128) / 256 == exact);
}

} // verus!
