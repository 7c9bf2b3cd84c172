//! What packets say when their words are taken apart again.

use vstd::prelude::*;

use crate::gpu::material::{
    rect_header, TextureMaterial, TexturedGouraudPacketMaterial, TexturedPacketMaterial,
};
use crate::gpu::prim::{
    corner, prepared_material_draws_the_same, rgb, texel, LineMono, QuadFlat, QuadGouraud,
    QuadTextured, QuadTexturedGouraud, QuadTexturedMaterial, RectFlat, Sprite, TriFlat, TriGouraud,
    TriTextured, TriTexturedGouraud,
};
use crate::gpu::words::{flag, polygon_command};
use crate::gpu::words_laws::{
    byte_in, color_reads_back, command_bit, high_in, low_in, polygon_command_reads_back,
    size_reads_back, texcoord_reads_back, vertex_reads_back,
};

verus! {

/// Whether a word names a place on the screen.
pub open spec fn is_at(word: u32, v: (i16, i16)) -> bool {
    low_in(word) == v.0 && high_in(word) == v.1
}

/// Whether a word names a texel.
pub open spec fn shows(word: u32, uv: (u8, u8)) -> bool {
    byte_in(word, 0) == uv.0 && byte_in(word, 1) == uv.1
}

/// Whether a word holds a colour.
pub open spec fn is_tinted(word: u32, c: (u8, u8, u8)) -> bool {
    byte_in(word, 0) == c.0 && byte_in(word, 1) == c.1 && byte_in(word, 2) == c.2
}

/// Whether a word is the command of a polygon of a kind.
pub open spec fn is_polygon(
    word: u32,
    gouraud: bool,
    quad: bool,
    textured: bool,
    semi_transparent: bool,
    raw: bool,
) -> bool {
    &&& word / 0x2000_0000 == 1
    &&& command_bit(word, 4) == gouraud
    &&& command_bit(word, 3) == quad
    &&& command_bit(word, 2) == textured
    &&& command_bit(word, 1) == semi_transparent
    &&& command_bit(word, 0) == raw
}

/// A command and a colour share a word.
proof fn command_takes_a_color(command: u32, c: (u8, u8, u8))
    requires
        command % 0x100_0000 == 0,
    ensures
        command + rgb(c) <= u32::MAX,
        is_tinted((command + rgb(c)) as u32, c),
        (command + rgb(c)) as u32 / 0x100_0000 == command / 0x100_0000,
        (command + rgb(c)) as u32 / 0x2000_0000 == command / 0x2000_0000,
{
    color_reads_back(c.0, c.1, c.2);
    let k = command as int / 0x100_0000;
    let color = rgb(c) as int;
    let w = command + color;
    assert(color < 0x100_0000);
    assert(command == 0x100_0000 * k);
    assert(w / 0x100_0000 == k && w % 0x100_0000 == color);
    assert(w % 256 == color % 256);
    assert(w / 256 == 0x1_0000 * k + color / 256);
    assert(w / 0x1_0000 == 256 * k + color / 0x1_0000);
    assert(w / 0x2000_0000 == k / 32);
    assert(command as int / 0x2000_0000 == k / 32);
}

proof fn tinted_polygon(
    gouraud: bool,
    quad: bool,
    textured: bool,
    semi_transparent: bool,
    raw: bool,
    c: (u8, u8, u8),
)
    ensures
        ({
            let word = (polygon_command(gouraud, quad, textured, semi_transparent, raw) + rgb(c))
                as u32;
            &&& is_polygon(word, gouraud, quad, textured, semi_transparent, raw)
            &&& is_tinted(word, c)
        }),
{
    let command = polygon_command(gouraud, quad, textured, semi_transparent, raw);
    polygon_command_reads_back(gouraud, quad, textured, semi_transparent, raw);
    command_takes_a_color(command, c);
}

proof fn corner_is_there(v: (i16, i16))
    ensures
        is_at(corner(v), v),
{
    vertex_reads_back(v.0, v.1);
}

proof fn texel_is_there(uv: (u8, u8), high: u16)
    ensures
        shows(texel(uv, high), uv),
        texel(uv, high) / 0x1_0000 == high,
{
    texcoord_reads_back(uv.0, uv.1, high);
}

proof fn color_is_there(c: (u8, u8, u8))
    ensures
        is_tinted(rgb(c), c),
{
    color_reads_back(c.0, c.1, c.2);
}

/// A triangle of one colour: the command with the colour, then the corners in order.
pub proof fn flat_triangle_reads_back(
    verts: [(i16, i16); 3],
    r: u8,
    g: u8,
    b: u8,
)
    ensures
        ({
            let words = TriFlat::spec_new(verts, r, g, b).spec_words();
            &&& words.len() == 4
            &&& is_polygon(words[0], false, false, false, false, false)
            &&& is_tinted(words[0], (r, g, b))
            &&& is_at(words[1], verts[0])
            &&& is_at(words[2], verts[1])
            &&& is_at(words[3], verts[2])
        }),
{
    tinted_polygon(false, false, false, false, false, (r, g, b));
    corner_is_there(verts[0]);
    corner_is_there(verts[1]);
    corner_is_there(verts[2]);
}

/// A shaded triangle: the command with the first colour, then corners and colours in
/// turn.
pub proof fn shaded_triangle_reads_back(
    verts: [(i16, i16); 3],
    colors: [(u8, u8, u8); 3],
)
    ensures
        ({
            let words = TriGouraud::spec_new(verts, colors).spec_words();
            &&& words.len() == 6
            &&& is_polygon(words[0], true, false, false, false, false)
            &&& is_at(words[1], verts[0])
            &&& is_at(words[3], verts[1])
            &&& is_at(words[5], verts[2])
            &&& is_tinted(words[0], colors[0])
            &&& is_tinted(words[2], colors[1])
            &&& is_tinted(words[4], colors[2])
        }),
{
    tinted_polygon(true, false, false, false, false, colors[0]);
    corner_is_there(verts[0]);
    corner_is_there(verts[1]);
    corner_is_there(verts[2]);
    color_is_there(colors[0]);
    color_is_there(colors[1]);
    color_is_there(colors[2]);
}

/// A quad of one colour: the command with the colour, then the corners in order.
pub proof fn flat_quad_reads_back(
    verts: [(i16, i16); 4],
    r: u8,
    g: u8,
    b: u8,
)
    ensures
        ({
            let words = QuadFlat::spec_new(verts, r, g, b).spec_words();
            &&& words.len() == 5
            &&& is_polygon(words[0], false, true, false, false, false)
            &&& is_tinted(words[0], (r, g, b))
            &&& is_at(words[1], verts[0])
            &&& is_at(words[2], verts[1])
            &&& is_at(words[3], verts[2])
            &&& is_at(words[4], verts[3])
        }),
{
    tinted_polygon(false, true, false, false, false, (r, g, b));
    corner_is_there(verts[0]);
    corner_is_there(verts[1]);
    corner_is_there(verts[2]);
    corner_is_there(verts[3]);
}

/// A shaded quad: the command with the first colour, then corners and colours in
/// turn.
pub proof fn shaded_quad_reads_back(
    verts: [(i16, i16); 4],
    colors: [(u8, u8, u8); 4],
)
    ensures
        ({
            let words = QuadGouraud::spec_new(verts, colors).spec_words();
            &&& words.len() == 8
            &&& is_polygon(words[0], true, true, false, false, false)
            &&& is_at(words[1], verts[0])
            &&& is_at(words[3], verts[1])
            &&& is_at(words[5], verts[2])
            &&& is_at(words[7], verts[3])
            &&& is_tinted(words[0], colors[0])
            &&& is_tinted(words[2], colors[1])
            &&& is_tinted(words[4], colors[2])
            &&& is_tinted(words[6], colors[3])
        }),
{
    tinted_polygon(true, true, false, false, false, colors[0]);
    corner_is_there(verts[0]);
    corner_is_there(verts[1]);
    corner_is_there(verts[2]);
    corner_is_there(verts[3]);
    color_is_there(colors[0]);
    color_is_there(colors[1]);
    color_is_there(colors[2]);
    color_is_there(colors[3]);
}

/// A rectangle of one colour: the command with the colour, the top-left corner,
/// the size. A line: the command with the colour, then its ends.
pub proof fn rectangle_and_line_read_back(
    x: i16,
    y: i16,
    w: u16,
    h: u16,
    to: (i16, i16),
    c: (u8, u8, u8),
)
    ensures
        ({
            let words = RectFlat::spec_new(x, y, w, h, c.0, c.1, c.2).spec_words();
            &&& words.len() == 3
            &&& words[0] / 0x100_0000 == 0x60
            &&& is_tinted(words[0], c)
            &&& is_at(words[1], (x, y))
            &&& words[2] % 0x1_0000 == w
            &&& words[2] / 0x1_0000 == h
        }),
        ({
            let words = LineMono::spec_new(x, y, to.0, to.1, c.0, c.1, c.2).spec_words();
            &&& words.len() == 3
            &&& words[0] / 0x100_0000 == 0x40
            &&& is_tinted(words[0], c)
            &&& is_at(words[1], (x, y))
            &&& is_at(words[2], to)
        }),
{
    command_takes_a_color(0x6000_0000, c);
    command_takes_a_color(0x4000_0000, c);
    vertex_reads_back(x, y);
    vertex_reads_back(to.0, to.1);
    size_reads_back(w, h);
}

/// A sprite: the command with the tint, blending and raw texels as its material
/// has them, the top-left corner, the texel there with the palette, the size.
pub proof fn sprite_reads_back(
    x: i16,
    y: i16,
    w: u16,
    h: u16,
    uv: (u8, u8),
    material: TextureMaterial,
)
    ensures
        ({
            let words = Sprite::spec_with_material(x, y, w, h, uv, material).spec_words();
            &&& words.len() == 4
            &&& words[0] / 0x1000_0000 == 6
            &&& command_bit(words[0], 2)
            &&& command_bit(words[0], 1) == material.semi_transparent
            &&& command_bit(words[0], 0) == material.raw
            &&& is_tinted(words[0], material.tint)
            &&& is_at(words[1], (x, y))
            &&& shows(words[2], uv)
            &&& words[2] / 0x1_0000 == material.clut
            &&& words[3] % 0x1_0000 == w
            &&& words[3] / 0x1_0000 == h
        }),
{
    let command = (0x6400_0000 + flag(material.semi_transparent) * 0x0200_0000 + flag(material.raw)
        * 0x0100_0000) as u32;
    assert(command % 0x100_0000 == 0);
    assert(command / 0x100_0000 == 0x64 + 2 * flag(material.semi_transparent) + flag(material.raw));
    command_takes_a_color(command, material.tint);
    let word = (command + rgb(material.tint)) as u32;
    assert(rect_header(material) == word);
    assert(word / 0x1000_0000 == (word / 0x100_0000) / 16);
    vertex_reads_back(x, y);
    texel_is_there(uv, material.clut);
    size_reads_back(w, h);
}

/// A textured triangle: the window, the command with the tint, then corners and
/// texels in turn. The palette rides with the first texel, the page with the
/// second.
pub proof fn textured_triangle_reads_back(
    verts: [(i16, i16); 3],
    uvs: [(u8, u8); 3],
    material: TextureMaterial,
)
    ensures
        ({
            let words = TriTextured::spec_with_material(verts, uvs, material).spec_words();
            &&& words.len() == 8
            &&& words[0] == material.window
            &&& is_polygon(words[1], false, false, true, material.semi_transparent, material.raw)
            &&& is_tinted(words[1], material.tint)
            &&& is_at(words[2], verts[0])
            &&& is_at(words[4], verts[1])
            &&& is_at(words[6], verts[2])
            &&& shows(words[3], uvs[0])
            &&& shows(words[5], uvs[1])
            &&& shows(words[7], uvs[2])
            &&& words[3] / 0x1_0000 == material.clut
            &&& words[5] / 0x1_0000 == material.tpage
        }),
{
    tinted_polygon(
        false,
        false,
        true,
        material.semi_transparent,
        material.raw,
        material.tint,
    );
    corner_is_there(verts[0]);
    corner_is_there(verts[1]);
    corner_is_there(verts[2]);
    texel_is_there(uvs[0], material.clut);
    texel_is_there(uvs[1], material.tpage);
    texel_is_there(uvs[2], 0);
}

/// A textured quad: as the triangle, without a window.
pub proof fn textured_quad_reads_back(
    verts: [(i16, i16); 4],
    uvs: [(u8, u8); 4],
    material: TextureMaterial,
)
    ensures
        ({
            let words = QuadTextured::spec_with_material(verts, uvs, material).spec_words();
            &&& words.len() == 9
            &&& is_polygon(words[0], false, true, true, material.semi_transparent, material.raw)
            &&& is_tinted(words[0], material.tint)
            &&& is_at(words[1], verts[0])
            &&& is_at(words[3], verts[1])
            &&& is_at(words[5], verts[2])
            &&& is_at(words[7], verts[3])
            &&& shows(words[2], uvs[0])
            &&& shows(words[4], uvs[1])
            &&& shows(words[6], uvs[2])
            &&& shows(words[8], uvs[3])
            &&& words[2] / 0x1_0000 == material.clut
            &&& words[4] / 0x1_0000 == material.tpage
        }),
{
    tinted_polygon(
        false,
        true,
        true,
        material.semi_transparent,
        material.raw,
        material.tint,
    );
    corner_is_there(verts[0]);
    corner_is_there(verts[1]);
    corner_is_there(verts[2]);
    corner_is_there(verts[3]);
    texel_is_there(uvs[0], material.clut);
    texel_is_there(uvs[1], material.tpage);
    texel_is_there(uvs[2], 0);
    texel_is_there(uvs[3], 0);
}

/// A textured quad with a window.
pub proof fn textured_quad_with_window_reads_back(
    verts: [(i16, i16); 4],
    uvs: [(u8, u8); 4],
    material: TextureMaterial,
)
    ensures
        ({
            let words = QuadTexturedMaterial::spec_with_material(verts, uvs, material).spec_words();
            &&& words.len() == 10
            &&& words[0] == material.window
            &&& is_polygon(words[1], false, true, true, material.semi_transparent, material.raw)
            &&& is_tinted(words[1], material.tint)
            &&& is_at(words[2], verts[0])
            &&& is_at(words[4], verts[1])
            &&& is_at(words[6], verts[2])
            &&& is_at(words[8], verts[3])
            &&& shows(words[3], uvs[0])
            &&& shows(words[5], uvs[1])
            &&& shows(words[7], uvs[2])
            &&& shows(words[9], uvs[3])
            &&& words[3] / 0x1_0000 == material.clut
            &&& words[5] / 0x1_0000 == material.tpage
        }),
{
    tinted_polygon(
        false,
        true,
        true,
        material.semi_transparent,
        material.raw,
        material.tint,
    );
    corner_is_there(verts[0]);
    corner_is_there(verts[1]);
    corner_is_there(verts[2]);
    corner_is_there(verts[3]);
    texel_is_there(uvs[0], material.clut);
    texel_is_there(uvs[1], material.tpage);
    texel_is_there(uvs[2], 0);
    texel_is_there(uvs[3], 0);
}

/// A shaded and textured triangle: the window, and for each corner its colour, its
/// place and its texel; the first colour rides in the command.
pub proof fn shaded_textured_triangle_reads_back(
    verts: [(i16, i16); 3],
    uvs: [(u8, u8); 3],
    colors: [(u8, u8, u8); 3],
    material: TextureMaterial,
)
    ensures
        ({
            let words = TriTexturedGouraud::spec_with_material(verts, uvs, colors, material).spec_words();
            &&& words.len() == 10
            &&& words[0] == material.window
            &&& is_polygon(words[1], true, false, true, material.semi_transparent, material.raw)
            &&& is_at(words[2], verts[0])
            &&& is_at(words[5], verts[1])
            &&& is_at(words[8], verts[2])
            &&& shows(words[3], uvs[0])
            &&& shows(words[6], uvs[1])
            &&& shows(words[9], uvs[2])
            &&& is_tinted(words[1], colors[0])
            &&& is_tinted(words[4], colors[1])
            &&& is_tinted(words[7], colors[2])
            &&& words[3] / 0x1_0000 == material.clut
            &&& words[6] / 0x1_0000 == material.tpage
        }),
{
    tinted_polygon(
        true,
        false,
        true,
        material.semi_transparent,
        material.raw,
        colors[0],
    );
    corner_is_there(verts[0]);
    corner_is_there(verts[1]);
    corner_is_there(verts[2]);
    texel_is_there(uvs[0], material.clut);
    texel_is_there(uvs[1], material.tpage);
    texel_is_there(uvs[2], 0);
    color_is_there(colors[0]);
    color_is_there(colors[1]);
    color_is_there(colors[2]);
}

/// A texel as one halfword: its column, and its row above eight bits.
pub open spec fn packed_uv(uv: (u8, u8)) -> u16 {
    (uv.0 + 256 * uv.1) as u16
}

/// However a textured triangle is made, with texels apart or packed, from a
/// material or from its prepared words, it is the same packet.
pub proof fn textured_triangles_agree(
    verts: [(i16, i16); 3],
    uvs: [(u8, u8); 3],
    colors: [(u8, u8, u8); 3],
    material: TextureMaterial,
)
    ensures
        ({
            let packed: [u16; 3] = [packed_uv(uvs[0]), packed_uv(uvs[1]), packed_uv(uvs[2])];
            let flat = TriTextured::spec_with_material(verts, uvs, material);
            let shaded = TriTexturedGouraud::spec_with_material(verts, uvs, colors, material);
            let words = TexturedPacketMaterial::spec_from_texture(material);
            let shaded_words = TexturedGouraudPacketMaterial::spec_from_texture(material);
            &&& TriTextured::spec_with_material_packet_texcoords(verts, uvs, material) == flat
            &&& TriTextured::spec_with_material_packed_uv_words(verts, packed, material) == flat
            &&& TriTextured::spec_with_packet_material_packed_uv_words(verts, packed, words) == flat
            &&& TriTexturedGouraud::spec_with_material_packet_texcoords(
                verts,
                uvs,
                colors,
                material,
            ) == shaded
            &&& TriTexturedGouraud::spec_with_material_packed_uv_words(
                verts,
                packed,
                colors,
                material,
            ) == shaded
            &&& TriTexturedGouraud::spec_with_packet_material_packed_uv_words(
                verts,
                packed,
                colors,
                shaded_words,
            ) == shaded
        }),
{
    let packed: [u16; 3] = [packed_uv(uvs[0]), packed_uv(uvs[1]), packed_uv(uvs[2])];
    assert(packed[0] == packed_uv(uvs[0]) && packed[1] == packed_uv(uvs[1]) && packed[2]
        == packed_uv(uvs[2]));
    prepared_material_draws_the_same(packed[0], colors[0], material);
    prepared_material_draws_the_same(packed[1], colors[0], material);
    tinted_polygon(true, false, true, material.semi_transparent, material.raw, colors[0]);
}

/// A shaded and textured quad from prepared words: the window, and for each corner
/// its colour, its place and its texel.
pub proof fn shaded_textured_quad_reads_back(
    verts: [(i16, i16); 4],
    uvs: [(u8, u8); 4],
    colors: [(u8, u8, u8); 4],
    material: TextureMaterial,
)
    ensures
        ({
            let packed: [u16; 4] = [
                packed_uv(uvs[0]),
                packed_uv(uvs[1]),
                packed_uv(uvs[2]),
                packed_uv(uvs[3]),
            ];
            let words = QuadTexturedGouraud::spec_with_packet_material_packed_uv_words(
                verts,
                packed,
                colors,
                TexturedGouraudPacketMaterial::spec_from_texture(material),
            ).spec_words();
            &&& words.len() == 13
            &&& words[0] == material.window
            &&& is_polygon(words[1], true, true, true, material.semi_transparent, material.raw)
            &&& is_tinted(words[1], colors[0])
            &&& is_at(words[2], verts[0])
            &&& shows(words[3], uvs[0])
            &&& is_tinted(words[4], colors[1])
            &&& is_at(words[5], verts[1])
            &&& shows(words[6], uvs[1])
            &&& is_tinted(words[7], colors[2])
            &&& is_at(words[8], verts[2])
            &&& shows(words[9], uvs[2])
            &&& is_tinted(words[10], colors[3])
            &&& is_at(words[11], verts[3])
            &&& shows(words[12], uvs[3])
            &&& words[3] / 0x1_0000 == material.clut
            &&& words[6] / 0x1_0000 == material.tpage
        }),
{
    let packed: [u16; 4] = [
        packed_uv(uvs[0]),
        packed_uv(uvs[1]),
        packed_uv(uvs[2]),
        packed_uv(uvs[3]),
    ];
    assert(packed[0] == packed_uv(uvs[0]) && packed[1] == packed_uv(uvs[1]) && packed[2]
        == packed_uv(uvs[2]) && packed[3] == packed_uv(uvs[3]));
    prepared_material_draws_the_same(packed[0], colors[0], material);
    prepared_material_draws_the_same(packed[1], colors[0], material);
    tinted_polygon(true, true, true, material.semi_transparent, material.raw, colors[0]);
    corner_is_there(verts[0]);
    corner_is_there(verts[1]);
    corner_is_there(verts[2]);
    corner_is_there(verts[3]);
    texel_is_there(uvs[0], material.clut);
    texel_is_there(uvs[1], material.tpage);
    texel_is_there(uvs[2], 0);
    texel_is_there(uvs[3], 0);
    color_is_there(colors[0]);
    color_is_there(colors[1]);
    color_is_there(colors[2]);
    color_is_there(colors[3]);
}

/// Packets of an opaque texture are packets of an opaque material: no window but
/// the whole page, no blending, modulated texels. Shaded ones have a tint of their
/// own in each corner.
pub proof fn opaque_packets_have_opaque_materials(
    v3: [(i16, i16); 3],
    t3: [(u8, u8); 3],
    v4: [(i16, i16); 4],
    t4: [(u8, u8); 4],
    colors: [(u8, u8, u8); 3],
    clut: u16,
    tpage: u16,
    tint: (u8, u8, u8),
)
    ensures
        ({
            let material = TextureMaterial {
                clut,
                tpage,
                tint,
                window: 0xE200_0000,
                semi_transparent: false,
                raw: false,
            };
            &&& TriTextured::spec_new(v3, t3, clut, tpage, tint) == TriTextured::spec_with_material(
                v3,
                t3,
                material,
            )
            &&& TriTexturedGouraud::spec_new(v3, t3, colors, clut, tpage)
                == TriTexturedGouraud::spec_with_material(v3, t3, colors, material)
            &&& QuadTextured::spec_new(v4, t4, clut, tpage, tint)
                == QuadTextured::spec_with_material(v4, t4, material)
            &&& Sprite::spec_new(v4[0].0, v4[0].1, clut, tpage, t4[0], clut, tint.0, tint.1, tint.2)
                == Sprite::spec_with_material(v4[0].0, v4[0].1, clut, tpage, t4[0], material)
        }),
{
}

} // verus!
