//! Primitive packets.
//!
//! A packet is a tag word and the data words of one GP0 command, in the order
//! in which they are sent. New packets have tag zero; an ordering table fills
//! it in.

use vstd::prelude::*;

use crate::gpu::material::{
    rect_header, TextureMaterial, TexturedGouraudPacketMaterial, TexturedPacketMaterial,
};
use crate::gpu::words::{
    color_word, pack_color, pack_texcoord, pack_vertex, pack_xy, polygon_command, polygon_opcode,
    size_word, texcoord_word, vertex_word,
};

verus! {

/// A corner.
pub open spec fn corner(v: (i16, i16)) -> u32 {
    vertex_word(v.0, v.1)
}

/// A colour.
pub open spec fn rgb(c: (u8, u8, u8)) -> u32 {
    color_word(c.0, c.1, c.2)
}

/// A texture coordinate with what rides in its upper half.
pub open spec fn texel(uv: (u8, u8), high: u16) -> u32 {
    texcoord_word(uv.0, uv.1, high)
}

/// A packed texture coordinate with what rides in its upper half.
pub open spec fn packed_texel(uv: u16, high: u16) -> u32 {
    (uv + 0x1_0000 * high) as u32
}

fn pack_corner(v: (i16, i16)) -> (word: u32)
    ensures
        word == corner(v),
{
    pack_vertex(v.0, v.1)
}

fn pack_rgb(c: (u8, u8, u8)) -> (word: u32)
    ensures
        word == rgb(c),
        word < 0x100_0000,
{
    pack_color(c.0, c.1, c.2)
}

fn pack_texel(uv: (u8, u8), high: u16) -> (word: u32)
    ensures
        word == texel(uv, high),
{
    pack_texcoord(uv.0, uv.1, high)
}

fn pack_packed_texel(uv: u16, high: u16) -> (word: u32)
    ensures
        word == packed_texel(uv, high),
{
    uv as u32 + 0x1_0000 * high as u32
}

/// A triangle of one colour.
#[derive(Clone, Copy, Debug, PartialEq, Eq, Structural)]
pub struct TriFlat {
    pub tag: u32,
    pub color_cmd: u32,
    pub v0: u32,
    pub v1: u32,
    pub v2: u32,
}

impl TriFlat {
    /// Data words behind the tag.
    pub const WORDS: u8 = 4;

    /// The data words in the order in which they are sent.
    pub open spec fn spec_words(self) -> Seq<u32> {
        seq![self.color_cmd, self.v0, self.v1, self.v2]
    }

    /// The data words in the order in which they are sent.
    pub fn words(&self) -> (words: [u32; 4])
        ensures
            words@ == self.spec_words(),
    {
        let words: [u32; 4] = [self.color_cmd, self.v0, self.v1, self.v2];
        assert(words@ =~= seq![self.color_cmd, self.v0, self.v1, self.v2]);
        words
    }

    /// What a packet holds, made from its corners and colour.
    pub open spec fn spec_new(verts: [(i16, i16); 3], r: u8, g: u8, b: u8) -> Self {
        TriFlat {
            tag: 0,
            color_cmd: (polygon_command(false, false, false, false, false)
                + color_word(r, g, b)) as u32,
            v0: corner(verts[0]),
            v1: corner(verts[1]),
            v2: corner(verts[2]),
        }
    }

    /// A packet from its corners and colour.
    pub fn new(verts: [(i16, i16); 3], r: u8, g: u8, b: u8) -> (packet: Self)
        ensures
            packet == Self::spec_new(verts, r, g, b),
    {
        TriFlat {
            tag: 0,
            color_cmd: polygon_opcode(false, false, false, false, false) + pack_color(r, g, b),
            v0: pack_corner(verts[0]),
            v1: pack_corner(verts[1]),
            v2: pack_corner(verts[2]),
        }
    }
}

/// A quad of one colour.
#[derive(Clone, Copy, Debug, PartialEq, Eq, Structural)]
pub struct QuadFlat {
    pub tag: u32,
    pub color_cmd: u32,
    pub v0: u32,
    pub v1: u32,
    pub v2: u32,
    pub v3: u32,
}

impl QuadFlat {
    /// Data words behind the tag.
    pub const WORDS: u8 = 5;

    /// The data words in the order in which they are sent.
    pub open spec fn spec_words(self) -> Seq<u32> {
        seq![self.color_cmd, self.v0, self.v1, self.v2, self.v3]
    }

    /// The data words in the order in which they are sent.
    pub fn words(&self) -> (words: [u32; 5])
        ensures
            words@ == self.spec_words(),
    {
        let words: [u32; 5] = [self.color_cmd, self.v0, self.v1, self.v2, self.v3];
        assert(words@ =~= seq![self.color_cmd, self.v0, self.v1, self.v2, self.v3]);
        words
    }

    /// What a packet holds, made from its corners and colour.
    pub open spec fn spec_new(verts: [(i16, i16); 4], r: u8, g: u8, b: u8) -> Self {
        QuadFlat {
            tag: 0,
            color_cmd: (polygon_command(false, true, false, false, false)
                + color_word(r, g, b)) as u32,
            v0: corner(verts[0]),
            v1: corner(verts[1]),
            v2: corner(verts[2]),
            v3: corner(verts[3]),
        }
    }

    /// A packet from its corners and colour.
    pub fn new(verts: [(i16, i16); 4], r: u8, g: u8, b: u8) -> (packet: Self)
        ensures
            packet == Self::spec_new(verts, r, g, b),
    {
        QuadFlat {
            tag: 0,
            color_cmd: polygon_opcode(false, true, false, false, false) + pack_color(r, g, b),
            v0: pack_corner(verts[0]),
            v1: pack_corner(verts[1]),
            v2: pack_corner(verts[2]),
            v3: pack_corner(verts[3]),
        }
    }
}

/// A triangle with a colour at each corner.
#[derive(Clone, Copy, Debug, PartialEq, Eq, Structural)]
pub struct TriGouraud {
    pub tag: u32,
    pub color0_cmd: u32,
    pub v0: u32,
    pub color1: u32,
    pub v1: u32,
    pub color2: u32,
    pub v2: u32,
}

impl TriGouraud {
    /// Data words behind the tag.
    pub const WORDS: u8 = 6;

    /// The data words in the order in which they are sent.
    pub open spec fn spec_words(self) -> Seq<u32> {
        seq![self.color0_cmd, self.v0, self.color1, self.v1, self.color2, self.v2]
    }

    /// The data words in the order in which they are sent.
    pub fn words(&self) -> (words: [u32; 6])
        ensures
            words@ == self.spec_words(),
    {
        let words: [u32; 6] = [
            self.color0_cmd,
            self.v0,
            self.color1,
            self.v1,
            self.color2,
            self.v2,
        ];
        assert(words@ =~= seq![
            self.color0_cmd,
            self.v0,
            self.color1,
            self.v1,
            self.color2,
            self.v2,
        ]);
        words
    }

    /// What a packet holds, made from its corners and their colours.
    pub open spec fn spec_new(verts: [(i16, i16); 3], colors: [(u8, u8, u8); 3]) -> Self {
        TriGouraud {
            tag: 0,
            color0_cmd: (polygon_command(true, false, false, false, false)
                + rgb(colors[0])) as u32,
            v0: corner(verts[0]),
            color1: rgb(colors[1]),
            v1: corner(verts[1]),
            color2: rgb(colors[2]),
            v2: corner(verts[2]),
        }
    }

    /// A packet from its corners and their colours.
    pub fn new(verts: [(i16, i16); 3], colors: [(u8, u8, u8); 3]) -> (packet: Self)
        ensures
            packet == Self::spec_new(verts, colors),
    {
        TriGouraud {
            tag: 0,
            color0_cmd: polygon_opcode(true, false, false, false, false) + pack_rgb(colors[0]),
            v0: pack_corner(verts[0]),
            color1: pack_rgb(colors[1]),
            v1: pack_corner(verts[1]),
            color2: pack_rgb(colors[2]),
            v2: pack_corner(verts[2]),
        }
    }
}

/// A quad with a colour at each corner.
#[derive(Clone, Copy, Debug, PartialEq, Eq, Structural)]
pub struct QuadGouraud {
    pub tag: u32,
    pub color0_cmd: u32,
    pub v0: u32,
    pub color1: u32,
    pub v1: u32,
    pub color2: u32,
    pub v2: u32,
    pub color3: u32,
    pub v3: u32,
}

impl QuadGouraud {
    /// Data words behind the tag.
    pub const WORDS: u8 = 8;

    /// The data words in the order in which they are sent.
    pub open spec fn spec_words(self) -> Seq<u32> {
        seq![
            self.color0_cmd,
            self.v0,
            self.color1,
            self.v1,
            self.color2,
            self.v2,
            self.color3,
            self.v3,
        ]
    }

    /// The data words in the order in which they are sent.
    pub fn words(&self) -> (words: [u32; 8])
        ensures
            words@ == self.spec_words(),
    {
        let words: [u32; 8] = [
            self.color0_cmd,
            self.v0,
            self.color1,
            self.v1,
            self.color2,
            self.v2,
            self.color3,
            self.v3,
        ];
        assert(words@ =~= seq![
            self.color0_cmd,
            self.v0,
            self.color1,
            self.v1,
            self.color2,
            self.v2,
            self.color3,
            self.v3,
        ]);
        words
    }

    /// What a packet holds, made from its corners and their colours.
    pub open spec fn spec_new(verts: [(i16, i16); 4], colors: [(u8, u8, u8); 4]) -> Self {
        QuadGouraud {
            tag: 0,
            color0_cmd: (polygon_command(true, true, false, false, false)
                + rgb(colors[0])) as u32,
            v0: corner(verts[0]),
            color1: rgb(colors[1]),
            v1: corner(verts[1]),
            color2: rgb(colors[2]),
            v2: corner(verts[2]),
            color3: rgb(colors[3]),
            v3: corner(verts[3]),
        }
    }

    /// A packet from its corners and their colours.
    pub fn new(verts: [(i16, i16); 4], colors: [(u8, u8, u8); 4]) -> (packet: Self)
        ensures
            packet == Self::spec_new(verts, colors),
    {
        QuadGouraud {
            tag: 0,
            color0_cmd: polygon_opcode(true, true, false, false, false) + pack_rgb(colors[0]),
            v0: pack_corner(verts[0]),
            color1: pack_rgb(colors[1]),
            v1: pack_corner(verts[1]),
            color2: pack_rgb(colors[2]),
            v2: pack_corner(verts[2]),
            color3: pack_rgb(colors[3]),
            v3: pack_corner(verts[3]),
        }
    }
}

/// A rectangle of one colour.
#[derive(Clone, Copy, Debug, PartialEq, Eq, Structural)]
pub struct RectFlat {
    pub tag: u32,
    pub color_cmd: u32,
    pub xy: u32,
    pub wh: u32,
}

impl RectFlat {
    /// Data words behind the tag.
    pub const WORDS: u8 = 3;

    /// The data words in the order in which they are sent.
    pub open spec fn spec_words(self) -> Seq<u32> {
        seq![self.color_cmd, self.xy, self.wh]
    }

    /// The data words in the order in which they are sent.
    pub fn words(&self) -> (words: [u32; 3])
        ensures
            words@ == self.spec_words(),
    {
        let words: [u32; 3] = [self.color_cmd, self.xy, self.wh];
        assert(words@ =~= seq![self.color_cmd, self.xy, self.wh]);
        words
    }

    /// What a packet holds, made from its top-left corner, size and colour.
    pub open spec fn spec_new(x: i16, y: i16, w: u16, h: u16, r: u8, g: u8, b: u8) -> Self {
        RectFlat {
            tag: 0,
            color_cmd: (0x6000_0000 + color_word(r, g, b)) as u32,
            xy: vertex_word(x, y),
            wh: size_word(w, h),
        }
    }

    /// A packet from its top-left corner, size and colour.
    pub fn new(x: i16, y: i16, w: u16, h: u16, r: u8, g: u8, b: u8) -> (packet: Self)
        ensures
            packet == Self::spec_new(x, y, w, h, r, g, b),
    {
        RectFlat {
            tag: 0,
            color_cmd: 0x6000_0000 + pack_color(r, g, b),
            xy: pack_vertex(x, y),
            wh: pack_xy(w, h),
        }
    }
}

/// A line of one colour.
#[derive(Clone, Copy, Debug, PartialEq, Eq, Structural)]
pub struct LineMono {
    pub tag: u32,
    pub color_cmd: u32,
    pub v0: u32,
    pub v1: u32,
}

impl LineMono {
    /// Data words behind the tag.
    pub const WORDS: u8 = 3;

    /// The data words in the order in which they are sent.
    pub open spec fn spec_words(self) -> Seq<u32> {
        seq![self.color_cmd, self.v0, self.v1]
    }

    /// The data words in the order in which they are sent.
    pub fn words(&self) -> (words: [u32; 3])
        ensures
            words@ == self.spec_words(),
    {
        let words: [u32; 3] = [self.color_cmd, self.v0, self.v1];
        assert(words@ =~= seq![self.color_cmd, self.v0, self.v1]);
        words
    }

    /// What a packet holds, made from its end points and colour.
    pub open spec fn spec_new(x0: i16, y0: i16, x1: i16, y1: i16, r: u8, g: u8, b: u8) -> Self {
        LineMono {
            tag: 0,
            color_cmd: (0x4000_0000 + color_word(r, g, b)) as u32,
            v0: vertex_word(x0, y0),
            v1: vertex_word(x1, y1),
        }
    }

    /// A packet from its end points and colour.
    pub fn new(x0: i16, y0: i16, x1: i16, y1: i16, r: u8, g: u8, b: u8) -> (packet: Self)
        ensures
            packet == Self::spec_new(x0, y0, x1, y1, r, g, b),
    {
        LineMono {
            tag: 0,
            color_cmd: 0x4000_0000 + pack_color(r, g, b),
            v0: pack_vertex(x0, y0),
            v1: pack_vertex(x1, y1),
        }
    }
}

/// A textured triangle with one tint, behind its texture window.
#[derive(Clone, Copy, Debug, PartialEq, Eq, Structural)]
pub struct TriTextured {
    pub tag: u32,
    pub tex_window: u32,
    pub color_cmd: u32,
    pub v0: u32,
    pub uv0_clut: u32,
    pub v1: u32,
    pub uv1_tpage: u32,
    pub v2: u32,
    pub uv2: u32,
}

impl TriTextured {
    /// Data words behind the tag.
    pub const WORDS: u8 = 8;

    /// The data words in the order in which they are sent.
    pub open spec fn spec_words(self) -> Seq<u32> {
        seq![
            self.tex_window,
            self.color_cmd,
            self.v0,
            self.uv0_clut,
            self.v1,
            self.uv1_tpage,
            self.v2,
            self.uv2,
        ]
    }

    /// The data words in the order in which they are sent.
    pub fn words(&self) -> (words: [u32; 8])
        ensures
            words@ == self.spec_words(),
    {
        let words: [u32; 8] = [
            self.tex_window,
            self.color_cmd,
            self.v0,
            self.uv0_clut,
            self.v1,
            self.uv1_tpage,
            self.v2,
            self.uv2,
        ];
        assert(words@ =~= seq![
            self.tex_window,
            self.color_cmd,
            self.v0,
            self.uv0_clut,
            self.v1,
            self.uv1_tpage,
            self.v2,
            self.uv2,
        ]);
        words
    }

    /// What a packet holds, made of an opaque texture.
    pub open spec fn spec_new(
        verts: [(i16, i16); 3],
        uvs: [(u8, u8); 3],
        clut: u16,
        tpage: u16,
        tint: (u8, u8, u8),
    ) -> Self {
        TriTextured {
            tag: 0,
            tex_window: 0xE200_0000,
            color_cmd: (polygon_command(false, false, true, false, false) + rgb(tint)) as u32,
            v0: corner(verts[0]),
            uv0_clut: texel(uvs[0], clut),
            v1: corner(verts[1]),
            uv1_tpage: texel(uvs[1], tpage),
            v2: corner(verts[2]),
            uv2: texel(uvs[2], 0),
        }
    }

    /// A packet of an opaque texture.
    pub fn new(
        verts: [(i16, i16); 3],
        uvs: [(u8, u8); 3],
        clut: u16,
        tpage: u16,
        tint: (u8, u8, u8),
    ) -> (packet: Self)
        ensures
            packet == Self::spec_new(verts, uvs, clut, tpage, tint),
    {
        TriTextured::with_material(verts, uvs, TextureMaterial::opaque(clut, tpage, tint))
    }

    /// What a packet holds, made of a material.
    pub open spec fn spec_with_material(
        verts: [(i16, i16); 3],
        uvs: [(u8, u8); 3],
        material: TextureMaterial,
    ) -> Self {
        TriTextured {
            tag: 0,
            tex_window: material.window,
            color_cmd: material.header(false),
            v0: corner(verts[0]),
            uv0_clut: texel(uvs[0], material.clut),
            v1: corner(verts[1]),
            uv1_tpage: texel(uvs[1], material.tpage),
            v2: corner(verts[2]),
            uv2: texel(uvs[2], 0),
        }
    }

    /// A packet of a material.
    pub fn with_material(
        verts: [(i16, i16); 3],
        uvs: [(u8, u8); 3],
        material: TextureMaterial,
    ) -> (packet: Self)
        ensures
            packet == Self::spec_with_material(verts, uvs, material),
    {
        TriTextured {
            tag: 0,
            tex_window: material.window,
            color_cmd: material.flat_textured_polygon_header(false),
            v0: pack_corner(verts[0]),
            uv0_clut: pack_texel(uvs[0], material.clut),
            v1: pack_corner(verts[1]),
            uv1_tpage: pack_texel(uvs[1], material.tpage),
            v2: pack_corner(verts[2]),
            uv2: pack_texel(uvs[2], 0),
        }
    }

    /// What a packet holds, made of a material, its texture coordinates in packet layout.
    pub open spec fn spec_with_material_packet_texcoords(
        verts: [(i16, i16); 3],
        uvs: [(u8, u8); 3],
        material: TextureMaterial,
    ) -> Self {
        TriTextured {
            tag: 0,
            tex_window: material.window,
            color_cmd: material.header(false),
            v0: corner(verts[0]),
            uv0_clut: texel(uvs[0], material.clut),
            v1: corner(verts[1]),
            uv1_tpage: texel(uvs[1], material.tpage),
            v2: corner(verts[2]),
            uv2: texel(uvs[2], 0),
        }
    }

    /// A packet of a material, its texture coordinates in packet layout.
    pub fn with_material_packet_texcoords(
        verts: [(i16, i16); 3],
        uvs: [(u8, u8); 3],
        material: TextureMaterial,
    ) -> (packet: Self)
        ensures
            packet == Self::spec_with_material_packet_texcoords(verts, uvs, material),
    {
        TriTextured {
            tag: 0,
            tex_window: material.window,
            color_cmd: material.flat_textured_polygon_header(false),
            v0: pack_corner(verts[0]),
            uv0_clut: pack_texel(uvs[0], material.clut),
            v1: pack_corner(verts[1]),
            uv1_tpage: pack_texel(uvs[1], material.tpage),
            v2: pack_corner(verts[2]),
            uv2: pack_texel(uvs[2], 0),
        }
    }

    /// What a packet holds, made of a material and packed texture coordinates.
    pub open spec fn spec_with_material_packed_uv_words(
        verts: [(i16, i16); 3],
        uv_words: [u16; 3],
        material: TextureMaterial,
    ) -> Self {
        TriTextured {
            tag: 0,
            tex_window: material.window,
            color_cmd: material.header(false),
            v0: corner(verts[0]),
            uv0_clut: packed_texel(uv_words[0], material.clut),
            v1: corner(verts[1]),
            uv1_tpage: packed_texel(uv_words[1], material.tpage),
            v2: corner(verts[2]),
            uv2: uv_words[2] as u32,
        }
    }

    /// A packet of a material and packed texture coordinates.
    pub fn with_material_packed_uv_words(
        verts: [(i16, i16); 3],
        uv_words: [u16; 3],
        material: TextureMaterial,
    ) -> (packet: Self)
        ensures
            packet == Self::spec_with_material_packed_uv_words(verts, uv_words, material),
    {
        TriTextured {
            tag: 0,
            tex_window: material.window,
            color_cmd: material.flat_textured_polygon_header(false),
            v0: pack_corner(verts[0]),
            uv0_clut: pack_packed_texel(uv_words[0], material.clut),
            v1: pack_corner(verts[1]),
            uv1_tpage: pack_packed_texel(uv_words[1], material.tpage),
            v2: pack_corner(verts[2]),
            uv2: uv_words[2] as u32,
        }
    }

    /// What a packet holds, made of prepared material words and packed texture coordinates.
    pub open spec fn spec_with_packet_material_packed_uv_words(
        verts: [(i16, i16); 3],
        uv_words: [u16; 3],
        material: TexturedPacketMaterial,
    ) -> Self {
        TriTextured {
            tag: 0,
            tex_window: material.tex_window_word,
            color_cmd: material.color_command_word,
            v0: corner(verts[0]),
            uv0_clut: uv_words[0] as u32 | material.clut_high_word,
            v1: corner(verts[1]),
            uv1_tpage: uv_words[1] as u32 | material.tpage_high_word,
            v2: corner(verts[2]),
            uv2: uv_words[2] as u32,
        }
    }

    /// A packet of prepared material words and packed texture coordinates.
    pub fn with_packet_material_packed_uv_words(
        verts: [(i16, i16); 3],
        uv_words: [u16; 3],
        material: TexturedPacketMaterial,
    ) -> (packet: Self)
        ensures
            packet == Self::spec_with_packet_material_packed_uv_words(verts, uv_words, material),
    {
        TriTextured {
            tag: 0,
            tex_window: material.tex_window_word,
            color_cmd: material.color_command_word,
            v0: pack_corner(verts[0]),
            uv0_clut: uv_words[0] as u32 | material.clut_high_word,
            v1: pack_corner(verts[1]),
            uv1_tpage: uv_words[1] as u32 | material.tpage_high_word,
            v2: pack_corner(verts[2]),
            uv2: uv_words[2] as u32,
        }
    }
}

/// A textured triangle with a colour at each corner, behind its texture window.
#[derive(Clone, Copy, Debug, PartialEq, Eq, Structural)]
pub struct TriTexturedGouraud {
    pub tag: u32,
    pub tex_window: u32,
    pub color0_cmd: u32,
    pub v0: u32,
    pub uv0_clut: u32,
    pub color1: u32,
    pub v1: u32,
    pub uv1_tpage: u32,
    pub color2: u32,
    pub v2: u32,
    pub uv2: u32,
}

impl TriTexturedGouraud {
    /// Data words behind the tag.
    pub const WORDS: u8 = 10;

    /// The data words in the order in which they are sent.
    pub open spec fn spec_words(self) -> Seq<u32> {
        seq![
            self.tex_window,
            self.color0_cmd,
            self.v0,
            self.uv0_clut,
            self.color1,
            self.v1,
            self.uv1_tpage,
            self.color2,
            self.v2,
            self.uv2,
        ]
    }

    /// The data words in the order in which they are sent.
    pub fn words(&self) -> (words: [u32; 10])
        ensures
            words@ == self.spec_words(),
    {
        let words: [u32; 10] = [
            self.tex_window,
            self.color0_cmd,
            self.v0,
            self.uv0_clut,
            self.color1,
            self.v1,
            self.uv1_tpage,
            self.color2,
            self.v2,
            self.uv2,
        ];
        assert(words@ =~= seq![
            self.tex_window,
            self.color0_cmd,
            self.v0,
            self.uv0_clut,
            self.color1,
            self.v1,
            self.uv1_tpage,
            self.color2,
            self.v2,
            self.uv2,
        ]);
        words
    }

    /// What a packet holds, made of an opaque texture.
    pub open spec fn spec_new(
        verts: [(i16, i16); 3],
        uvs: [(u8, u8); 3],
        colors: [(u8, u8, u8); 3],
        clut: u16,
        tpage: u16,
    ) -> Self {
        TriTexturedGouraud {
            tag: 0,
            tex_window: 0xE200_0000,
            color0_cmd: (polygon_command(true, false, true, false, false) + rgb(
                colors[0],
            )) as u32,
            v0: corner(verts[0]),
            uv0_clut: texel(uvs[0], clut),
            color1: rgb(colors[1]),
            v1: corner(verts[1]),
            uv1_tpage: texel(uvs[1], tpage),
            color2: rgb(colors[2]),
            v2: corner(verts[2]),
            uv2: texel(uvs[2], 0),
        }
    }

    /// A packet of an opaque texture.
    pub fn new(
        verts: [(i16, i16); 3],
        uvs: [(u8, u8); 3],
        colors: [(u8, u8, u8); 3],
        clut: u16,
        tpage: u16,
    ) -> (packet: Self)
        ensures
            packet == Self::spec_new(verts, uvs, colors, clut, tpage),
    {
        TriTexturedGouraud::with_material(verts, uvs, colors, TextureMaterial::new(clut, tpage))
    }

    /// What a packet holds, made of a material.
    pub open spec fn spec_with_material(
        verts: [(i16, i16); 3],
        uvs: [(u8, u8); 3],
        colors: [(u8, u8, u8); 3],
        material: TextureMaterial,
    ) -> Self {
        TriTexturedGouraud {
            tag: 0,
            tex_window: material.window,
            color0_cmd: (material.command(true, false) + rgb(colors[0])) as u32,
            v0: corner(verts[0]),
            uv0_clut: texel(uvs[0], material.clut),
            color1: rgb(colors[1]),
            v1: corner(verts[1]),
            uv1_tpage: texel(uvs[1], material.tpage),
            color2: rgb(colors[2]),
            v2: corner(verts[2]),
            uv2: texel(uvs[2], 0),
        }
    }

    /// A packet of a material.
    pub fn with_material(
        verts: [(i16, i16); 3],
        uvs: [(u8, u8); 3],
        colors: [(u8, u8, u8); 3],
        material: TextureMaterial,
    ) -> (packet: Self)
        ensures
            packet == Self::spec_with_material(verts, uvs, colors, material),
    {
        TriTexturedGouraud {
            tag: 0,
            tex_window: material.window,
            color0_cmd: material.textured_polygon_command(true, false) + pack_rgb(colors[0]),
            v0: pack_corner(verts[0]),
            uv0_clut: pack_texel(uvs[0], material.clut),
            color1: pack_rgb(colors[1]),
            v1: pack_corner(verts[1]),
            uv1_tpage: pack_texel(uvs[1], material.tpage),
            color2: pack_rgb(colors[2]),
            v2: pack_corner(verts[2]),
            uv2: pack_texel(uvs[2], 0),
        }
    }

    /// What a packet holds, made of a material, its texture coordinates in packet layout.
    pub open spec fn spec_with_material_packet_texcoords(
        verts: [(i16, i16); 3],
        uvs: [(u8, u8); 3],
        colors: [(u8, u8, u8); 3],
        material: TextureMaterial,
    ) -> Self {
        TriTexturedGouraud {
            tag: 0,
            tex_window: material.window,
            color0_cmd: (material.command(true, false) + rgb(colors[0])) as u32,
            v0: corner(verts[0]),
            uv0_clut: texel(uvs[0], material.clut),
            color1: rgb(colors[1]),
            v1: corner(verts[1]),
            uv1_tpage: texel(uvs[1], material.tpage),
            color2: rgb(colors[2]),
            v2: corner(verts[2]),
            uv2: texel(uvs[2], 0),
        }
    }

    /// A packet of a material, its texture coordinates in packet layout.
    pub fn with_material_packet_texcoords(
        verts: [(i16, i16); 3],
        uvs: [(u8, u8); 3],
        colors: [(u8, u8, u8); 3],
        material: TextureMaterial,
    ) -> (packet: Self)
        ensures
            packet == Self::spec_with_material_packet_texcoords(verts, uvs, colors, material),
    {
        TriTexturedGouraud {
            tag: 0,
            tex_window: material.window,
            color0_cmd: material.textured_polygon_command(true, false) + pack_rgb(colors[0]),
            v0: pack_corner(verts[0]),
            uv0_clut: pack_texel(uvs[0], material.clut),
            color1: pack_rgb(colors[1]),
            v1: pack_corner(verts[1]),
            uv1_tpage: pack_texel(uvs[1], material.tpage),
            color2: pack_rgb(colors[2]),
            v2: pack_corner(verts[2]),
            uv2: pack_texel(uvs[2], 0),
        }
    }

    /// What a packet holds, made of a material and packed texture coordinates.
    pub open spec fn spec_with_material_packed_uv_words(
        verts: [(i16, i16); 3],
        uv_words: [u16; 3],
        colors: [(u8, u8, u8); 3],
        material: TextureMaterial,
    ) -> Self {
        TriTexturedGouraud {
            tag: 0,
            tex_window: material.window,
            color0_cmd: (material.command(true, false) + rgb(colors[0])) as u32,
            v0: corner(verts[0]),
            uv0_clut: packed_texel(uv_words[0], material.clut),
            color1: rgb(colors[1]),
            v1: corner(verts[1]),
            uv1_tpage: packed_texel(uv_words[1], material.tpage),
            color2: rgb(colors[2]),
            v2: corner(verts[2]),
            uv2: uv_words[2] as u32,
        }
    }

    /// A packet of a material and packed texture coordinates.
    pub fn with_material_packed_uv_words(
        verts: [(i16, i16); 3],
        uv_words: [u16; 3],
        colors: [(u8, u8, u8); 3],
        material: TextureMaterial,
    ) -> (packet: Self)
        ensures
            packet == Self::spec_with_material_packed_uv_words(verts, uv_words, colors, material),
    {
        TriTexturedGouraud {
            tag: 0,
            tex_window: material.window,
            color0_cmd: material.textured_polygon_command(true, false) + pack_rgb(colors[0]),
            v0: pack_corner(verts[0]),
            uv0_clut: pack_packed_texel(uv_words[0], material.clut),
            color1: pack_rgb(colors[1]),
            v1: pack_corner(verts[1]),
            uv1_tpage: pack_packed_texel(uv_words[1], material.tpage),
            color2: pack_rgb(colors[2]),
            v2: pack_corner(verts[2]),
            uv2: uv_words[2] as u32,
        }
    }

    /// What a packet holds, made of prepared material words and packed texture coordinates.
    pub open spec fn spec_with_packet_material_packed_uv_words(
        verts: [(i16, i16); 3],
        uv_words: [u16; 3],
        colors: [(u8, u8, u8); 3],
        material: TexturedGouraudPacketMaterial,
    ) -> Self {
        TriTexturedGouraud {
            tag: 0,
            tex_window: material.tex_window_word,
            color0_cmd: material.color0_command_word | rgb(colors[0]),
            v0: corner(verts[0]),
            uv0_clut: uv_words[0] as u32 | material.clut_high_word,
            color1: rgb(colors[1]),
            v1: corner(verts[1]),
            uv1_tpage: uv_words[1] as u32 | material.tpage_high_word,
            color2: rgb(colors[2]),
            v2: corner(verts[2]),
            uv2: uv_words[2] as u32,
        }
    }

    /// A packet of prepared material words and packed texture coordinates.
    pub fn with_packet_material_packed_uv_words(
        verts: [(i16, i16); 3],
        uv_words: [u16; 3],
        colors: [(u8, u8, u8); 3],
        material: TexturedGouraudPacketMaterial,
    ) -> (packet: Self)
        ensures
            packet == Self::spec_with_packet_material_packed_uv_words(verts, uv_words, colors, material),
    {
        TriTexturedGouraud {
            tag: 0,
            tex_window: material.tex_window_word,
            color0_cmd: material.color0_command_word | pack_rgb(colors[0]),
            v0: pack_corner(verts[0]),
            uv0_clut: uv_words[0] as u32 | material.clut_high_word,
            color1: pack_rgb(colors[1]),
            v1: pack_corner(verts[1]),
            uv1_tpage: uv_words[1] as u32 | material.tpage_high_word,
            color2: pack_rgb(colors[2]),
            v2: pack_corner(verts[2]),
            uv2: uv_words[2] as u32,
        }
    }
}

/// The bit that makes the command of a triangle that of a quad.
pub const QUAD_OPCODE_BIT: u32 = 0x0800_0000;

/// A textured quad with a colour at each corner, behind its texture window.
#[derive(Clone, Copy, Debug, PartialEq, Eq, Structural)]
pub struct QuadTexturedGouraud {
    pub tag: u32,
    pub tex_window: u32,
    pub color0_cmd: u32,
    pub v0: u32,
    pub uv0_clut: u32,
    pub color1: u32,
    pub v1: u32,
    pub uv1_tpage: u32,
    pub color2: u32,
    pub v2: u32,
    pub uv2: u32,
    pub color3: u32,
    pub v3: u32,
    pub uv3: u32,
}

impl QuadTexturedGouraud {
    /// Data words behind the tag.
    pub const WORDS: u8 = 13;

    /// The data words in the order in which they are sent.
    pub open spec fn spec_words(self) -> Seq<u32> {
        seq![
            self.tex_window,
            self.color0_cmd,
            self.v0,
            self.uv0_clut,
            self.color1,
            self.v1,
            self.uv1_tpage,
            self.color2,
            self.v2,
            self.uv2,
            self.color3,
            self.v3,
            self.uv3,
        ]
    }

    /// The data words in the order in which they are sent.
    pub fn words(&self) -> (words: [u32; 13])
        ensures
            words@ == self.spec_words(),
    {
        let words: [u32; 13] = [
            self.tex_window,
            self.color0_cmd,
            self.v0,
            self.uv0_clut,
            self.color1,
            self.v1,
            self.uv1_tpage,
            self.color2,
            self.v2,
            self.uv2,
            self.color3,
            self.v3,
            self.uv3,
        ];
        assert(words@ =~= seq![
            self.tex_window,
            self.color0_cmd,
            self.v0,
            self.uv0_clut,
            self.color1,
            self.v1,
            self.uv1_tpage,
            self.color2,
            self.v2,
            self.uv2,
            self.color3,
            self.v3,
            self.uv3,
        ]);
        words
    }

    /// What a packet holds, made of prepared material words and packed texture coordinates.
    pub open spec fn spec_with_packet_material_packed_uv_words(
        verts: [(i16, i16); 4],
        uv_words: [u16; 4],
        colors: [(u8, u8, u8); 4],
        material: TexturedGouraudPacketMaterial,
    ) -> Self {
        QuadTexturedGouraud {
            tag: 0,
            tex_window: material.tex_window_word,
            color0_cmd: (material.color0_command_word | QUAD_OPCODE_BIT) | rgb(colors[0]),
            v0: corner(verts[0]),
            uv0_clut: uv_words[0] as u32 | material.clut_high_word,
            color1: rgb(colors[1]),
            v1: corner(verts[1]),
            uv1_tpage: uv_words[1] as u32 | material.tpage_high_word,
            color2: rgb(colors[2]),
            v2: corner(verts[2]),
            uv2: uv_words[2] as u32,
            color3: rgb(colors[3]),
            v3: corner(verts[3]),
            uv3: uv_words[3] as u32,
        }
    }

    /// A packet of prepared material words and packed texture coordinates.
    pub fn with_packet_material_packed_uv_words(
        verts: [(i16, i16); 4],
        uv_words: [u16; 4],
        colors: [(u8, u8, u8); 4],
        material: TexturedGouraudPacketMaterial,
    ) -> (packet: Self)
        ensures
            packet == Self::spec_with_packet_material_packed_uv_words(verts, uv_words, colors, material),
    {
        QuadTexturedGouraud {
            tag: 0,
            tex_window: material.tex_window_word,
            color0_cmd: (material.color0_command_word | QUAD_OPCODE_BIT) | pack_rgb(colors[0]),
            v0: pack_corner(verts[0]),
            uv0_clut: uv_words[0] as u32 | material.clut_high_word,
            color1: pack_rgb(colors[1]),
            v1: pack_corner(verts[1]),
            uv1_tpage: uv_words[1] as u32 | material.tpage_high_word,
            color2: pack_rgb(colors[2]),
            v2: pack_corner(verts[2]),
            uv2: uv_words[2] as u32,
            color3: pack_rgb(colors[3]),
            v3: pack_corner(verts[3]),
            uv3: uv_words[3] as u32,
        }
    }
}

/// A textured quad with one tint.
#[derive(Clone, Copy, Debug, PartialEq, Eq, Structural)]
pub struct QuadTextured {
    pub tag: u32,
    pub color_cmd: u32,
    pub v0: u32,
    pub uv0_clut: u32,
    pub v1: u32,
    pub uv1_tpage: u32,
    pub v2: u32,
    pub uv2: u32,
    pub v3: u32,
    pub uv3: u32,
}

impl QuadTextured {
    /// Data words behind the tag.
    pub const WORDS: u8 = 9;

    /// The data words in the order in which they are sent.
    pub open spec fn spec_words(self) -> Seq<u32> {
        seq![
            self.color_cmd,
            self.v0,
            self.uv0_clut,
            self.v1,
            self.uv1_tpage,
            self.v2,
            self.uv2,
            self.v3,
            self.uv3,
        ]
    }

    /// The data words in the order in which they are sent.
    pub fn words(&self) -> (words: [u32; 9])
        ensures
            words@ == self.spec_words(),
    {
        let words: [u32; 9] = [
            self.color_cmd,
            self.v0,
            self.uv0_clut,
            self.v1,
            self.uv1_tpage,
            self.v2,
            self.uv2,
            self.v3,
            self.uv3,
        ];
        assert(words@ =~= seq![
            self.color_cmd,
            self.v0,
            self.uv0_clut,
            self.v1,
            self.uv1_tpage,
            self.v2,
            self.uv2,
            self.v3,
            self.uv3,
        ]);
        words
    }

    /// What a packet holds, made of an opaque texture.
    pub open spec fn spec_new(
        verts: [(i16, i16); 4],
        uvs: [(u8, u8); 4],
        clut: u16,
        tpage: u16,
        tint: (u8, u8, u8),
    ) -> Self {
        QuadTextured {
            tag: 0,
            color_cmd: (polygon_command(false, true, true, false, false) + rgb(tint)) as u32,
            v0: corner(verts[0]),
            uv0_clut: texel(uvs[0], clut),
            v1: corner(verts[1]),
            uv1_tpage: texel(uvs[1], tpage),
            v2: corner(verts[2]),
            uv2: texel(uvs[2], 0),
            v3: corner(verts[3]),
            uv3: texel(uvs[3], 0),
        }
    }

    /// A packet of an opaque texture.
    pub fn new(
        verts: [(i16, i16); 4],
        uvs: [(u8, u8); 4],
        clut: u16,
        tpage: u16,
        tint: (u8, u8, u8),
    ) -> (packet: Self)
        ensures
            packet == Self::spec_new(verts, uvs, clut, tpage, tint),
    {
        QuadTextured::with_material(verts, uvs, TextureMaterial::opaque(clut, tpage, tint))
    }

    /// What a packet holds, made of a material.
    pub open spec fn spec_with_material(
        verts: [(i16, i16); 4],
        uvs: [(u8, u8); 4],
        material: TextureMaterial,
    ) -> Self {
        QuadTextured {
            tag: 0,
            color_cmd: material.header(true),
            v0: corner(verts[0]),
            uv0_clut: texel(uvs[0], material.clut),
            v1: corner(verts[1]),
            uv1_tpage: texel(uvs[1], material.tpage),
            v2: corner(verts[2]),
            uv2: texel(uvs[2], 0),
            v3: corner(verts[3]),
            uv3: texel(uvs[3], 0),
        }
    }

    /// A packet of a material.
    pub fn with_material(
        verts: [(i16, i16); 4],
        uvs: [(u8, u8); 4],
        material: TextureMaterial,
    ) -> (packet: Self)
        ensures
            packet == Self::spec_with_material(verts, uvs, material),
    {
        QuadTextured {
            tag: 0,
            color_cmd: material.flat_textured_polygon_header(true),
            v0: pack_corner(verts[0]),
            uv0_clut: pack_texel(uvs[0], material.clut),
            v1: pack_corner(verts[1]),
            uv1_tpage: pack_texel(uvs[1], material.tpage),
            v2: pack_corner(verts[2]),
            uv2: pack_texel(uvs[2], 0),
            v3: pack_corner(verts[3]),
            uv3: pack_texel(uvs[3], 0),
        }
    }
}

/// A textured quad with one tint, behind its texture window.
#[derive(Clone, Copy, Debug, PartialEq, Eq, Structural)]
pub struct QuadTexturedMaterial {
    pub tag: u32,
    pub tex_window: u32,
    pub color_cmd: u32,
    pub v0: u32,
    pub uv0_clut: u32,
    pub v1: u32,
    pub uv1_tpage: u32,
    pub v2: u32,
    pub uv2: u32,
    pub v3: u32,
    pub uv3: u32,
}

impl QuadTexturedMaterial {
    /// Data words behind the tag.
    pub const WORDS: u8 = 10;

    /// The data words in the order in which they are sent.
    pub open spec fn spec_words(self) -> Seq<u32> {
        seq![
            self.tex_window,
            self.color_cmd,
            self.v0,
            self.uv0_clut,
            self.v1,
            self.uv1_tpage,
            self.v2,
            self.uv2,
            self.v3,
            self.uv3,
        ]
    }

    /// The data words in the order in which they are sent.
    pub fn words(&self) -> (words: [u32; 10])
        ensures
            words@ == self.spec_words(),
    {
        let words: [u32; 10] = [
            self.tex_window,
            self.color_cmd,
            self.v0,
            self.uv0_clut,
            self.v1,
            self.uv1_tpage,
            self.v2,
            self.uv2,
            self.v3,
            self.uv3,
        ];
        assert(words@ =~= seq![
            self.tex_window,
            self.color_cmd,
            self.v0,
            self.uv0_clut,
            self.v1,
            self.uv1_tpage,
            self.v2,
            self.uv2,
            self.v3,
            self.uv3,
        ]);
        words
    }

    /// What a packet holds, made of a material.
    pub open spec fn spec_with_material(
        verts: [(i16, i16); 4],
        uvs: [(u8, u8); 4],
        material: TextureMaterial,
    ) -> Self {
        QuadTexturedMaterial {
            tag: 0,
            tex_window: material.window,
            color_cmd: material.header(true),
            v0: corner(verts[0]),
            uv0_clut: texel(uvs[0], material.clut),
            v1: corner(verts[1]),
            uv1_tpage: texel(uvs[1], material.tpage),
            v2: corner(verts[2]),
            uv2: texel(uvs[2], 0),
            v3: corner(verts[3]),
            uv3: texel(uvs[3], 0),
        }
    }

    /// A packet of a material.
    pub fn with_material(
        verts: [(i16, i16); 4],
        uvs: [(u8, u8); 4],
        material: TextureMaterial,
    ) -> (packet: Self)
        ensures
            packet == Self::spec_with_material(verts, uvs, material),
    {
        QuadTexturedMaterial {
            tag: 0,
            tex_window: material.window,
            color_cmd: material.flat_textured_polygon_header(true),
            v0: pack_corner(verts[0]),
            uv0_clut: pack_texel(uvs[0], material.clut),
            v1: pack_corner(verts[1]),
            uv1_tpage: pack_texel(uvs[1], material.tpage),
            v2: pack_corner(verts[2]),
            uv2: pack_texel(uvs[2], 0),
            v3: pack_corner(verts[3]),
            uv3: pack_texel(uvs[3], 0),
        }
    }
}

/// A textured rectangle of variable size. The packet names no texture page.
#[derive(Clone, Copy, Debug, PartialEq, Eq, Structural)]
pub struct Sprite {
    pub tag: u32,
    pub color_cmd: u32,
    pub xy: u32,
    pub uv_clut: u32,
    pub wh: u32,
}

impl Sprite {
    /// Data words behind the tag.
    pub const WORDS: u8 = 4;

    /// The data words in the order in which they are sent.
    pub open spec fn spec_words(self) -> Seq<u32> {
        seq![self.color_cmd, self.xy, self.uv_clut, self.wh]
    }

    /// The data words in the order in which they are sent.
    pub fn words(&self) -> (words: [u32; 4])
        ensures
            words@ == self.spec_words(),
    {
        let words: [u32; 4] = [self.color_cmd, self.xy, self.uv_clut, self.wh];
        assert(words@ =~= seq![self.color_cmd, self.xy, self.uv_clut, self.wh]);
        words
    }

    /// What a packet holds, made of an opaque texture.
    pub open spec fn spec_new(
        x: i16,
        y: i16,
        w: u16,
        h: u16,
        uv: (u8, u8),
        clut: u16,
        r: u8,
        g: u8,
        b: u8,
    ) -> Self {
        Sprite {
            tag: 0,
            color_cmd: (0x6400_0000 + color_word(r, g, b)) as u32,
            xy: vertex_word(x, y),
            uv_clut: texel(uv, clut),
            wh: size_word(w, h),
        }
    }

    /// A packet of an opaque texture.
    pub fn new(
        x: i16,
        y: i16,
        w: u16,
        h: u16,
        uv: (u8, u8),
        clut: u16,
        r: u8,
        g: u8,
        b: u8,
    ) -> (packet: Self)
        ensures
            packet == Self::spec_new(x, y, w, h, uv, clut, r, g, b),
    {
        Sprite::with_material(x, y, w, h, uv, TextureMaterial::opaque(clut, 0, (r, g, b)))
    }

    /// What a packet holds, made of a material.
    pub open spec fn spec_with_material(
        x: i16,
        y: i16,
        w: u16,
        h: u16,
        uv: (u8, u8),
        material: TextureMaterial,
    ) -> Self {
        Sprite {
            tag: 0,
            color_cmd: rect_header(material) as u32,
            xy: vertex_word(x, y),
            uv_clut: texel(uv, material.clut),
            wh: size_word(w, h),
        }
    }

    /// A packet of a material.
    pub fn with_material(
        x: i16,
        y: i16,
        w: u16,
        h: u16,
        uv: (u8, u8),
        material: TextureMaterial,
    ) -> (packet: Self)
        ensures
            packet == Self::spec_with_material(x, y, w, h, uv, material),
    {
        Sprite {
            tag: 0,
            color_cmd: material.textured_rect_header(),
            xy: pack_vertex(x, y),
            uv_clut: pack_texel(uv, material.clut),
            wh: pack_xy(w, h),
        }
    }
}

/// Words whose bits do not meet can be joined by adding them.
proof fn disjoint_words_add(color: u32, command: u32, half: u16, high: u16)
    by (bit_vector)
    requires
        color < 0x100_0000,
        command % 0x100_0000 == 0,
        command < 0xF700_0000,
        (command / 0x800_0000) % 2 == 0,
    ensures
        command | color == command + color,
        (command | 0x0800_0000u32) | color == command + 0x0800_0000u32 + color,
        (half as u32) | (0x1_0000u32 * (high as u32)) as u32 == half + 0x1_0000u32 * high,
{
}

/// Prepared material words give the same triangle as the material itself.
pub proof fn prepared_material_draws_the_same(
    uv: u16,
    color: (u8, u8, u8),
    material: TextureMaterial,
)
    ensures
        (uv as u32) | ((0x1_0000 * material.clut) as u32) == packed_texel(uv, material.clut),
        (uv as u32) | ((0x1_0000 * material.tpage) as u32) == packed_texel(uv, material.tpage),
        material.command(true, false) | rgb(color) == material.command(true, false) + rgb(color),
        (material.command(true, false) | QUAD_OPCODE_BIT) | rgb(color) == material.command(
            true,
            true,
        ) + rgb(color),
{
    let command = material.command(true, false);
    disjoint_words_add(rgb(color), command, uv, material.clut);
    disjoint_words_add(rgb(color), command, uv, material.tpage);
}

} // verus!
