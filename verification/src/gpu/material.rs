//! What a textured primitive draws with.

use vstd::prelude::*;

use crate::gpu::words::{
    color_word, flag, pack_color, polygon_command, polygon_opcode, RESET_TEXTURE_WINDOW,
};

verus! {

/// A palette, a texture page, a tint, and how texels blend.
#[derive(Clone, Copy, Debug, PartialEq, Eq)]
pub struct TextureMaterial {
    /// Half-word that names the palette.
    pub clut: u16,
    /// Half-word that names the texture page.
    pub tpage: u16,
    pub tint: (u8, u8, u8),
    /// Texture-window command.
    pub window: u32,
    pub semi_transparent: bool,
    /// Texels are drawn without the tint.
    pub raw: bool,
}

/// The header of a textured rectangle of variable size.
pub open spec fn rect_header(material: TextureMaterial) -> int {
    0x6400_0000 + flag(material.semi_transparent) * 0x0200_0000 + flag(material.raw) * 0x0100_0000
        + color_word(material.tint.0, material.tint.1, material.tint.2)
}

impl TextureMaterial {
    /// The tint of a material.
    pub open spec fn tint_word(self) -> u32 {
        color_word(self.tint.0, self.tint.1, self.tint.2)
    }

    /// The command of a textured polygon.
    pub open spec fn command(self, gouraud: bool, quad: bool) -> u32 {
        polygon_command(gouraud, quad, true, self.semi_transparent, self.raw)
    }

    /// The command of a textured polygon with one tint.
    pub open spec fn header(self, quad: bool) -> u32 {
        (self.command(false, quad) + self.tint_word()) as u32
    }

    /// An opaque material.
    pub fn opaque(clut: u16, tpage: u16, tint: (u8, u8, u8)) -> (material: Self)
        ensures
            material == (TextureMaterial {
                clut,
                tpage,
                tint,
                window: RESET_TEXTURE_WINDOW,
                semi_transparent: false,
                raw: false,
            }),
    {
        TextureMaterial {
            clut,
            tpage,
            tint,
            window: RESET_TEXTURE_WINDOW,
            semi_transparent: false,
            raw: false,
        }
    }

    /// An opaque material whose tint leaves texels as they are.
    pub fn new(clut: u16, tpage: u16) -> (material: Self)
        ensures
            material == (TextureMaterial {
                clut,
                tpage,
                tint: (128u8, 128u8, 128u8),
                window: RESET_TEXTURE_WINDOW,
                semi_transparent: false,
                raw: false,
            }),
    {
        TextureMaterial::opaque(clut, tpage, (128, 128, 128))
    }

    /// The command of a textured polygon, its colour field empty.
    pub fn textured_polygon_command(&self, gouraud: bool, quad: bool) -> (word: u32)
        ensures
            word == self.command(gouraud, quad),
            word % 0x100_0000 == 0,
            word <= 0x3F00_0000,
    {
        polygon_opcode(gouraud, quad, true, self.semi_transparent, self.raw)
    }

    /// The command of a textured polygon with one tint.
    pub fn flat_textured_polygon_header(&self, quad: bool) -> (word: u32)
        ensures
            word == self.header(quad),
    {
        self.textured_polygon_command(false, quad) + pack_color(
            self.tint.0,
            self.tint.1,
            self.tint.2,
        )
    }

    /// The command of a textured rectangle of variable size.
    pub fn textured_rect_header(&self) -> (word: u32)
        ensures
            word == rect_header(*self),
    {
        let mut word: u32 = 0x6400_0000;
        if self.semi_transparent {
            word = word + 0x0200_0000;
        }
        if self.raw {
            word = word + 0x0100_0000;
        }
        word + pack_color(self.tint.0, self.tint.1, self.tint.2)
    }
}

/// The words of a material that flat textured packets repeat.
#[derive(Clone, Copy, Debug, PartialEq, Eq, Structural)]
pub struct TexturedPacketMaterial {
    pub tex_window_word: u32,
    pub color_command_word: u32,
    /// Palette in the upper half.
    pub clut_high_word: u32,
    /// Texture page in the upper half.
    pub tpage_high_word: u32,
}

impl TexturedPacketMaterial {
    /// The words of a material, for triangles.
    pub open spec fn spec_from_texture(material: TextureMaterial) -> Self {
        TexturedPacketMaterial {
            tex_window_word: material.window,
            color_command_word: material.header(false),
            clut_high_word: (0x1_0000 * material.clut) as u32,
            tpage_high_word: (0x1_0000 * material.tpage) as u32,
        }
    }

    /// The words of a material, for triangles.
    pub fn from_texture(material: TextureMaterial) -> (words: Self)
        ensures
            words == Self::spec_from_texture(material),
    {
        TexturedPacketMaterial {
            tex_window_word: material.window,
            color_command_word: material.flat_textured_polygon_header(false),
            clut_high_word: 0x1_0000 * material.clut as u32,
            tpage_high_word: 0x1_0000 * material.tpage as u32,
        }
    }
}

/// The words of a material that Gouraud-shaded textured packets repeat.
#[derive(Clone, Copy, Debug, PartialEq, Eq, Structural)]
pub struct TexturedGouraudPacketMaterial {
    pub tex_window_word: u32,
    /// Command of a triangle; the colour of the first corner goes below it.
    pub color0_command_word: u32,
    /// Palette in the upper half.
    pub clut_high_word: u32,
    /// Texture page in the upper half.
    pub tpage_high_word: u32,
}

impl TexturedGouraudPacketMaterial {
    /// The words of a material.
    pub open spec fn spec_from_texture(material: TextureMaterial) -> Self {
        TexturedGouraudPacketMaterial {
            tex_window_word: material.window,
            color0_command_word: material.command(true, false),
            clut_high_word: (0x1_0000 * material.clut) as u32,
            tpage_high_word: (0x1_0000 * material.tpage) as u32,
        }
    }

    /// The words of a material.
    pub fn from_texture(material: TextureMaterial) -> (words: Self)
        ensures
            words == Self::spec_from_texture(material),
    {
        TexturedGouraudPacketMaterial {
            tex_window_word: material.window,
            color0_command_word: material.textured_polygon_command(true, false),
            clut_high_word: 0x1_0000 * material.clut as u32,
            tpage_high_word: 0x1_0000 * material.tpage as u32,
        }
    }
}

} // verus!
