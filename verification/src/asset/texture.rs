//! Textures packed for video memory.

use vstd::prelude::*;

use crate::asset::header::{
    check_magic, check_payload, flags_of, magic_fault, payload_fault, take_table,
    version_of, viewed, ParseError,
};
use crate::bytes::{le16, le32, read_le16, read_le32};

verus! {

/// Bits per texel.
#[derive(Clone, Copy, Debug, PartialEq, Eq, Structural)]
pub enum Depth {
    /// Four bits: an index into sixteen colours.
    Bit4,
    /// Eight bits: an index into 256 colours.
    Bit8,
    /// Fifteen bits of colour.
    Bit15,
}

/// Magic of a texture blob.
pub const TEXTURE_MAGIC: [u8; 4] = [0x50, 0x53, 0x58, 0x54];

/// The version that is read.
pub const TEXTURE_VERSION: u16 = 1;

/// Bytes in the texture header.
pub const TEXTURE_HEADER_SIZE: usize = 16;

/// The depth that a header byte names.
pub open spec fn depth_of(byte: u8) -> Option<Depth> {
    if byte == 4 {
        Some(Depth::Bit4)
    } else if byte == 8 {
        Some(Depth::Bit8)
    } else if byte == 15 {
        Some(Depth::Bit15)
    } else {
        None
    }
}

/// Texels in one halfword of video memory.
pub open spec fn texels_per_halfword(depth: Depth) -> int {
    match depth {
        Depth::Bit4 => 4,
        Depth::Bit8 => 2,
        Depth::Bit15 => 1,
    }
}

/// What a texture holds.
pub struct TextureView {
    pub flags: u16,
    pub depth: Depth,
    pub width: u16,
    pub height: u16,
    pub clut_entries: u16,
    pub pixels: Seq<u8>,
    pub clut: Seq<u8>,
}

/// The texture in a blob.
pub open spec fn texture_of(bytes: Seq<u8>) -> Result<TextureView, ParseError> {
    if let Some(error) = magic_fault(bytes, TEXTURE_MAGIC@) {
        Err(error)
    } else if version_of(bytes) != TEXTURE_VERSION {
        Err(ParseError::UnsupportedVersion(version_of(bytes)))
    } else if let Some(error) = payload_fault(bytes, TEXTURE_HEADER_SIZE as int) {
        Err(error)
    } else {
        let pixels_end = 28 + le32(bytes, 20);
        let clut_end = pixels_end + le32(bytes, 24);
        if depth_of(bytes[12]) is None || clut_end > bytes.len() {
            Err(ParseError::TableOverflow)
        } else {
            Ok(
                TextureView {
                    flags: flags_of(bytes),
                    depth: depth_of(bytes[12])->0,
                    width: le16(bytes, 14),
                    height: le16(bytes, 16),
                    clut_entries: le16(bytes, 18),
                    pixels: bytes.subrange(28, pixels_end),
                    clut: bytes.subrange(pixels_end, clut_end),
                },
            )
        }
    }
}

/// A texture borrowed from its blob.
#[derive(Clone, Copy, Debug)]
pub struct Texture<'a> {
    pixel_data: &'a [u8],
    clut_data: &'a [u8],
    width_px: u16,
    height_px: u16,
    depth: Depth,
    clut_entries: u16,
    flags: u16,
}

impl<'a> View for Texture<'a> {
    type V = TextureView;

    closed spec fn view(&self) -> TextureView {
        TextureView {
            flags: self.flags,
            depth: self.depth,
            width: self.width_px,
            height: self.height_px,
            clut_entries: self.clut_entries,
            pixels: self.pixel_data@,
            clut: self.clut_data@,
        }
    }
}

impl<'a> Texture<'a> {
    /// Parse a cooked texture.
    pub fn from_bytes(bytes: &'a [u8]) -> (result: Result<Self, ParseError>)
        ensures
            viewed(result) == texture_of(bytes@),
    {
        let version: u16 = check_magic(bytes, &TEXTURE_MAGIC)?;
        if version != TEXTURE_VERSION {
            return Err(ParseError::UnsupportedVersion(version));
        }
        check_payload(bytes, TEXTURE_HEADER_SIZE)?;
        let depth: Depth = match bytes[12] {
            4 => Depth::Bit4,
            8 => Depth::Bit8,
            15 => Depth::Bit15,
            _ => return Err(ParseError::TableOverflow),
        };
        let pixel_bytes: u32 = read_le32(bytes, 20);
        let clut_bytes: u32 = read_le32(bytes, 24);
        let mut offset: usize = 28;
        let pixel_data: &'a [u8] = take_table(bytes, &mut offset, pixel_bytes as usize)?;
        let clut_data: &'a [u8] = take_table(bytes, &mut offset, clut_bytes as usize)?;
        Ok(
            Texture {
                pixel_data,
                clut_data,
                width_px: read_le16(bytes, 14),
                height_px: read_le16(bytes, 16),
                depth,
                clut_entries: read_le16(bytes, 18),
                flags: read_le16(bytes, 6),
            },
        )
    }

    /// Width in texels.
    pub fn width(&self) -> (width: u16)
        ensures
            width == self@.width,
    {
        self.width_px
    }

    /// Height in texels.
    pub fn height(&self) -> (height: u16)
        ensures
            height == self@.height,
    {
        self.height_px
    }

    /// Colour depth.
    pub fn depth(&self) -> (depth: Depth)
        ensures
            depth == self@.depth,
    {
        self.depth
    }

    /// Number of palette entries.
    pub fn clut_entries(&self) -> (entries: u16)
        ensures
            entries == self@.clut_entries,
    {
        self.clut_entries
    }

    /// Feature flags.
    pub fn flags(&self) -> (flags: u16)
        ensures
            flags == self@.flags,
    {
        self.flags
    }

    /// Whether palette entry zero stays transparent, `bit` being the flag bit
    /// that says so.
    pub fn index_zero_transparent(&self, bit: u16) -> (transparent: bool)
        ensures
            transparent == (self@.flags & bit != 0),
    {
        self.flags & bit != 0
    }

    /// The packed pixels.
    pub fn pixel_bytes(&self) -> (pixels: &'a [u8])
        ensures
            pixels@ == self@.pixels,
    {
        self.pixel_data
    }

    /// The palette.
    pub fn clut_bytes(&self) -> (clut: &'a [u8])
        ensures
            clut@ == self@.clut,
    {
        self.clut_data
    }

    /// Halfwords of video memory that one row takes, rounded up.
    pub fn halfwords_per_row(&self) -> (halfwords: u16)
        ensures
            ({
                let texels = texels_per_halfword(self@.depth);
                (halfwords - 1) * texels < self@.width <= halfwords * texels
            }),
    {
        match self.depth {
            Depth::Bit4 => self.width_px / 4 + if self.width_px % 4 != 0 {
                1
            } else {
                0
            },
            Depth::Bit8 => self.width_px / 2 + self.width_px % 2,
            Depth::Bit15 => self.width_px,
        }
    }
}

} // verus!
