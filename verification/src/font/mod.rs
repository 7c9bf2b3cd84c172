//! Bitmap-font atlases.
//!
//! 1. Declare (or pick) a [`bitmap::BitmapFont`]: glyph dimensions, a
//!    1-bit-per-pixel bitmap, and layout metadata.
//! 2. Lay it out as a 4bpp texture ([`atlas`] for one font in a page of its own,
//!    [`pack`] for several fonts that share pages) and send that to VRAM with a
//!    two-entry CLUT (transparent, white).
//! 3. Ask the [`atlas::FontAtlas`] for the command words of a text every frame.
//!
//! Nothing here hard-codes a glyph size.

pub mod atlas;
pub mod bitmap;
pub mod glyph_laws;
pub mod hex;
pub mod pack;
pub mod sink;
pub mod texels;
pub mod text_laws;
pub mod upload;
