//! Parsers for cooked asset blobs.
//!
//! Every blob opens with the same twelve bytes: four bytes of magic, a
//! version, feature flags, and the length of the payload that follows. The
//! parsers borrow tables out of the blob; nothing is copied. The numbers that
//! the cooker and the runtime agree on beyond the record layouts (magics,
//! version numbers, flag bits, sentinels) come in as a format value.

pub mod animation;
pub mod audio;
pub mod blob_laws;
pub mod cooked;
pub mod header;
pub mod hma1;
pub mod hma1_laws;
pub mod mesh;
pub mod model;
pub mod model_laws;
pub mod pose;
pub mod pose_laws;
pub mod quat;
pub mod quat_laws;
pub mod sector;
pub mod texture;
pub mod world;
pub mod world_laws;

pub use crate::asset::header::ParseError;
