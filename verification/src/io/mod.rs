//! The disc drive and the sound unit.

pub mod cdda;
pub mod cdrom;
pub mod disc_base;
pub mod laws;
pub mod polled;
pub mod polled_laws;
pub mod spu;
