//! GPU command words, primitive packets and the order in which they are sent.

pub mod framebuf;
pub mod material;
pub mod ordered;
pub mod ot;
pub mod ot_laws;
pub mod prim;
pub mod prim_laws;
pub mod staged_windows;
pub mod windows;
pub mod words;
pub mod words_laws;
