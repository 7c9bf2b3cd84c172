//! Fixed-capacity cache metadata and byte storage without a heap.
//!
//! - [`table::SlotTable`] owns cache identity, asynchronous load state, pinning
//!   and the choice of the least recently used entry. A load completes through
//!   an opaque [`table::Reservation`], so a late completion cannot publish into
//!   a slot that has been cancelled and reused.
//! - [`arena::FixedByteArena`] owns bytes in caller-selected fixed storage. Its
//!   handles are generation checked, and explicit compaction reports a layout
//!   generation for invalidating derived views.

pub mod arena;
pub mod arena_histories;
pub mod arena_laws;
pub mod generation;
pub mod table;
pub mod table_histories;
pub mod table_laws;
pub mod value;

mod sealed;
