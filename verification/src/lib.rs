use vstd::prelude::*;

pub mod asset;
pub mod bytes;
pub mod cache;
pub mod fixed;
pub mod fmv;
pub mod font;
pub mod fx;
pub mod gpu;
pub mod gte;
pub mod io;
pub mod written;

verus! {

} // verus!
