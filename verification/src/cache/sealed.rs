use vstd::prelude::*;

verus! {

/// Marker that keeps the set of cache payload types closed.
pub trait Sealed {

}

} // verus!
