use vstd::prelude::*;
use crate::cache::sealed::Sealed;

verus! {

/// A cache payload whose empty representation is all zeroes.
///
/// The trait is sealed, so a table of empty slots holds nothing but zero
/// payloads. Arrays of the supported primitive types can hold larger
/// caller-defined metadata without giving the table ownership of the
/// underlying RAM or VRAM resource.
pub trait CacheValue: Sealed + Copy {
    /// The all-zero empty value.
    spec fn zero_value() -> Self;

    /// Returns the all-zero empty value.
    fn zero() -> (z: Self)
        ensures
            z == Self::zero_value(),
    ;
}

impl Sealed for u8 {

}

impl CacheValue for u8 {
    open spec fn zero_value() -> Self {
        0
    }

    fn zero() -> (z: Self) {
        0
    }
}

impl Sealed for u16 {

}

impl CacheValue for u16 {
    open spec fn zero_value() -> Self {
        0
    }

    fn zero() -> (z: Self) {
        0
    }
}

impl Sealed for u32 {

}

impl CacheValue for u32 {
    open spec fn zero_value() -> Self {
        0
    }

    fn zero() -> (z: Self) {
        0
    }
}

impl Sealed for u64 {

}

impl CacheValue for u64 {
    open spec fn zero_value() -> Self {
        0
    }

    fn zero() -> (z: Self) {
        0
    }
}

impl Sealed for usize {

}

impl CacheValue for usize {
    open spec fn zero_value() -> Self {
        0
    }

    fn zero() -> (z: Self) {
        0
    }
}

impl Sealed for i8 {

}

impl CacheValue for i8 {
    open spec fn zero_value() -> Self {
        0
    }

    fn zero() -> (z: Self) {
        0
    }
}

impl Sealed for i16 {

}

impl CacheValue for i16 {
    open spec fn zero_value() -> Self {
        0
    }

    fn zero() -> (z: Self) {
        0
    }
}

impl Sealed for i32 {

}

impl CacheValue for i32 {
    open spec fn zero_value() -> Self {
        0
    }

    fn zero() -> (z: Self) {
        0
    }
}

impl Sealed for i64 {

}

impl CacheValue for i64 {
    open spec fn zero_value() -> Self {
        0
    }

    fn zero() -> (z: Self) {
        0
    }
}

impl Sealed for isize {

}

impl CacheValue for isize {
    open spec fn zero_value() -> Self {
        0
    }

    fn zero() -> (z: Self) {
        0
    }
}

impl<T: CacheValue, const N: usize> Sealed for [T; N] {

}

impl<T: CacheValue, const N: usize> CacheValue for [T; N] {
    open spec fn zero_value() -> Self {
        [T::zero_value(); N]
    }

    fn zero() -> (z: Self) {
        [T::zero(); N]
    }
}

} // verus!
