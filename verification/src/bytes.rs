//! Little-endian numbers in byte slices.

use vstd::prelude::*;

verus! {

/// The little-endian 16-bit number at `at`.
pub open spec fn le16(bytes: Seq<u8>, at: int) -> u16 {
    (bytes[at] + 256 * bytes[at + 1]) as u16
}

/// The little-endian 32-bit number at `at`.
pub open spec fn le32(bytes: Seq<u8>, at: int) -> u32 {
    (bytes[at] + 256 * bytes[at + 1] + 0x1_0000 * bytes[at + 2] + 0x100_0000 * bytes[at + 3])
        as u32
}

/// The bit pattern `x` read as a two's complement 16-bit number.
pub open spec fn signed16(x: int) -> i16 {
    if x < 0x8000 {
        x as i16
    } else {
        (x - 0x1_0000) as i16
    }
}

/// The bit pattern `x` read as a two's complement 32-bit number.
pub open spec fn signed32(x: int) -> i32 {
    if x < 0x8000_0000 {
        x as i32
    } else {
        (x - 0x1_0000_0000) as i32
    }
}

/// The signed little-endian 16-bit number at `at`.
pub open spec fn le_i16(bytes: Seq<u8>, at: int) -> i16 {
    signed16(le16(bytes, at) as int)
}

/// The signed little-endian 32-bit number at `at`.
pub open spec fn le_i32(bytes: Seq<u8>, at: int) -> i32 {
    signed32(le32(bytes, at) as int)
}

pub(crate) fn to_signed16(x: u16) -> (r: i16)
    ensures
        r == signed16(x as int),
{
    if x < 0x8000 {
        x as i16
    } else {
        (x as i32 - 0x1_0000) as i16
    }
}

pub(crate) fn to_signed32(x: u32) -> (r: i32)
    ensures
        r == signed32(x as int),
{
    if x < 0x8000_0000 {
        x as i32
    } else {
        (x as i64 - 0x1_0000_0000) as i32
    }
}

pub(crate) fn read_le16(bytes: &[u8], at: usize) -> (x: u16)
    requires
        at + 2 <= bytes@.len(),
    ensures
        x == le16(bytes@, at as int),
{
    bytes[at] as u16 + 256 * (bytes[at + 1] as u16)
}

pub(crate) fn read_le32(bytes: &[u8], at: usize) -> (x: u32)
    requires
        at + 4 <= bytes@.len(),
    ensures
        x == le32(bytes@, at as int),
{
    bytes[at] as u32 + 256 * (bytes[at + 1] as u32) + 0x1_0000 * (bytes[at + 2] as u32)
        + 0x100_0000 * (bytes[at + 3] as u32)
}

pub(crate) fn read_i16(bytes: &[u8], at: usize) -> (x: i16)
    requires
        at + 2 <= bytes@.len(),
    ensures
        x == le_i16(bytes@, at as int),
{
    to_signed16(read_le16(bytes, at))
}

pub(crate) fn read_i32(bytes: &[u8], at: usize) -> (x: i32)
    requires
        at + 4 <= bytes@.len(),
    ensures
        x == le_i32(bytes@, at as int),
{
    to_signed32(read_le32(bytes, at))
}

} // verus!
