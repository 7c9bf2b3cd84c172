//! The header shared by all cooked blobs, and tables cut out of a blob.

use vstd::prelude::*;

use crate::bytes::{le16, le32, read_le16, read_le32};

verus! {

/// What can be wrong with a blob.
#[derive(Clone, Copy, Debug, PartialEq, Eq, Structural)]
pub enum ParseError {
    /// The blob is shorter than its headers.
    Truncated,
    /// The magic is that of another kind of asset.
    WrongMagic,
    /// The version is not one that the parser reads.
    UnsupportedVersion(u16),
    /// The declared payload length disagrees with the length of the blob.
    InvalidPayloadLen {
        /// Payload length in the header.
        declared: u32,
        /// Bytes after the header.
        actual: usize,
    },
    /// A table does not fit into what is left of the blob.
    TableOverflow,
    /// Inconsistent world header or tables.
    InvalidWorldLayout,
    /// Inconsistent model header or tables.
    InvalidModelLayout,
    /// Inconsistent animation header or tables.
    InvalidAnimationLayout,
    /// Inconsistent audio header.
    InvalidAudioLayout,
}

/// Bytes in the common header.
pub const HEADER_SIZE: usize = 12;

/// A parse result, with the parsed value taken by its view.
pub open spec fn viewed<T: View>(result: Result<T, ParseError>) -> Result<T::V, ParseError> {
    match result {
        Ok(value) => Ok(value@),
        Err(error) => Err(error),
    }
}

/// The version number of a blob.
pub open spec fn version_of(bytes: Seq<u8>) -> u16 {
    le16(bytes, 4)
}

/// The feature flags of a blob.
pub open spec fn flags_of(bytes: Seq<u8>) -> u16 {
    le16(bytes, 6)
}

/// What is wrong with a blob before its version is looked at.
pub open spec fn magic_fault(bytes: Seq<u8>, magic: Seq<u8>) -> Option<ParseError> {
    if bytes.len() < HEADER_SIZE {
        Some(ParseError::Truncated)
    } else if bytes.subrange(0, 4) != magic {
        Some(ParseError::WrongMagic)
    } else {
        None
    }
}

/// What is wrong with the payload of a blob whose own header takes `size`
/// bytes of it.
pub open spec fn payload_fault(bytes: Seq<u8>, size: int) -> Option<ParseError> {
    let actual = bytes.len() - HEADER_SIZE;
    if le32(bytes, 8) != actual {
        Some(ParseError::InvalidPayloadLen { declared: le32(bytes, 8), actual: actual as usize })
    } else if actual < size {
        Some(ParseError::Truncated)
    } else {
        None
    }
}

/// Check the magic; on success return the version.
pub(crate) fn check_magic(bytes: &[u8], magic: &[u8; 4]) -> (result: Result<u16, ParseError>)
    ensures
        match result {
            Ok(version) => magic_fault(bytes@, magic@) is None && version == version_of(bytes@),
            Err(error) => magic_fault(bytes@, magic@) == Some(error),
        },
{
    if bytes.len() < HEADER_SIZE {
        return Err(ParseError::Truncated);
    }
    let same: bool = bytes[0] == magic[0] && bytes[1] == magic[1] && bytes[2] == magic[2]
        && bytes[3] == magic[3];
    proof {
        let opening = bytes@.subrange(0, 4);
        assert(opening[0] == bytes@[0] && opening[1] == bytes@[1] && opening[2] == bytes@[2]
            && opening[3] == bytes@[3]);
        if same {
            assert(opening =~= magic@);
        }
    }
    if !same {
        return Err(ParseError::WrongMagic);
    }
    Ok(read_le16(bytes, 4))
}

/// Check the payload length against the blob and against `size`.
pub(crate) fn check_payload(bytes: &[u8], size: usize) -> (result: Result<(), ParseError>)
    requires
        HEADER_SIZE <= bytes@.len(),
    ensures
        match result {
            Ok(_) => payload_fault(bytes@, size as int) is None,
            Err(error) => payload_fault(bytes@, size as int) == Some(error),
        },
{
    let declared: u32 = read_le32(bytes, 8);
    let actual: usize = bytes.len() - HEADER_SIZE;
    if declared as u64 != actual as u64 {
        return Err(ParseError::InvalidPayloadLen { declared, actual });
    }
    if actual < size {
        return Err(ParseError::Truncated);
    }
    Ok(())
}

/// Whether `len` bytes can be taken at `offset`.
pub open spec fn table_fits(bytes: Seq<u8>, offset: int, len: int) -> bool {
    offset + len <= bytes.len()
}

/// Cut the next `len` bytes out of a blob and move past them.
pub(crate) fn take_table<'a>(bytes: &'a [u8], offset: &mut usize, len: usize) -> (table: Result<
    &'a [u8],
    ParseError,
>)
    requires
        *old(offset) <= bytes@.len(),
    ensures
        match table {
            Ok(table) => {
                &&& table_fits(bytes@, *old(offset) as int, len as int)
                &&& table@ == bytes@.subrange(*old(offset) as int, *old(offset) + len)
                &&& *final(offset) == *old(offset) + len
            },
            Err(error) => {
                &&& !table_fits(bytes@, *old(offset) as int, len as int)
                &&& error == ParseError::TableOverflow
            },
        },
{
    let left: usize = bytes.len() - *offset;
    if len > left {
        return Err(ParseError::TableOverflow);
    }
    let end: usize = *offset + len;
    let table: &'a [u8] = &bytes[*offset..end];
    *offset = end;
    Ok(table)
}

} // verus!
