//! The four byte header in front of every structure.

use vstd::prelude::*;
use crate::error::DecodeError;

verus! {

/// Size of a structure header in bytes; also the least length a header may declare.
pub const HEADER_SIZE: usize = 4;

/// Structure type of the End-Of-Table marker.
pub const END_OF_TABLE: u8 = 127;

/// A decoded structure header.
#[derive(Clone, Copy, Debug, PartialEq, Eq, Structural)]
pub struct Header {
    /// Structure type (byte 0).
    pub structure_type: u8,
    /// Size of the formatted area, header included (byte 1).
    pub length: u8,
    /// Handle of the structure (bytes 2 and 3, little-endian).
    pub handle: u16,
}

/// The header that `buf` holds at `offset`, if four bytes are there and the
/// declared length is at least four.
pub open spec fn spec_parse_header(buf: Seq<u8>, offset: int) -> Result<Header, DecodeError> {
    if offset < 0 || offset + 4 > buf.len() || buf[offset + 1] < 4 {
        Err(DecodeError::MalformedHeader)
    } else {
        Ok(
            Header {
                structure_type: buf[offset],
                length: buf[offset + 1],
                handle: (buf[offset + 2] + 256 * buf[offset + 3]) as u16,
            },
        )
    }
}

impl Header {
    /// Whether this header opens the End-Of-Table marker.
    pub open spec fn spec_is_end_of_table(&self) -> bool {
        self.structure_type == END_OF_TABLE
    }

    /// Whether this header opens the End-Of-Table marker.
    #[verifier::when_used_as_spec(spec_is_end_of_table)]
    pub fn is_end_of_table(&self) -> (r: bool)
        ensures
            r == self.spec_is_end_of_table(),
    {
        self.structure_type == END_OF_TABLE
    }
}

/// Reads the header at `offset`.
pub fn parse_header(buf: &[u8], offset: usize) -> (r: Result<Header, DecodeError>)
    ensures
        r == spec_parse_header(buf@, offset as int),
{
    if buf.len() < HEADER_SIZE || offset > buf.len() - HEADER_SIZE {
        return Err(DecodeError::MalformedHeader);
    }
    let length: u8 = buf[offset + 1];
    if length < 4 {
        return Err(DecodeError::MalformedHeader);
    }
    let low: u16 = buf[offset + 2] as u16;
    let high: u16 = buf[offset + 3] as u16;
    Ok(Header { structure_type: buf[offset], length, handle: low + 256 * high })
}

} // verus!
