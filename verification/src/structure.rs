//! One structure of the table and the readers for its fields.

use vstd::prelude::*;
use crate::header::Header;
use crate::strings::{latin1, StringTable};

verus! {

/// The number that `bytes` spell in little-endian order.
pub open spec fn le_value(bytes: Seq<u8>) -> nat
    decreases bytes.len(),
{
    if bytes.len() == 0 {
        0
    } else {
        bytes[0] as nat + 256 * le_value(bytes.skip(1))
    }
}

/// What a structure is, apart from where its bytes live.
pub struct StructView {
    /// The decoded header.
    pub header: Header,
    /// The bytes of the formatted area, header included.
    pub bytes: Seq<u8>,
    /// The strings behind the formatted area, in order.
    pub strings: Seq<Seq<u8>>,
}

impl StructView {
    /// The `width` bytes of the field at `offset`. A field is there only if it
    /// ends within the length that the header declares and within the bytes
    /// at hand.
    pub open spec fn field(self, offset: int, width: int) -> Option<Seq<u8>> {
        if 0 <= offset && 0 <= width && offset + width <= self.header.length && offset + width
            <= self.bytes.len() {
            Some(self.bytes.subrange(offset, offset + width))
        } else {
            None
        }
    }

    /// The byte at `offset`.
    pub open spec fn field_byte(self, offset: int) -> Option<u8> {
        match self.field(offset, 1) {
            Some(b) => Some(b[0]),
            None => None,
        }
    }

    /// The little-endian 16-bit value at `offset`.
    pub open spec fn field_word(self, offset: int) -> Option<u16> {
        match self.field(offset, 2) {
            Some(b) => Some(le_value(b) as u16),
            None => None,
        }
    }

    /// The little-endian 32-bit value at `offset`.
    pub open spec fn field_dword(self, offset: int) -> Option<u32> {
        match self.field(offset, 4) {
            Some(b) => Some(le_value(b) as u32),
            None => None,
        }
    }

    /// The little-endian 64-bit value at `offset`.
    pub open spec fn field_qword(self, offset: int) -> Option<u64> {
        match self.field(offset, 8) {
            Some(b) => Some(le_value(b) as u64),
            None => None,
        }
    }

    /// The string that a 1-based index resolves to: none for index 0 and for
    /// an index beyond the last string.
    pub open spec fn string(self, index: int) -> Option<Seq<char>> {
        if 1 <= index <= self.strings.len() {
            Some(latin1(self.strings[index - 1]))
        } else {
            None
        }
    }

    /// The string that the index byte at `offset` refers to.
    pub open spec fn field_string(self, offset: int) -> Option<Seq<char>> {
        match self.field_byte(offset) {
            Some(index) => self.string(index as int),
            None => None,
        }
    }

    /// Whether the formatted area is as long as the header declares and
    /// starts with that header.
    pub open spec fn wf(self) -> bool {
        &&& self.header.length >= 4
        &&& self.bytes.len() == self.header.length
        &&& self.bytes[0] == self.header.structure_type
        &&& self.bytes[1] == self.header.length
        &&& self.bytes[2] as int + 256 * self.bytes[3] as int == self.header.handle
    }
}

/// The text of an optional string.
pub open spec fn text_of(s: Option<String>) -> Option<Seq<char>> {
    match s {
        Some(text) => Some(text@),
        None => None,
    }
}

/// A structure borrowed from the table's buffer: its header, the bytes of its
/// formatted area and its strings.
#[derive(Clone, Copy, Debug)]
pub struct Structure<'a> {
    header: Header,
    bytes: &'a [u8],
    strings: StringTable<'a>,
}

impl<'a> View for Structure<'a> {
    type V = StructView;

    closed spec fn view(&self) -> StructView {
        StructView { header: self.header, bytes: self.bytes@, strings: self.strings@ }
    }
}

impl<'a> Structure<'a> {
    /// A structure from its parts. `bytes` is the formatted area, header
    /// included.
    pub fn new(header: Header, bytes: &'a [u8], strings: StringTable<'a>) -> (s: Self)
        ensures
            s@ == (StructView { header, bytes: bytes@, strings: strings@ }),
    {
        Structure { header, bytes, strings }
    }

    /// The header.
    pub fn header(&self) -> (h: Header)
        ensures
            h == self@.header,
    {
        self.header
    }

    /// The raw bytes of the formatted area, header included.
    pub fn bytes(&self) -> (b: &'a [u8])
        ensures
            b@ == self@.bytes,
    {
        self.bytes
    }

    /// The strings of the structure.
    pub fn strings(&self) -> (t: &StringTable<'a>)
        ensures
            t@ == self@.strings,
    {
        &self.strings
    }

    /// The `width` bytes of the field at `offset`, or `None` where the field
    /// ends beyond the declared length or beyond the bytes at hand.
    pub fn get_field(&self, offset: usize, width: usize) -> (r: Option<&'a [u8]>)
        ensures
            match r {
                Some(b) => self@.field(offset as int, width as int) == Some(b@),
                None => self@.field(offset as int, width as int) is None,
            },
    {
        let declared: usize = self.header.length as usize;
        let limit: usize = if declared <= self.bytes.len() {
            declared
        } else {
            self.bytes.len()
        };
        if width <= limit && offset <= limit - width {
            Some(&self.bytes[offset..offset + width])
        } else {
            None
        }
    }

    /// The byte at `offset`, or `None` where the field is absent.
    pub fn get_byte(&self, offset: usize) -> (r: Option<u8>)
        ensures
            r == self@.field_byte(offset as int),
            offset >= self@.header.length ==> r is None,
    {
        match self.get_field(offset, 1) {
            Some(b) => Some(b[0]),
            None => None,
        }
    }

    /// The little-endian 16-bit value at `offset`, or `None` where the field
    /// is absent.
    pub fn get_word(&self, offset: usize) -> (r: Option<u16>)
        ensures
            r == self@.field_word(offset as int),
    {
        match self.get_field(offset, 2) {
            Some(b) => {
                proof {
                    reveal_with_fuel(le_value, 3);
                }
                Some(b[0] as u16 + 256 * (b[1] as u16))
            },
            None => None,
        }
    }

    /// The little-endian 32-bit value at `offset`, or `None` where the field
    /// is absent.
    pub fn get_dword(&self, offset: usize) -> (r: Option<u32>)
        ensures
            r == self@.field_dword(offset as int),
    {
        match self.get_field(offset, 4) {
            Some(b) => {
                proof {
                    reveal_with_fuel(le_value, 5);
                }
                Some(
                    b[0] as u32 + 256 * (b[1] as u32 + 256 * (b[2] as u32 + 256 * (b[3] as u32))),
                )
            },
            None => None,
        }
    }

    /// The little-endian 64-bit value at `offset`, or `None` where the field
    /// is absent.
    pub fn get_qword(&self, offset: usize) -> (r: Option<u64>)
        ensures
            r == self@.field_qword(offset as int),
    {
        match self.get_field(offset, 8) {
            Some(b) => {
                proof {
                    reveal_with_fuel(le_value, 9);
                }
                let high: u64 = b[4] as u64 + 256 * (b[5] as u64 + 256 * (b[6] as u64 + 256 * (
                b[7] as u64)));
                let low: u64 = b[0] as u64 + 256 * (b[1] as u64 + 256 * (b[2] as u64 + 256 * (
                b[3] as u64)));
                Some(low + 0x1_0000_0000 * high)
            },
            None => None,
        }
    }

    /// The string that the index byte at `offset` refers to. `None` where the
    /// byte is absent, where it is 0, and where it is beyond the last string.
    pub fn get_string_index(&self, offset: usize) -> (r: Option<String>)
        ensures
            text_of(r) == self@.field_string(offset as int),
            self@.field_byte(offset as int) is None ==> r is None,
            self@.field_byte(offset as int) == Some(0u8) ==> r is None,
            self@.field_byte(offset as int) matches Some(index) && index > self@.strings.len()
                ==> r is None,
    {
        match self.get_byte(offset) {
            Some(index) => self.strings.get(index),
            None => None,
        }
    }
}

} // verus!
