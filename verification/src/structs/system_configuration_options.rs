//! System Configuration Options (type 12).

use vstd::prelude::*;
use crate::strings::StringTable;
use crate::structs::SMBiosStruct;
use crate::structure::{Structure, StructView};

verus! {

/// # System Configuration Options (Type 12)
///
/// What is needed to configure the jumpers and switches of the baseboard.
///
/// Compliant with:
/// DMTF SMBIOS Reference Specification 3.4.0 (DSP0134)
/// Document Date: 2020-07-17
#[derive(Clone, Copy, Debug)]
pub struct SMBiosSystemConfigurationOptions<'a> {
    parts: Structure<'a>,
}

impl<'a> SMBiosStruct<'a> for SMBiosSystemConfigurationOptions<'a> {
    open spec fn spec_struct_type() -> u8 {
        12
    }

    closed spec fn spec_parts(&self) -> Structure<'a> {
        self.parts
    }

    fn struct_type() -> (t: u8) {
        12
    }

    fn new(parts: Structure<'a>) -> (s: Self) {
        SMBiosSystemConfigurationOptions { parts }
    }

    fn parts(&self) -> (p: &Structure<'a>) {
        &self.parts
    }
}

impl<'a> View for SMBiosSystemConfigurationOptions<'a> {
    type V = StructView;

    open spec fn view(&self) -> StructView {
        self.spec_parts()@
    }
}

impl<'a> SMBiosSystemConfigurationOptions<'a> {
    /// Number of strings.
    pub fn count(&self) -> (r: Option<u8>)
        ensures
            r == self@.field_byte(0x04),
    {
        self.parts.get_byte(0x04)
    }

    /// The configuration strings, in order.
    ///
    /// EXAMPLES:
    /// "JP2: 1-2 Cache Size is 256K, 2-3 Cache Size is 512K"
    /// "SW1-1: Close to Disable On Board Video"
    pub fn configuration_strings(&self) -> (r: &StringTable<'a>)
        ensures
            r@ == self@.strings,
    {
        self.parts.strings()
    }
}

} // verus!
