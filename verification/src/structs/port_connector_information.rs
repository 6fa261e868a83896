//! Port Connector Information (type 8).

use vstd::prelude::*;
use crate::structs::SMBiosStruct;
use crate::structure::{text_of, Structure, StructView};

verus! {

/// # Port Connector Information (Type 8)
///
/// The attributes of one port connector of the system (for example a
/// parallel, serial, keyboard or mouse port): the type of the port and its
/// connectors. A table holds one such structure for each port.
///
/// Compliant with:
/// DMTF SMBIOS Reference Specification 3.4.0 (DSP0134)
/// Document Date: 2020-07-17
#[derive(Clone, Copy, Debug)]
pub struct SMBiosPortConnectorInformation<'a> {
    parts: Structure<'a>,
}

impl<'a> SMBiosStruct<'a> for SMBiosPortConnectorInformation<'a> {
    open spec fn spec_struct_type() -> u8 {
        8
    }

    closed spec fn spec_parts(&self) -> Structure<'a> {
        self.parts
    }

    fn struct_type() -> (t: u8) {
        8
    }

    fn new(parts: Structure<'a>) -> (s: Self) {
        SMBiosPortConnectorInformation { parts }
    }

    fn parts(&self) -> (p: &Structure<'a>) {
        &self.parts
    }
}

impl<'a> View for SMBiosPortConnectorInformation<'a> {
    type V = StructView;

    open spec fn view(&self) -> StructView {
        self.spec_parts()@
    }
}

impl<'a> SMBiosPortConnectorInformation<'a> {
    /// Internal reference designator, that is, internal to the system
    /// enclosure.
    ///
    /// EXAMPLE: "J101"
    pub fn internal_reference_designator(&self) -> (r: Option<String>)
        ensures
            text_of(r) == self@.field_string(0x04),
    {
        self.parts.get_string_index(0x04)
    }

    /// Internal connector type.
    pub fn internal_connector_type(&self) -> (r: Option<u8>)
        ensures
            r == self@.field_byte(0x05),
    {
        self.parts.get_byte(0x05)
    }

    /// External reference designation, external to the system enclosure.
    ///
    /// EXAMPLE: "COM A"
    pub fn external_reference_designator(&self) -> (r: Option<String>)
        ensures
            text_of(r) == self@.field_string(0x06),
    {
        self.parts.get_string_index(0x06)
    }

    /// External connector type.
    pub fn external_connector_type(&self) -> (r: Option<u8>)
        ensures
            r == self@.field_byte(0x07),
    {
        self.parts.get_byte(0x07)
    }

    /// Describes the function of the port.
    pub fn port_type(&self) -> (r: Option<u8>)
        ensures
            r == self@.field_byte(0x08),
    {
        self.parts.get_byte(0x08)
    }
}

} // verus!
