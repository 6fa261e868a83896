//! Typed views of structures, one per structure type the library knows, and
//! the dispatch from a structure to its typed view.

use vstd::prelude::*;
use crate::structure::{Structure, StructView};

pub mod port_connector_information;
pub mod system_configuration_options;

pub use port_connector_information::SMBiosPortConnectorInformation;
pub use system_configuration_options::SMBiosSystemConfigurationOptions;

verus! {

/// A typed view of one structure type.
pub trait SMBiosStruct<'a>: Sized {
    /// The structure type that this view reads.
    spec fn spec_struct_type() -> u8;

    /// The structure that the view wraps.
    spec fn spec_parts(&self) -> Structure<'a>;

    /// The structure type that this view reads.
    fn struct_type() -> (t: u8)
        ensures
            t == Self::spec_struct_type(),
    ;

    /// Wraps `parts`. No field is read or checked here.
    fn new(parts: Structure<'a>) -> (s: Self)
        ensures
            s.spec_parts() == parts,
    ;

    /// The structure that the view wraps.
    fn parts(&self) -> (p: &Structure<'a>)
        ensures
            *p == self.spec_parts(),
    ;
}

/// A structure seen through the typed view that belongs to its structure
/// type, or as it is where the library knows no view for that type.
#[derive(Clone, Copy, Debug)]
pub enum DefinedStruct<'a> {
    /// Port Connector Information (type 8).
    PortConnectorInformation(SMBiosPortConnectorInformation<'a>),
    /// System Configuration Options (type 12).
    SystemConfigurationOptions(SMBiosSystemConfigurationOptions<'a>),
    /// A structure of any other type, vendor-defined ones included.
    Undefined(Structure<'a>),
}

impl<'a> DefinedStruct<'a> {
    /// The structure behind the view.
    pub open spec fn spec_parts(&self) -> Structure<'a> {
        match *self {
            DefinedStruct::PortConnectorInformation(s) => s.spec_parts(),
            DefinedStruct::SystemConfigurationOptions(s) => s.spec_parts(),
            DefinedStruct::Undefined(s) => s,
        }
    }

    /// Whether the view is the one that belongs to the structure's type.
    pub open spec fn well_typed(&self) -> bool {
        let structure_type = self.spec_parts()@.header.structure_type;
        &&& *self is PortConnectorInformation <==> structure_type
            == SMBiosPortConnectorInformation::spec_struct_type()
        &&& *self is SystemConfigurationOptions <==> structure_type
            == SMBiosSystemConfigurationOptions::spec_struct_type()
    }

    /// The structure behind the view.
    pub fn parts(&self) -> (p: &Structure<'a>)
        ensures
            *p == self.spec_parts(),
    {
        match self {
            DefinedStruct::PortConnectorInformation(s) => s.parts(),
            DefinedStruct::SystemConfigurationOptions(s) => s.parts(),
            DefinedStruct::Undefined(s) => s,
        }
    }
}

impl<'a> View for DefinedStruct<'a> {
    type V = StructView;

    open spec fn view(&self) -> StructView {
        self.spec_parts()@
    }
}

/// Picks the typed view for a structure by its type byte alone. A type
/// without a view of its own gets the undefined view, so dispatch never fails;
/// no field is read or checked here.
pub fn dispatch<'a>(parts: Structure<'a>) -> (d: DefinedStruct<'a>)
    ensures
        d.spec_parts() == parts,
        d.well_typed(),
{
    let structure_type: u8 = parts.header().structure_type;
    if structure_type == SMBiosPortConnectorInformation::struct_type() {
        DefinedStruct::PortConnectorInformation(SMBiosPortConnectorInformation::new(parts))
    } else if structure_type == SMBiosSystemConfigurationOptions::struct_type() {
        DefinedStruct::SystemConfigurationOptions(SMBiosSystemConfigurationOptions::new(parts))
    } else {
        DefinedStruct::Undefined(parts)
    }
}

} // verus!
