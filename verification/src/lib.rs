//! Decoder for the SMBIOS/DMI structure table.
//!
//! A table is one contiguous byte buffer holding a run of structures. Each
//! structure is a four byte header, a formatted area whose size the header
//! declares, and a string area of NUL-terminated runs closed by one more NUL.
//! The decoder walks the buffer, borrows every structure out of it and offers
//! bounds-safe readers for the fields of the formatted area.

//!
//! `Table::decode` is the entry point. The modules follow the data: `header`
//! reads the header, `strings` the string area, `structure` holds one
//! structure and its field readers, `structs` the typed views and their
//! dispatch, `table` the walk, and `encoding` states what decoding makes of
//! canonically encoded structures.

pub mod encoding;
pub mod error;
pub mod header;
pub mod strings;
pub mod structs;
pub mod structure;
pub mod table;

pub use error::DecodeError;
pub use header::{parse_header, Header, END_OF_TABLE, HEADER_SIZE};
pub use strings::{decode_string_area, latin1_string, StringTable};
pub use structs::{
    dispatch, DefinedStruct, SMBiosPortConnectorInformation, SMBiosStruct,
    SMBiosSystemConfigurationOptions,
};
pub use structure::Structure;
pub use table::{decode_structure, step, SMBiosVersion, Table, WalkState, WalkStatus};
