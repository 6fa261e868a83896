//! Structural errors of a table walk.

use vstd::prelude::*;

verus! {

/// Why a walk over the table stopped before an End-Of-Table structure.
#[derive(Clone, Copy, Debug, PartialEq, Eq, Structural)]
pub enum DecodeError {
    /// Fewer than four bytes were left for a header, or the header declared a
    /// length below four.
    MalformedHeader,
    /// The buffer ended before the string area showed a single terminator.
    TruncatedStrings,
}

} // verus!
