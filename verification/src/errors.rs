//! Error values surfaced by the document core. I/O failures belong to the
//! host layer; the core itself reports only decode, boundary and replace
//! conditions, and no operation leaves a document partially mutated.
use vstd::prelude::*;

verus! {

/// Raw content handed to a load was not valid UTF-8 text; the document is
/// not created.
#[derive(Clone, Copy, Debug, PartialEq, Eq, Structural)]
pub struct DecodeError;

/// A mutation range did not fall on character boundaries, was inverted, or
/// reached past the end of the content.
#[derive(Clone, Copy, Debug, PartialEq, Eq, Structural)]
pub struct BoundaryError;

/// Why a replace request was refused; the content is left untouched.
#[derive(Clone, Copy, Debug, PartialEq, Eq, Structural)]
pub enum ReplaceError {
    /// No selection is active.
    NoSelection,
    /// The selected slice of the content does not equal the search text.
    Mismatch,
}

} // verus!
