//! The ways in which text or bytes can fail to be a radar view.

use vstd::prelude::*;

verus! {

/// Why a value could not be decoded or encoded.
#[derive(Debug, Clone, Copy, PartialEq, Eq, Structural)]
pub enum CodecError {
    /// The text, the bytes or the view has a length that the format excludes.
    InvalidLength,
    /// The text holds a character outside the 64-symbol alphabet.
    InvalidCharacter,
    /// A 2-bit wall field holds the value 3.
    InvalidWallState,
    /// A 4-bit cell field other than `1111` has the element bits `11`.
    InvalidElement,
}

} // verus!
