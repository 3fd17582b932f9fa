//! Errors surfaced by separator recognition and number conversion.

use vstd::prelude::*;

verus! {

/// A recoverable failure of separator recognition or of the conversion step.
#[derive(Debug, Clone, Copy, PartialEq, Eq, Structural)]
pub enum ConversionError {
    /// The given text does not name one of the three separator glyphs.
    SeparatorNotFound,
    /// After separator stripping, the matched text still held a character
    /// that is not a decimal digit.
    MalformedNumber,
}

} // verus!
