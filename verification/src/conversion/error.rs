//! Why a value could not be converted.

use vstd::prelude::*;

verus! {

/// Why a value could not be converted.
#[derive(Debug, Clone, Copy, PartialEq, Eq, Structural)]
pub enum ConvError {
    /// The value does not fit the target.
    OutOfRange,
    /// The text is not a value of the target type.
    InvalidCharacterValue,
    /// The conversion is not one the type matrix allows.
    Restricted,
    /// Another conversion path owns this pair of types.
    NotHandledHere,
}

} // verus!
