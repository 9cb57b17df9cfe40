//! The error taxonomy for identifier validation.
//!
//! The variants are mutually exclusive: parsing is a straight-line pipeline
//! and the first failing step decides which error comes back.

use vstd::prelude::*;

verus! {

/// Why a candidate identifier was rejected.
#[derive(Debug, Clone, Copy, PartialEq, Eq, Structural)]
pub enum IdError {
    /// A character (after normalization) is not a member of the check alphabet.
    InvalidCharacter,
    /// The normalized input is too short to hold a body and a check character.
    TooShort,
    /// The trailing check character does not match the checksum of the body,
    /// or the checksum arithmetic cannot be performed safely.
    InvalidCheckBit,
}

impl IdError {
    /// A human-readable description of the error.
    pub fn message(&self) -> (r: &'static str)
        ensures
            *self is InvalidCharacter ==> r@ == "Invalid character in ID"@,
            *self is TooShort ==> r@ == "ID length too short, minimum 3 characters"@,
            *self is InvalidCheckBit ==> r@ == "Invalid check bit"@,
    {
        match self {
            IdError::InvalidCharacter => "Invalid character in ID",
            IdError::TooShort => "ID length too short, minimum 3 characters",
            IdError::InvalidCheckBit => "Invalid check bit",
        }
    }
}

} // verus!
