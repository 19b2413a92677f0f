//! The errors a generation request can be rejected with.

use vstd::prelude::*;
use vstd::string::StringExecFns;

verus! {

/// Why a generation request was rejected before any password was produced.
#[derive(Debug, Clone, Copy, PartialEq, Eq, Structural)]
pub enum PasswordError {
    /// The requested length is zero.
    InvalidLength,
    /// The requested length is above the ceiling of 10,000 characters.
    InvalidLengthTooLong,
    /// The requested number of passwords is zero.
    InvalidCount,
    /// No character is left in the alphabet.
    EmptyCharacterSet,
    /// Capitals, numerals and symbols are all switched off and nothing is left
    /// of the lowercase letters either.
    AllTypesDisabled,
}

impl PasswordError {
    /// The text shown to the user for this error.
    pub open spec fn message_text(self) -> Seq<char> {
        match self {
            PasswordError::InvalidLength => "Error: Password length must be greater than 0."@,
            PasswordError::InvalidLengthTooLong =>
                "Error: Password length exceeds maximum of 10,000 characters."@,
            PasswordError::InvalidCount => "Error: Password count must be greater than 0."@,
            PasswordError::EmptyCharacterSet =>
                "Error: All characters have been excluded or disabled. Cannot generate passwords.\nHint: Try removing some character exclusions or enabling character types."@,
            PasswordError::AllTypesDisabled =>
                "Error: All character types are disabled and/or all remaining characters are excluded.\nHint: At least one character type must be enabled. Try removing --capitals-off, --numerals-off, or --symbols-off."@,
        }
    }

    /// Renders the error as the message shown to the user.
    pub fn message(&self) -> (text: String)
        ensures
            text@ == self.message_text(),
    {
        match self {
            PasswordError::InvalidLength => String::from_str(
                "Error: Password length must be greater than 0.",
            ),
            PasswordError::InvalidLengthTooLong => String::from_str(
                "Error: Password length exceeds maximum of 10,000 characters.",
            ),
            PasswordError::InvalidCount => String::from_str(
                "Error: Password count must be greater than 0.",
            ),
            PasswordError::EmptyCharacterSet => String::from_str(
                "Error: All characters have been excluded or disabled. Cannot generate passwords.\nHint: Try removing some character exclusions or enabling character types.",
            ),
            PasswordError::AllTypesDisabled => String::from_str(
                "Error: All character types are disabled and/or all remaining characters are excluded.\nHint: At least one character type must be enabled. Try removing --capitals-off, --numerals-off, or --symbols-off.",
            ),
        }
    }
}

} // verus!
