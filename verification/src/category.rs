//! The four character categories and how a byte or a character falls into one.

use vstd::prelude::*;

verus! {

/// The first lowercase letter, `a`.
pub const ASCII_LOWERCASE_START: u8 = 97;

/// The last lowercase letter, `z`.
pub const ASCII_LOWERCASE_END: u8 = 122;

/// The first uppercase letter, `A`.
pub const ASCII_UPPERCASE_START: u8 = 65;

/// The last uppercase letter, `Z`.
pub const ASCII_UPPERCASE_END: u8 = 90;

/// The first digit, `0`.
pub const ASCII_NUMERAL_START: u8 = 48;

/// The last digit, `9`.
pub const ASCII_NUMERAL_END: u8 = 57;

/// A character category. It tags one position of a pattern, and it classifies
/// every byte of an alphabet: `Symbol` is whatever is not a lowercase letter,
/// an uppercase letter or a digit.
#[derive(Debug, Clone, Copy, PartialEq, Eq, Structural)]
pub enum PatternChar {
    /// The letters `a` to `z`.
    Lowercase,
    /// The letters `A` to `Z`.
    Uppercase,
    /// The digits `0` to `9`.
    Numeric,
    /// Every other byte.
    Symbol,
}

impl PatternChar {
    /// The category of the code point `code`.
    pub open spec fn of_code(code: int) -> PatternChar {
        if ASCII_LOWERCASE_START <= code <= ASCII_LOWERCASE_END {
            PatternChar::Lowercase
        } else if ASCII_UPPERCASE_START <= code <= ASCII_UPPERCASE_END {
            PatternChar::Uppercase
        } else if ASCII_NUMERAL_START <= code <= ASCII_NUMERAL_END {
            PatternChar::Numeric
        } else {
            PatternChar::Symbol
        }
    }

    /// The category of the byte `b`.
    pub open spec fn of_byte(b: u8) -> PatternChar {
        Self::of_code(b as int)
    }

    /// The category of the character `c`.
    pub open spec fn of_char(c: char) -> PatternChar {
        Self::of_code(c as int)
    }

    /// Classifies a byte by its value.
    pub fn classify(b: u8) -> (category: PatternChar)
        ensures
            category == Self::of_byte(b),
    {
        if ASCII_LOWERCASE_START <= b && b <= ASCII_LOWERCASE_END {
            PatternChar::Lowercase
        } else if ASCII_UPPERCASE_START <= b && b <= ASCII_UPPERCASE_END {
            PatternChar::Uppercase
        } else if ASCII_NUMERAL_START <= b && b <= ASCII_NUMERAL_END {
            PatternChar::Numeric
        } else {
            PatternChar::Symbol
        }
    }
}

/// The characters that the bytes of `alphabet` stand for, in the same order.
pub open spec fn alphabet_chars(alphabet: Seq<u8>) -> Seq<char> {
    alphabet.map_values(|b: u8| b as char)
}

/// Whether `alphabet` holds at least one byte of category `category`.
pub open spec fn has_category(alphabet: Seq<u8>, category: PatternChar) -> bool {
    exists|i: int|
        0 <= i < alphabet.len() && PatternChar::of_byte(#[trigger] alphabet[i]) == category
}

} // verus!
