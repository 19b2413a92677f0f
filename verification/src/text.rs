//! Characters and strings: what the library adds to the specifications that
//! come with the verifier's standard library.

use vstd::prelude::*;

verus! {

/// The code point of a character.
pub fn code_point(c: char) -> (code: u32)
    ensures
        code as int == c as int,
{
    c as u32
}

/// Trusted: `String::push` appends the character to the end of the string and
/// changes nothing else of it.
pub assume_specification[ String::push ](text: &mut String, ch: char)
    ensures
        final(text)@ == old(text)@.push(ch),
;

} // verus!
