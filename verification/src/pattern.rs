//! Patterns: a string of category letters, one per position of the password.

use crate::category::PatternChar;
use vstd::prelude::*;
use vstd::string::StringExecFns;

verus! {

/// The category that a pattern letter stands for, in either case: `L` for
/// lowercase, `U` for uppercase, `N` for numeric, `S` for symbol. Other
/// characters stand for none.
pub open spec fn tag_of(c: char) -> Option<PatternChar> {
    if c == 'L' || c == 'l' {
        Some(PatternChar::Lowercase)
    } else if c == 'U' || c == 'u' {
        Some(PatternChar::Uppercase)
    } else if c == 'N' || c == 'n' {
        Some(PatternChar::Numeric)
    } else if c == 'S' || c == 's' {
        Some(PatternChar::Symbol)
    } else {
        None
    }
}

/// The message that names `c` as a character no pattern may hold.
pub open spec fn invalid_pattern_message(c: char) -> Seq<char> {
    "Invalid pattern character: '"@ + seq![c]
        + "'. Use L (lowercase), U (uppercase), N (numeric), S (symbol)"@
}

/// Whether position `k` of `pattern` holds the first character that is no
/// pattern letter.
pub open spec fn is_first_invalid(pattern: Seq<char>, k: int) -> bool {
    &&& 0 <= k < pattern.len()
    &&& tag_of(pattern[k]) is None
    &&& forall|j: int| 0 <= j < k ==> tag_of(#[trigger] pattern[j]) is Some
}

/// Reads one pattern letter.
pub fn parse_tag(c: char) -> (tag: Option<PatternChar>)
    ensures
        tag == tag_of(c),
{
    if c == 'L' || c == 'l' {
        Some(PatternChar::Lowercase)
    } else if c == 'U' || c == 'u' {
        Some(PatternChar::Uppercase)
    } else if c == 'N' || c == 'n' {
        Some(PatternChar::Numeric)
    } else if c == 'S' || c == 's' {
        Some(PatternChar::Symbol)
    } else {
        None
    }
}

/// Parses a pattern such as `LLLNNNSSS` into its tags, one per character and
/// in the same order. The first character that is no pattern letter is an
/// error, and the message names it. The empty string is the empty pattern.
pub fn parse_pattern(pattern: &str) -> (result: Result<Vec<PatternChar>, String>)
    ensures
        match result {
            Ok(tags) => {
                &&& tags@.len() == pattern@.len()
                &&& forall|i: int|
                    #![trigger tags@[i]]
                    #![trigger pattern@[i]]
                    0 <= i < pattern@.len() ==> tag_of(pattern@[i]) == Some(tags@[i])
            },
            Err(message) => exists|k: int|
                #[trigger] is_first_invalid(pattern@, k) && message@ == invalid_pattern_message(
                    pattern@[k],
                ),
        },
{
    broadcast use vstd::string::group_string_axioms;

    let mut result: Vec<PatternChar> = Vec::new();
    for c in it: pattern.chars()
        invariant
            it.seq() == pattern@,
            result@.len() == it.index(),
            forall|i: int|
                #![trigger result@[i]]
                #![trigger pattern@[i]]
                0 <= i < it.index() ==> tag_of(pattern@[i]) == Some(result@[i]),
    {
        match parse_tag(c) {
            Some(tag) => {
                result.push(tag);
            },
            None => {
                let mut message = String::from_str("Invalid pattern character: '");
                message.push(c);
                message.append("'. Use L (lowercase), U (uppercase), N (numeric), S (symbol)");
                proof {
                    assert(is_first_invalid(pattern@, it.index() as int));
                }
                return Err(message);
            },
        }
    }
    Ok(result)
}

} // verus!
