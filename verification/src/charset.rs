//! The request and the alphabet that follows from it: the bytes that a
//! password may be drawn from, after inclusions and exclusions.

use crate::category::{
    PatternChar, ASCII_LOWERCASE_END, ASCII_LOWERCASE_START, ASCII_NUMERAL_END,
    ASCII_NUMERAL_START, ASCII_UPPERCASE_END, ASCII_UPPERCASE_START,
};
use crate::error::PasswordError;
use crate::pool::byte_range;
use crate::text::code_point;
use std::collections::HashSet;
use vstd::prelude::*;

verus! {

/// The first byte of the symbols that precede the digits, `!`.
pub const ASCII_SYMBOL_RANGE_1_START: u8 = 33;

/// The last byte of the symbols that precede the digits, `/`.
pub const ASCII_SYMBOL_RANGE_1_END: u8 = 47;

/// The first byte of the symbols between digits and uppercase letters, `:`.
pub const ASCII_SYMBOL_RANGE_2_START: u8 = 58;

/// The last byte of the symbols between digits and uppercase letters, `@`.
pub const ASCII_SYMBOL_RANGE_2_END: u8 = 64;

/// The first byte of the symbols between uppercase and lowercase letters, `[`.
pub const ASCII_SYMBOL_RANGE_3_START: u8 = 91;

/// The last byte of the symbols between uppercase and lowercase letters, `` ` ``.
pub const ASCII_SYMBOL_RANGE_3_END: u8 = 96;

/// The first byte of the symbols that follow the lowercase letters, `{`.
pub const ASCII_SYMBOL_RANGE_4_START: u8 = 123;

/// The last byte of the symbols that follow the lowercase letters, `~`.
pub const ASCII_SYMBOL_RANGE_4_END: u8 = 126;

/// A generation request.
pub struct PasswordArgs {
    /// Leaves the uppercase letters out of the alphabet.
    pub capitals_off: bool,
    /// Leaves the digits out of the alphabet.
    pub numerals_off: bool,
    /// Leaves the symbols out of the alphabet.
    pub symbols_off: bool,
    /// Characters that never enter the alphabet.
    pub exclude_chars: Vec<char>,
    /// Where present and not empty, the only characters the alphabet is made
    /// of; the three switches are then ignored.
    pub include_chars: Option<Vec<char>>,
    /// The least number of uppercase letters in a password.
    pub min_capitals: Option<u32>,
    /// The least number of digits in a password.
    pub min_numerals: Option<u32>,
    /// The least number of symbols in a password.
    pub min_symbols: Option<u32>,
    /// The category of each position, for passwords of a fixed shape.
    pub pattern: Option<Vec<PatternChar>>,
    /// The length of a password.
    pub length: u32,
    /// How many passwords to generate.
    pub password_count: u32,
}

/// The byte that a listed character enters the alphabet as: the low eight bits
/// of its code point.
pub open spec fn byte_of(c: char) -> u8 {
    ((c as int) % 256) as u8
}

/// The four ranges of printable symbols, in ascending order.
pub open spec fn symbol_ranges() -> Seq<u8> {
    byte_range(ASCII_SYMBOL_RANGE_1_START, ASCII_SYMBOL_RANGE_1_END) + byte_range(
        ASCII_SYMBOL_RANGE_2_START,
        ASCII_SYMBOL_RANGE_2_END,
    ) + byte_range(ASCII_SYMBOL_RANGE_3_START, ASCII_SYMBOL_RANGE_3_END) + byte_range(
        ASCII_SYMBOL_RANGE_4_START,
        ASCII_SYMBOL_RANGE_4_END,
    )
}

/// The alphabet that the three switches give: the lowercase letters always,
/// then the uppercase letters, the digits and the symbols, each unless switched
/// off.
pub open spec fn switched_alphabet(
    capitals_off: bool,
    numerals_off: bool,
    symbols_off: bool,
) -> Seq<u8> {
    byte_range(ASCII_LOWERCASE_START, ASCII_LOWERCASE_END) + (if capitals_off {
        Seq::<u8>::empty()
    } else {
        byte_range(ASCII_UPPERCASE_START, ASCII_UPPERCASE_END)
    }) + (if numerals_off {
        Seq::<u8>::empty()
    } else {
        byte_range(ASCII_NUMERAL_START, ASCII_NUMERAL_END)
    }) + (if symbols_off {
        Seq::<u8>::empty()
    } else {
        symbol_ranges()
    })
}

impl PasswordArgs {
    /// Whether the request lists the characters to build the alphabet from.
    pub open spec fn has_inclusions(&self) -> bool {
        self.include_chars matches Some(list) && list@.len() > 0
    }

    /// The alphabet before exclusions: the listed characters as bytes, in the
    /// order given and as often as given, or else what the switches give.
    pub open spec fn base_alphabet(&self) -> Seq<u8> {
        if self.has_inclusions() {
            self.include_chars->0@.map_values(|c: char| byte_of(c))
        } else {
            switched_alphabet(self.capitals_off, self.numerals_off, self.symbols_off)
        }
    }

    /// Whether the byte `b` is excluded: the character it stands for is among
    /// the excluded characters.
    pub open spec fn excludes(&self, b: u8) -> bool {
        self.exclude_chars@.contains(b as char)
    }

    /// The alphabet of the request: the base alphabet without its excluded
    /// bytes, the rest in the same order.
    pub open spec fn alphabet(&self) -> Seq<u8> {
        self.base_alphabet().filter(|b: u8| !self.excludes(b))
    }
}

/// Appends the bytes from `first` to `last`, both included.
fn push_range(chars: &mut Vec<u8>, first: u8, last: u8)
    requires
        first <= last < 255,
    ensures
        final(chars)@ == old(chars)@ + byte_range(first, last),
{
    let mut b: u8 = first;
    proof {
        assert(chars@ =~= old(chars)@ + byte_range(first, last).take(0));
    }
    while b <= last
        invariant
            first <= b <= last + 1,
            last < 255,
            chars@ == old(chars)@ + byte_range(first, last).take(b - first),
        decreases last + 1 - b,
    {
        proof {
            assert(byte_range(first, last).take(b - first + 1) =~= byte_range(first, last).take(
                b - first,
            ).push(b));
        }
        chars.push(b);
        b += 1;
    }
    proof {
        assert(byte_range(first, last).take(last + 1 - first) =~= byte_range(first, last));
    }
}

/// Collects the bytes that stand for a character of `chars`.
fn excluded_bytes(chars: &Vec<char>) -> (set: HashSet<u8>)
    ensures
        forall|b: u8| set@.contains(b) <==> chars@.contains(b as char),
{
    broadcast use vstd::std_specs::hash::group_hash_axioms;

    let mut set: HashSet<u8> = HashSet::new();
    let mut i: usize = 0;
    while i < chars.len()
        invariant
            i <= chars@.len(),
            forall|b: u8| set@.contains(b) <==> chars@.take(i as int).contains(b as char),
        decreases chars@.len() - i,
    {
        let c = chars[i];
        let code = code_point(c);
        if code < 256 {
            set.insert(code as u8);
        }
        proof {
            let seen = chars@.take(i as int);
            assert(chars@.take(i + 1) =~= seen.push(c));
            assert forall|b: u8| set@.contains(b) <==> seen.push(c).contains(b as char) by {
                if seen.contains(b as char) {
                    let j = choose|j: int| 0 <= j < seen.len() && seen[j] == b as char;
                    assert(seen.push(c)[j] == b as char);
                }
                if b as char == c {
                    assert(seen.push(c)[i as int] == c);
                }
            }
        }
        i += 1;
    }
    proof {
        assert(chars@.take(chars@.len() as int) =~= chars@);
    }
    set
}

/// Builds the alphabet of a request.
///
/// Where the request lists inclusions, the alphabet starts out as those
/// characters converted to bytes; otherwise as the lowercase letters and the
/// categories that are not switched off. Excluded bytes are then removed. An
/// alphabet with nothing left is an error.
pub fn build_char_set(args: &PasswordArgs) -> (result: Result<Vec<u8>, PasswordError>)
    ensures
        match result {
            Ok(chars) => chars@ == args.alphabet() && chars@.len() > 0,
            Err(e) => e == PasswordError::EmptyCharacterSet && args.alphabet().len() == 0,
        },
{
    broadcast use vstd::std_specs::hash::group_hash_axioms;

    let mut base: Vec<u8> = Vec::new();
    let mut listed = false;
    if let Some(include_chars) = &args.include_chars {
        if include_chars.len() > 0 {
            listed = true;
            let mut i: usize = 0;
            while i < include_chars.len()
                invariant
                    i <= include_chars@.len(),
                    base@ == include_chars@.take(i as int).map_values(|c: char| byte_of(c)),
                decreases include_chars@.len() - i,
            {
                let c = include_chars[i];
                proof {
                    assert(include_chars@.take(i + 1).map_values(|c: char| byte_of(c))
                        =~= include_chars@.take(i as int).map_values(|c: char| byte_of(c)).push(
                        byte_of(c),
                    ));
                }
                base.push((code_point(c) % 256) as u8);
                i += 1;
            }
            proof {
                assert(include_chars@.take(include_chars@.len() as int) =~= include_chars@);
            }
        }
    }
    if !listed {
        push_range(&mut base, ASCII_LOWERCASE_START, ASCII_LOWERCASE_END);
        if !args.capitals_off {
            push_range(&mut base, ASCII_UPPERCASE_START, ASCII_UPPERCASE_END);
        }
        if !args.numerals_off {
            push_range(&mut base, ASCII_NUMERAL_START, ASCII_NUMERAL_END);
        }
        if !args.symbols_off {
            push_range(&mut base, ASCII_SYMBOL_RANGE_1_START, ASCII_SYMBOL_RANGE_1_END);
            push_range(&mut base, ASCII_SYMBOL_RANGE_2_START, ASCII_SYMBOL_RANGE_2_END);
            push_range(&mut base, ASCII_SYMBOL_RANGE_3_START, ASCII_SYMBOL_RANGE_3_END);
            push_range(&mut base, ASCII_SYMBOL_RANGE_4_START, ASCII_SYMBOL_RANGE_4_END);
        }
    }
    assert(base@ =~= args.base_alphabet());

    let exclude_set = excluded_bytes(&args.exclude_chars);
    let ghost keeps = |b: u8| !args.excludes(b);
    let mut chars: Vec<u8> = Vec::new();
    let mut i: usize = 0;
    proof {
        reveal(Seq::filter);
        assert(base@.take(0).filter(keeps) =~= Seq::<u8>::empty());
    }
    while i < base.len()
        invariant
            i <= base@.len(),
            keeps == |b: u8| !args.excludes(b),
            forall|b: u8| exclude_set@.contains(b) <==> args.excludes(b),
            chars@ == base@.take(i as int).filter(keeps),
        decreases base@.len() - i,
    {
        let b = base[i];
        proof {
            assert(base@.take(i + 1) =~= base@.take(i as int).push(b));
            base@.take(i as int).lemma_filter_push(b, keeps);
        }
        if !exclude_set.contains(&b) {
            chars.push(b);
        }
        i += 1;
    }
    proof {
        assert(base@.take(base@.len() as int) =~= base@);
    }

    if chars.is_empty() {
        return Err(PasswordError::EmptyCharacterSet);
    }
    Ok(chars)
}

} // verus!
