//! The checks a request has to pass before anything is generated.

use crate::category::{ASCII_LOWERCASE_END, ASCII_LOWERCASE_START};
use crate::charset::{build_char_set, PasswordArgs};
use crate::error::PasswordError;
use crate::pool::byte_range;
use vstd::prelude::*;

verus! {

/// The longest password that may be asked for.
pub const MAX_PASSWORD_LENGTH: u32 = 10_000;

/// The first check that the request fails, if it fails one: the length must not
/// be zero, nor above the maximum; the count must not be zero; and with
/// capitals, numerals and symbols all switched off, the alphabet must not come
/// out empty.
pub open spec fn rejection(args: &PasswordArgs) -> Option<PasswordError> {
    if args.length == 0 {
        Some(PasswordError::InvalidLength)
    } else if args.length > MAX_PASSWORD_LENGTH {
        Some(PasswordError::InvalidLengthTooLong)
    } else if args.password_count == 0 {
        Some(PasswordError::InvalidCount)
    } else if args.capitals_off && args.numerals_off && args.symbols_off
        && args.alphabet().len() == 0 {
        Some(PasswordError::AllTypesDisabled)
    } else {
        None
    }
}

/// Validates a request: returns the first check it fails, or `Ok` where it
/// passes them all.
pub fn validate_args(args: &PasswordArgs) -> (result: Result<(), PasswordError>)
    ensures
        result == match rejection(args) {
            Some(e) => Err::<(), PasswordError>(e),
            None => Ok(()),
        },
{
    if args.length == 0 {
        return Err(PasswordError::InvalidLength);
    }
    if args.length > MAX_PASSWORD_LENGTH {
        return Err(PasswordError::InvalidLengthTooLong);
    }
    if args.password_count == 0 {
        return Err(PasswordError::InvalidCount);
    }
    if args.capitals_off && args.numerals_off && args.symbols_off {
        match build_char_set(args) {
            Ok(_) => {},
            Err(_) => {
                return Err(PasswordError::AllTypesDisabled);
            },
        }
    }
    Ok(())
}

/// With capitals, numerals and symbols switched off and no inclusions listed,
/// the alphabet is what the exclusions leave of the lowercase letters. It is
/// empty, and the request is refused, exactly when every lowercase letter is
/// excluded.
pub proof fn lemma_lowercase_remainder(args: &PasswordArgs)
    requires
        args.capitals_off,
        args.numerals_off,
        args.symbols_off,
        !args.has_inclusions(),
    ensures
        args.alphabet() == byte_range(ASCII_LOWERCASE_START, ASCII_LOWERCASE_END).filter(
            |b: u8| !args.excludes(b),
        ),
        args.alphabet().len() == 0 <==> forall|b: u8|
            ASCII_LOWERCASE_START <= b <= ASCII_LOWERCASE_END ==> #[trigger] args.excludes(b),
{
    broadcast use vstd::seq_lib::group_filter_ensures;

    let letters = byte_range(ASCII_LOWERCASE_START, ASCII_LOWERCASE_END);
    let keeps = |b: u8| !args.excludes(b);
    assert(args.base_alphabet() =~= letters);
    if args.alphabet().len() == 0 {
        assert forall|b: u8|
            ASCII_LOWERCASE_START <= b <= ASCII_LOWERCASE_END implies #[trigger] args.excludes(
            b,
        ) by {
            if !args.excludes(b) {
                assert(letters[b - ASCII_LOWERCASE_START] == b);
                letters.lemma_filter_contains(keeps, b - ASCII_LOWERCASE_START);
                assert(letters.filter(keeps).contains(b));
            }
        }
    }
    if forall|b: u8|
        ASCII_LOWERCASE_START <= b <= ASCII_LOWERCASE_END ==> #[trigger] args.excludes(b) {
        if args.alphabet().len() > 0 {
            letters.lemma_filter_pred(keeps, 0);
            let kept = letters.filter(keeps)[0];
            assert(letters.filter(keeps).contains(kept));
            letters.lemma_filter_contains_rev(keeps, kept);
            assert(args.excludes(kept));
        }
    }
}

} // verus!
