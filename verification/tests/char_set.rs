use rpg_util::{build_char_set, validate_args, PasswordArgs, PasswordError};

fn create_test_args(
    capitals_off: bool,
    numerals_off: bool,
    symbols_off: bool,
    exclude_chars: Vec<char>,
) -> PasswordArgs {
    PasswordArgs {
        capitals_off,
        numerals_off,
        symbols_off,
        exclude_chars,
        include_chars: None,
        min_capitals: None,
        min_numerals: None,
        min_symbols: None,
        pattern: None,
        length: 16,
        password_count: 1,
    }
}

fn lowercase_letters() -> Vec<char> {
    let mut letters = Vec::new();
    for c in b'a'..=b'z' {
        letters.push(c as char);
    }
    letters
}

#[test]
fn test_build_char_set_default() {
    let args = create_test_args(false, false, false, vec![]);
    let char_set = build_char_set(&args).unwrap();
    // Should include lowercase, uppercase, numerals, and symbols
    assert!(!char_set.is_empty());
    assert!(char_set.len() > 60); // At least 26 + 26 + 10 + some symbols
}

#[test]
fn test_build_char_set_no_capitals() {
    let args = create_test_args(true, false, false, vec![]);
    let char_set = build_char_set(&args).unwrap();
    // Should not include uppercase letters
    assert!(!char_set.contains(&b'A'));
    assert!(!char_set.contains(&b'Z'));
    // Should still include lowercase
    assert!(char_set.contains(&b'a'));
}

#[test]
fn test_build_char_set_no_numerals() {
    let args = create_test_args(false, true, false, vec![]);
    let char_set = build_char_set(&args).unwrap();
    // Should not include numerals
    assert!(!char_set.contains(&b'0'));
    assert!(!char_set.contains(&b'9'));
}

#[test]
fn test_build_char_set_no_symbols() {
    let args = create_test_args(false, false, true, vec![]);
    let char_set = build_char_set(&args).unwrap();
    // Should not include symbols
    assert!(!char_set.contains(&b'!'));
    assert!(!char_set.contains(&b'@'));
}

#[test]
fn test_build_char_set_with_exclusions() {
    let args = create_test_args(false, false, false, vec!['a', 'b', 'c']);
    let char_set = build_char_set(&args).unwrap();
    // Should not include excluded characters
    assert!(!char_set.contains(&b'a'));
    assert!(!char_set.contains(&b'b'));
    assert!(!char_set.contains(&b'c'));
    // Should still include other lowercase
    assert!(char_set.contains(&b'd'));
}

#[test]
fn test_build_char_set_all_excluded() {
    // Exclude all lowercase letters when only lowercase is available
    let mut exclude_all = Vec::new();
    for c in b'a'..=b'z' {
        exclude_all.push(c as char);
    }
    let args = create_test_args(true, true, true, exclude_all);
    let result = build_char_set(&args);
    assert!(result.is_err());
    assert!(matches!(
        result.unwrap_err(),
        PasswordError::EmptyCharacterSet
    ));
}

#[test]
fn test_validate_args_valid() {
    let args = create_test_args(false, false, false, vec![]);
    assert!(validate_args(&args).is_ok());
}

#[test]
fn test_validate_args_invalid_length() {
    let mut args = create_test_args(false, false, false, vec![]);
    args.length = 0;
    let result = validate_args(&args);
    assert!(result.is_err());
    assert!(matches!(result.unwrap_err(), PasswordError::InvalidLength));
}

#[test]
fn test_validate_args_invalid_count() {
    let mut args = create_test_args(false, false, false, vec![]);
    args.password_count = 0;
    let result = validate_args(&args);
    assert!(result.is_err());
    assert!(matches!(result.unwrap_err(), PasswordError::InvalidCount));
}

#[test]
fn build_char_set_default_is_all_printable_in_category_order() {
    let args = create_test_args(false, false, false, vec![]);
    let char_set = build_char_set(&args).unwrap();
    let expected =
        "abcdefghijklmnopqrstuvwxyzABCDEFGHIJKLMNOPQRSTUVWXYZ0123456789!\"#$%&'()*+,-./:;<=>?@[\\]^_`{|}~";
    assert_eq!(char_set, expected.as_bytes().to_vec());
    assert_eq!(char_set.len(), 94);
}

#[test]
fn build_char_set_lowercase_only() {
    let args = create_test_args(true, true, true, vec![]);
    let char_set = build_char_set(&args).unwrap();
    assert_eq!(char_set, b"abcdefghijklmnopqrstuvwxyz".to_vec());
}

#[test]
fn build_char_set_without_symbols_has_62_bytes() {
    let args = create_test_args(false, false, true, vec![]);
    let char_set = build_char_set(&args).unwrap();
    assert_eq!(char_set.len(), 62);
    assert!(char_set.iter().all(|b| b.is_ascii_alphanumeric()));
}

#[test]
fn build_char_set_keeps_the_remainder_of_lowercase() {
    let mut exclude = lowercase_letters();
    exclude.retain(|c| *c != 'q' && *c != 'x');
    let args = create_test_args(true, true, true, exclude);
    let char_set = build_char_set(&args).unwrap();
    assert_eq!(char_set, vec![b'q', b'x']);
    assert!(validate_args(&args).is_ok());
}

#[test]
fn build_char_set_uses_inclusions_verbatim() {
    let mut args = create_test_args(false, false, false, vec![]);
    args.include_chars = Some(vec!['z', 'a', 'z', '7', '#']);
    let char_set = build_char_set(&args).unwrap();
    assert_eq!(char_set, vec![b'z', b'a', b'z', b'7', b'#']);
}

#[test]
fn build_char_set_inclusions_override_switches() {
    let mut args = create_test_args(true, true, true, vec![]);
    args.include_chars = Some(vec!['A', '1', '!']);
    let char_set = build_char_set(&args).unwrap();
    assert_eq!(char_set, vec![b'A', b'1', b'!']);
}

#[test]
fn build_char_set_filters_inclusions_by_exclusions() {
    let mut args = create_test_args(false, false, false, vec!['b', 'd']);
    args.include_chars = Some(vec!['a', 'b', 'c', 'd', 'b', 'e']);
    let char_set = build_char_set(&args).unwrap();
    assert_eq!(char_set, vec![b'a', b'c', b'e']);
}

#[test]
fn build_char_set_inclusions_fully_excluded() {
    let mut args = create_test_args(false, false, false, vec!['a', 'b']);
    args.include_chars = Some(vec!['a', 'b', 'a']);
    let result = build_char_set(&args);
    assert!(matches!(result, Err(PasswordError::EmptyCharacterSet)));
}

#[test]
fn build_char_set_empty_inclusion_list_falls_back_to_switches() {
    let mut args = create_test_args(true, true, true, vec![]);
    args.include_chars = Some(vec![]);
    let char_set = build_char_set(&args).unwrap();
    assert_eq!(char_set, b"abcdefghijklmnopqrstuvwxyz".to_vec());
}

#[test]
fn build_char_set_converts_inclusions_to_low_bytes() {
    let mut args = create_test_args(false, false, false, vec![]);
    // U+0141 has the low byte 0x41, U+00E9 is the byte 0xE9.
    args.include_chars = Some(vec!['\u{141}', '\u{e9}', 'k']);
    let char_set = build_char_set(&args).unwrap();
    assert_eq!(char_set, vec![0x41, 0xe9, b'k']);
}

#[test]
fn build_char_set_ignores_exclusions_beyond_a_byte() {
    let args = create_test_args(true, true, true, vec!['\u{161}', 'b']);
    let char_set = build_char_set(&args).unwrap();
    // U+0161 is no byte, so `a` (0x61) stays.
    assert_eq!(char_set, b"acdefghijklmnopqrstuvwxyz".to_vec());
}

#[test]
fn validate_args_rejects_length_above_maximum() {
    let mut args = create_test_args(false, false, false, vec![]);
    args.length = 10_001;
    assert!(matches!(
        validate_args(&args),
        Err(PasswordError::InvalidLengthTooLong)
    ));
    args.length = 10_000;
    assert!(validate_args(&args).is_ok());
    args.length = 1;
    assert!(validate_args(&args).is_ok());
}

#[test]
fn validate_args_checks_length_before_count() {
    let mut args = create_test_args(false, false, false, vec![]);
    args.length = 0;
    args.password_count = 0;
    assert!(matches!(
        validate_args(&args),
        Err(PasswordError::InvalidLength)
    ));
    args.length = 20_000;
    assert!(matches!(
        validate_args(&args),
        Err(PasswordError::InvalidLengthTooLong)
    ));
}

#[test]
fn validate_args_all_types_disabled() {
    let args = create_test_args(true, true, true, lowercase_letters());
    assert!(matches!(
        validate_args(&args),
        Err(PasswordError::AllTypesDisabled)
    ));
}

#[test]
fn validate_args_leaves_an_empty_alphabet_to_the_builder() {
    // Capitals stay on, so validation passes although nothing is left.
    let mut args = create_test_args(false, true, true, vec!['x']);
    args.include_chars = Some(vec!['x']);
    assert!(validate_args(&args).is_ok());
    assert!(matches!(
        build_char_set(&args),
        Err(PasswordError::EmptyCharacterSet)
    ));
}

#[test]
fn error_messages_are_exact() {
    assert_eq!(
        PasswordError::InvalidLength.message(),
        "Error: Password length must be greater than 0."
    );
    assert_eq!(
        PasswordError::InvalidLengthTooLong.message(),
        "Error: Password length exceeds maximum of 10,000 characters."
    );
    assert_eq!(
        PasswordError::InvalidCount.message(),
        "Error: Password count must be greater than 0."
    );
    assert_eq!(
        PasswordError::EmptyCharacterSet.message(),
        "Error: All characters have been excluded or disabled. Cannot generate passwords.\nHint: Try removing some character exclusions or enabling character types."
    );
    assert_eq!(
        PasswordError::AllTypesDisabled.message(),
        "Error: All character types are disabled and/or all remaining characters are excluded.\nHint: At least one character type must be enabled. Try removing --capitals-off, --numerals-off, or --symbols-off."
    );
}
