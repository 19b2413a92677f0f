use rpg_util::pattern::parse_tag;
use rpg_util::text::code_point;
use rpg_util::{parse_exclude_chars, parse_pattern, PatternChar};

#[test]
fn test_parse_exclude_chars_range() {
    let result = parse_exclude_chars(vec!["a-z".to_string()]).unwrap();
    assert_eq!(result.len(), 26);
    assert!(result.contains(&'a'));
    assert!(result.contains(&'z'));
    assert!(result.contains(&'m'));
}

#[test]
fn test_parse_exclude_chars_numeric_range() {
    let result = parse_exclude_chars(vec!["0-9".to_string()]).unwrap();
    assert_eq!(result.len(), 10);
    assert!(result.contains(&'0'));
    assert!(result.contains(&'9'));
    assert!(result.contains(&'5'));
}

#[test]
fn test_parse_exclude_chars_small_range() {
    let result = parse_exclude_chars(vec!["a-c".to_string()]).unwrap();
    assert_eq!(result.len(), 3);
    assert!(result.contains(&'a'));
    assert!(result.contains(&'b'));
    assert!(result.contains(&'c'));
}

#[test]
fn test_parse_exclude_chars_individual() {
    let result = parse_exclude_chars(vec!["abc".to_string()]).unwrap();
    assert_eq!(result.len(), 3);
    assert!(result.contains(&'a'));
    assert!(result.contains(&'b'));
    assert!(result.contains(&'c'));
}

#[test]
fn test_parse_exclude_chars_mixed() {
    let result =
        parse_exclude_chars(vec!["a-c".to_string(), "x".to_string(), "0-2".to_string()])
            .unwrap();
    assert!(result.contains(&'a'));
    assert!(result.contains(&'b'));
    assert!(result.contains(&'c'));
    assert!(result.contains(&'x'));
    assert!(result.contains(&'0'));
    assert!(result.contains(&'1'));
    assert!(result.contains(&'2'));
}

#[test]
fn test_parse_exclude_chars_invalid_range() {
    let result = parse_exclude_chars(vec!["z-a".to_string()]);
    assert!(result.is_err());
    assert!(result.unwrap_err().contains("Invalid range"));
}

#[test]
fn parse_exclude_chars_lowercase_range_is_the_alphabet() {
    let result = parse_exclude_chars(vec!["a-z".to_string()]).unwrap();
    let expected: Vec<char> = "abcdefghijklmnopqrstuvwxyz".chars().collect();
    assert_eq!(result, expected);
}

#[test]
fn parse_exclude_chars_range_then_member() {
    let result = parse_exclude_chars(vec!["a-c".to_string(), "b".to_string()]).unwrap();
    assert_eq!(result, vec!['a', 'b', 'c']);
}

#[test]
fn parse_exclude_chars_keeps_first_seen_order() {
    let result = parse_exclude_chars(vec![
        "zy".to_string(),
        "0-2".to_string(),
        "a1z".to_string(),
        "x".to_string(),
    ])
    .unwrap();
    assert_eq!(result, vec!['z', 'y', '0', '1', '2', 'a', 'x']);
}

#[test]
fn parse_exclude_chars_names_each_character_once() {
    let result = parse_exclude_chars(vec![
        "b".to_string(),
        "a-d".to_string(),
        "c-f".to_string(),
        "aabb".to_string(),
    ])
    .unwrap();
    assert_eq!(result, vec!['b', 'a', 'c', 'd', 'e', 'f']);
}

#[test]
fn parse_exclude_chars_single_character_range() {
    let result = parse_exclude_chars(vec!["q-q".to_string()]).unwrap();
    assert_eq!(result, vec!['q']);
}

#[test]
fn parse_exclude_chars_whole_printable_range() {
    let result = parse_exclude_chars(vec![" -~".to_string()]).unwrap();
    assert_eq!(result.len(), 95);
    assert_eq!(result[0], ' ');
    assert_eq!(result[94], '~');
}

#[test]
fn parse_exclude_chars_unprintable_end_is_literal() {
    // Start before the first printable character: not a range.
    let result = parse_exclude_chars(vec!["\u{1f}-a".to_string()]).unwrap();
    assert_eq!(result, vec!['\u{1f}', '-', 'a']);
    // End after the last printable character: not a range either.
    let result = parse_exclude_chars(vec!["a-\u{7f}".to_string()]).unwrap();
    assert_eq!(result, vec!['a', '-', '\u{7f}']);
}

#[test]
fn parse_exclude_chars_other_shapes_are_literal() {
    let result = parse_exclude_chars(vec![
        "a-".to_string(),
        "-z".to_string(),
        "a-zz".to_string(),
        "a_c".to_string(),
        "".to_string(),
    ])
    .unwrap();
    assert_eq!(result, vec!['a', '-', 'z', '_', 'c']);
}

#[test]
fn parse_exclude_chars_wide_characters_are_literal() {
    let result = parse_exclude_chars(vec![
        "\u{e9}-z".to_string(),
        "\u{20ac}".to_string(),
        "\u{e9}-".to_string(),
        "a-\u{e9}".to_string(),
    ])
    .unwrap();
    assert_eq!(result, vec!['\u{e9}', '-', 'z', '\u{20ac}', 'a']);
}

#[test]
fn parse_exclude_chars_no_tokens() {
    let result = parse_exclude_chars(vec![]).unwrap();
    assert!(result.is_empty());
}

#[test]
fn parse_exclude_chars_reversed_range_message() {
    let result = parse_exclude_chars(vec!["z-a".to_string()]);
    assert_eq!(
        result.unwrap_err(),
        "Invalid range 'z-a': start character 'z' is greater than end character 'a'"
    );
}

#[test]
fn parse_exclude_chars_reports_the_first_reversed_range() {
    let result = parse_exclude_chars(vec![
        "a-c".to_string(),
        "9-0".to_string(),
        "z-a".to_string(),
    ]);
    assert_eq!(
        result.unwrap_err(),
        "Invalid range '9-0': start character '9' is greater than end character '0'"
    );
}

#[test]
fn parse_exclude_chars_reversed_unprintable_range_is_an_error() {
    let result = parse_exclude_chars(vec!["\u{7f}-a".to_string()]);
    assert_eq!(
        result.unwrap_err(),
        "Invalid range '\u{7f}-a': start character '\u{7f}' is greater than end character 'a'"
    );
}

#[test]
fn parse_pattern_reads_letters_in_either_case() {
    let result = parse_pattern("LlUuNnSs").unwrap();
    assert_eq!(
        result,
        vec![
            PatternChar::Lowercase,
            PatternChar::Lowercase,
            PatternChar::Uppercase,
            PatternChar::Uppercase,
            PatternChar::Numeric,
            PatternChar::Numeric,
            PatternChar::Symbol,
            PatternChar::Symbol,
        ]
    );
}

#[test]
fn parse_pattern_keeps_the_order() {
    let result = parse_pattern("SNUL").unwrap();
    assert_eq!(
        result,
        vec![
            PatternChar::Symbol,
            PatternChar::Numeric,
            PatternChar::Uppercase,
            PatternChar::Lowercase,
        ]
    );
}

#[test]
fn parse_pattern_empty_string_is_the_empty_pattern() {
    assert_eq!(parse_pattern("").unwrap(), vec![]);
}

#[test]
fn parse_pattern_names_the_first_bad_character() {
    let result = parse_pattern("LLxNy");
    assert_eq!(
        result.unwrap_err(),
        "Invalid pattern character: 'x'. Use L (lowercase), U (uppercase), N (numeric), S (symbol)"
    );
}

#[test]
fn parse_pattern_rejects_wide_characters() {
    let result = parse_pattern("\u{e9}");
    assert_eq!(
        result.unwrap_err(),
        "Invalid pattern character: '\u{e9}'. Use L (lowercase), U (uppercase), N (numeric), S (symbol)"
    );
}

#[test]
fn parse_tag_knows_eight_letters() {
    assert_eq!(parse_tag('L'), Some(PatternChar::Lowercase));
    assert_eq!(parse_tag('u'), Some(PatternChar::Uppercase));
    assert_eq!(parse_tag('N'), Some(PatternChar::Numeric));
    assert_eq!(parse_tag('s'), Some(PatternChar::Symbol));
    assert_eq!(parse_tag('x'), None);
    assert_eq!(parse_tag('1'), None);
    assert_eq!(parse_tag(' '), None);
}

#[test]
fn code_point_is_the_scalar_value() {
    assert_eq!(code_point('a'), 97);
    assert_eq!(code_point('\u{0}'), 0);
    assert_eq!(code_point('\u{20ac}'), 0x20ac);
    assert_eq!(code_point('\u{10ffff}'), 0x10ffff);
}
