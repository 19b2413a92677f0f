use rpg_util::{column_count, format_columns};

fn strings(items: &[&str]) -> Vec<String> {
    items.iter().map(|s| s.to_string()).collect()
}

#[test]
fn test_column_count() {
    assert_eq!(column_count(1), 1);
    assert_eq!(column_count(2), 1);
    assert_eq!(column_count(3), 1);
    assert_eq!(column_count(4), 2);
    assert_eq!(column_count(5), 2);
    assert_eq!(column_count(6), 2);
    assert_eq!(column_count(9), 3);
    assert_eq!(column_count(10), 3);
    assert_eq!(column_count(16), 4);
    assert_eq!(column_count(20), 4);
    assert_eq!(column_count(25), 5);
}

#[test]
fn test_column_count_large() {
    // Test that large numbers default to reasonable values
    let cols = column_count(100);
    assert!(cols >= 2 && cols <= 5);
}

#[test]
fn column_count_at_the_band_edges() {
    assert_eq!(column_count(8), 2);
    assert_eq!(column_count(15), 3);
    assert_eq!(column_count(24), 4);
}

#[test]
fn column_count_beyond_the_bands_goes_by_divisors() {
    assert_eq!(column_count(0), 5);
    assert_eq!(column_count(100), 5);
    assert_eq!(column_count(28), 4);
    assert_eq!(column_count(27), 3);
    assert_eq!(column_count(26), 2);
    assert_eq!(column_count(29), 3);
    assert_eq!(column_count(u32::MAX), 5);
}

#[test]
fn format_columns_one_column_is_one_password_per_line() {
    let text = format_columns(&strings(&["abc", "de", "f"]), 1);
    assert_eq!(text, "abc\nde\nf\n");
}

#[test]
fn format_columns_pads_to_the_longest_password() {
    let text = format_columns(&strings(&["abc", "de", "f", "ghij"]), 2);
    assert_eq!(text, "abc  de  \nf    ghij\n");
}

#[test]
fn format_columns_short_last_row_ends_in_a_space() {
    let text = format_columns(&strings(&["ab", "cd", "ef"]), 2);
    assert_eq!(text, "ab cd\nef \n");
}

#[test]
fn format_columns_no_passwords_is_no_text() {
    assert_eq!(format_columns(&strings(&[]), 3), "");
    assert_eq!(format_columns(&strings(&[]), 1), "");
}

#[test]
fn format_columns_zero_columns_is_one_row() {
    let text = format_columns(&strings(&["a", "b", "c"]), 0);
    assert_eq!(text, "a b c \n");
}

#[test]
fn format_columns_empty_passwords_take_one_place() {
    let text = format_columns(&strings(&["", ""]), 2);
    assert_eq!(text, "   \n");
}

#[test]
fn format_columns_measures_width_in_bytes() {
    // Two characters, three bytes: the width is three, the padding one space.
    let text = format_columns(&strings(&["\u{e9}a", "b"]), 2);
    assert_eq!(text, "\u{e9}a  b  \n");
}
