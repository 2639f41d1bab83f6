use music_files_organizer::util::numbers::{format_i32, format_u32, parse_i32, parse_u32, parse_u64};
use music_files_organizer::util::text::{join, split, trim};

#[test]
fn trims_whitespace_on_both_sides() {
    assert_eq!(trim("  a b \n"), "a b");
    assert_eq!(trim(""), "");
    assert_eq!(trim(" \t "), "");
}

#[test]
fn splits_at_every_separator() {
    assert_eq!(split("1:02:03", ':'), vec!["1", "02", "03"]);
    assert_eq!(split("", ':'), vec![""]);
    assert_eq!(split("a:", ':'), vec!["a", ""]);
}

#[test]
fn joins_with_separator() {
    let parts = vec!["a".to_string(), "b".to_string(), "c".to_string()];
    assert_eq!(join(&parts, "; "), "a; b; c");
    assert_eq!(join(&Vec::new(), "; "), "");
}

#[test]
fn parses_numbers_as_std_does() {
    assert_eq!(parse_u32("42"), Some(42));
    assert_eq!(parse_u32("+42"), Some(42));
    assert_eq!(parse_u32("007"), Some(7));
    assert_eq!(parse_u32(""), None);
    assert_eq!(parse_u32("+"), None);
    assert_eq!(parse_u32("-1"), None);
    assert_eq!(parse_u32("4294967295"), Some(u32::MAX));
    assert_eq!(parse_u32("4294967296"), None);
    assert_eq!(parse_u64("18446744073709551615"), Some(u64::MAX));
    assert_eq!(parse_u64("18446744073709551616"), None);
    assert_eq!(parse_i32("-2147483648"), Some(i32::MIN));
    assert_eq!(parse_i32("2147483647"), Some(i32::MAX));
    assert_eq!(parse_i32("2147483648"), None);
    assert_eq!(parse_i32("-"), None);
    assert_eq!(parse_i32("1 "), None);
}

#[test]
fn formats_numbers_in_base_ten() {
    assert_eq!(format_u32(0), "0");
    assert_eq!(format_u32(1999), "1999");
    assert_eq!(format_i32(-5), "-5");
    assert_eq!(format_i32(i32::MIN), "-2147483648");
}
