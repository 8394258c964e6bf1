use unified_launcher::text::{
    chars_of, contains_text, eq_ignore_ascii_case, find_text, is_among, join, number_text,
    signed_number_text, split_lines, split_whitespace, text_of, trim, trim_end, trim_start,
};

#[test]
fn trims_both_sides() {
    assert_eq!(trim(" \t a b \n"), "a b");
    assert_eq!(trim("\u{2003}x\u{3000}"), "x");
    assert_eq!(trim(" \n"), "");
}

#[test]
fn trims_one_side() {
    assert_eq!(trim_start("  a "), "a ");
    assert_eq!(trim_end("  a "), "  a");
    // A zero-width space is no white space.
    assert_eq!(trim("\u{200b}a"), "\u{200b}a");
}

#[test]
fn splits_at_white_space() {
    assert_eq!(split_whitespace("  ct\trecon \n"), vec!["ct", "recon"]);
    assert!(split_whitespace(" \u{a0} ").is_empty());
}

#[test]
fn splits_lines() {
    assert_eq!(split_lines("a\r\nb\n\nc\r"), vec!["a", "b", "", "c\r"]);
    assert_eq!(split_lines("a\n"), vec!["a"]);
    assert!(split_lines("").is_empty());
}

#[test]
fn finds_the_first_occurrence() {
    let hay = chars_of("abcabc");
    assert_eq!(find_text(&hay, &chars_of("ca")), Some(2));
    assert_eq!(find_text(&hay, &chars_of("c")), Some(2));
    assert_eq!(find_text(&hay, &chars_of("x")), None);
    assert_eq!(find_text(&hay, &chars_of("")), Some(0));
    assert_eq!(text_of(&hay, 1, 4), "bca");
    assert!(contains_text("größe", "öß"));
    assert!(!contains_text("ab", "abc"));
}

#[test]
fn joins_parts() {
    let parts = vec!["a".to_owned(), "b".to_owned(), "c".to_owned()];
    assert_eq!(join(&parts, ", "), "a, b, c");
    assert_eq!(join(&Vec::new(), ", "), "");
}

#[test]
fn writes_numbers() {
    assert_eq!(number_text(0), "0");
    assert_eq!(number_text(u64::MAX), "18446744073709551615");
    assert_eq!(signed_number_text(-1), "-1");
    assert_eq!(signed_number_text(i32::MIN), "-2147483648");
    assert_eq!(signed_number_text(127), "127");
}

#[test]
fn compares_without_ascii_case() {
    assert!(eq_ignore_ascii_case("LaRge", "large"));
    assert!(!eq_ignore_ascii_case("large", "larger"));
    assert!(!eq_ignore_ascii_case("É", "é"));
    assert!(is_among(&vec!["a".to_owned()], &"a".to_owned()));
    assert!(!is_among(&vec!["a".to_owned()], &"A".to_owned()));
}
