use ise::text::{contains_char, is_blank_text, is_white_space, named_segments, starts_with};

#[test]
fn prefixes_are_found() {
    assert!(starts_with("ise-photos", "ise-"));
    assert!(starts_with("ise-", "ise-"));
    assert!(starts_with("anything", ""));
    assert!(!starts_with("ise", "ise-"));
    assert!(!starts_with("isx-photos", "ise-"));
}

#[test]
fn characters_are_found() {
    assert!(contains_char("a/b", '/'));
    assert!(!contains_char("a\\b", '/'));
    assert!(!contains_char("", '/'));
}

#[test]
fn segments_depend_on_the_separators() {
    assert_eq!(named_segments("a\\b/c", true), vec!["a", "b", "c"]);
    assert_eq!(named_segments("a\\b/c", false), vec!["a\\b", "c"]);
    assert_eq!(named_segments("/./", false), Vec::<String>::new());
}

#[test]
fn white_space_is_what_std_calls_so() {
    for c in '\0'..=char::MAX {
        assert_eq!(is_white_space(c), c.is_whitespace());
    }
}

#[test]
fn blank_text_holds_white_space_alone() {
    assert!(is_blank_text(""));
    assert!(is_blank_text(" \t\u{2003}"));
    assert!(!is_blank_text(" . "));
}
