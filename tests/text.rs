use kitchen::text::{chars_of, contains_text, is_whitespace, parse_unsigned, same_text, trim_text};

fn parse(s: &str, max: u32) -> Option<u32> {
    parse_unsigned(&chars_of(s), max)
}

#[test]
fn unsigned_numbers_read_as_str_parse_does() {
    assert_eq!(parse("007", u32::MAX), Some(7));
    assert_eq!(parse("+42", u32::MAX), Some(42));
    assert_eq!(parse("4294967295", u32::MAX), Some(4294967295));
    assert_eq!(parse("4294967296", u32::MAX), None);
    assert_eq!(parse("255", 255), Some(255));
    assert_eq!(parse("256", 255), None);
    for bad in ["", "+", "-1", " 1", "1 ", "1_000", "٣"] {
        assert_eq!(parse(bad, u32::MAX), None, "{:?}", bad);
        assert_eq!(bad.parse::<u32>().ok(), None);
    }
}

#[test]
fn text_helpers() {
    assert_eq!(trim_text("\t Heat \u{a0}\n"), "Heat");
    assert_eq!(trim_text("   "), "");
    assert!(contains_text("(TV Movie)", "TV"));
    assert!(contains_text("abc", ""));
    assert!(!contains_text("T V", "TV"));
    assert!(same_text("Genres:", "Genres:"));
    assert!(!same_text("Genres:", "Genres"));
}

#[test]
fn white_space_matches_std() {
    for c in (0u32..=0x10ffff).filter_map(char::from_u32) {
        assert_eq!(is_whitespace(c), c.is_whitespace(), "{:?}", c);
    }
}
