use room_hub::text::{char_is_whitespace, chars_of, strip_prefix, trimmed_range};

#[test]
fn whitespace_matches_the_standard_classification() {
    let mut code: u32 = 0;
    while code <= 0x3100 {
        if let Some(c) = char::from_u32(code) {
            assert_eq!(char_is_whitespace(c), c.is_whitespace(), "code point {:#x}", code);
        }
        code += 1;
    }
    assert!(!char_is_whitespace('\u{200b}'));
    assert!(!char_is_whitespace('\u{feff}'));
    assert!(!char_is_whitespace('\u{10ffff}'));
}

#[test]
fn chars_of_lists_every_character() {
    assert_eq!(chars_of("aé\u{3000}z"), vec!['a', 'é', '\u{3000}', 'z']);
    assert_eq!(chars_of(""), Vec::<char>::new());
}

#[test]
fn strip_prefix_reports_the_prefix_length() {
    let chars = chars_of("/kick bob");
    assert_eq!(strip_prefix(&chars, "/kick "), Some(6));
    assert_eq!(strip_prefix(&chars, ""), Some(0));
    assert_eq!(strip_prefix(&chars, "/kick bob"), Some(9));
    assert_eq!(strip_prefix(&chars, "/ban "), None);
    assert_eq!(strip_prefix(&chars, "/kick bob!"), None);
}

#[test]
fn trimmed_range_matches_the_standard_trim() {
    let samples = ["", "   ", "bob", "  bob", "bob  ", " \t b o b \n ", "\u{3000}é\u{a0}", " a"];
    for sample in samples {
        let chars = chars_of(sample);
        let (a, b) = trimmed_range(&chars, 0);
        let cut: String = chars[a..b].iter().collect();
        assert_eq!(cut, sample.trim(), "sample {:?}", sample);
    }
}

#[test]
fn trimmed_range_starts_after_the_offset() {
    let chars = chars_of("/kick   bob ");
    assert_eq!(trimmed_range(&chars, 6), (8, 11));
    let blank = chars_of("/kick    ");
    assert_eq!(trimmed_range(&blank, 6), (9, 9));
    assert_eq!(trimmed_range(&blank, 9), (9, 9));
}
