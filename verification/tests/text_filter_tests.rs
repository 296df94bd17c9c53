use chonker::text_filter::{clean_text_for_insertion, is_allowed_char, strip_ansi_codes};

#[test]
fn test_strip_ansi_codes() {
    assert_eq!(strip_ansi_codes("Hello\x1B[31mRed\x1B[0mWorld"), "HelloRedWorld");
    assert_eq!(strip_ansi_codes("\x1B[2J\x1B[H"), "");
    assert_eq!(strip_ansi_codes("Normal text"), "Normal text");
}

#[test]
fn test_allowed_chars() {
    assert!(is_allowed_char('a'));
    assert!(is_allowed_char(' '));
    assert!(is_allowed_char('\n'));
    assert!(is_allowed_char('\t'));
    assert!(!is_allowed_char('\x1B'));
    assert!(!is_allowed_char('\x00'));
    assert!(!is_allowed_char('\x07'));
}

#[test]
fn allowed_matches_std_classification() {
    for n in 0u32..0x3100 {
        if let Some(c) = char::from_u32(n) {
            let expected = !c.is_control() || c.is_whitespace() || c.is_alphanumeric();
            assert_eq!(is_allowed_char(c), expected, "code point {:x}", n);
        }
    }
}

#[test]
fn osc_and_short_escapes() {
    assert_eq!(strip_ansi_codes("a\x1B]0;title\x07b"), "ab");
    assert_eq!(strip_ansi_codes("a\x1B]0;title\x1B\\b"), "ab");
    assert_eq!(strip_ansi_codes("a\x1B7b"), "ab");
    assert_eq!(strip_ansi_codes("x\x00y\x7Fz\u{85}"), "xyz\u{85}");
}

#[test]
fn cleaning_is_idempotent() {
    let once = clean_text_for_insertion("\x1B[1mbold\x1B[0m\ttab\x01");
    assert_eq!(once, "bold\ttab");
    assert_eq!(clean_text_for_insertion(&once), once);
}
