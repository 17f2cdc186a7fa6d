use overseerd_tooling::text::is_blank;

#[test]
fn blankness_agrees_with_unicode_white_space() {
    for code in 0u32..0x3100 {
        if let Some(c) = char::from_u32(code) {
            assert_eq!(is_blank(&c.to_string()), c.is_whitespace(), "U+{code:04X}");
        }
    }
    assert!(is_blank(""));
    assert!(is_blank(" \t\u{3000}"));
    assert!(!is_blank(" x "));
}
