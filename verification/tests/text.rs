use lineio::text::is_space;

#[test]
fn whitespace_is_what_std_says() {
    for code in 0..=0x10ffff_u32 {
        if let Some(c) = char::from_u32(code) {
            assert_eq!(is_space(c), c.is_whitespace(), "U+{:04X}", code);
        }
    }
}

#[test]
fn common_whitespace() {
    for c in [' ', '\t', '\n', '\r', '\u{b}', '\u{c}', '\u{a0}', '\u{3000}'] {
        assert!(is_space(c));
    }
    for c in ['a', '0', '#', '_', '\u{0}', '\u{1f}', '\u{200b}', '\u{180e}', '\u{feff}'] {
        assert!(!is_space(c));
    }
}
