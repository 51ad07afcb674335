use cargo_ohrs::text::is_space;

#[test]
fn whitespace_is_the_white_space_property() {
    let mut count: u32 = 0;
    for code in 0u32..=0x10FFFF {
        if let Some(c) = char::from_u32(code) {
            assert_eq!(is_space(c), c.is_whitespace());
            if is_space(c) {
                count += 1;
            }
        }
    }
    assert_eq!(count, 25);
}

#[test]
fn whitespace_examples() {
    for c in [' ', '\t', '\n', '\r', '\u{0B}', '\u{0C}', '\u{85}', '\u{A0}', '\u{3000}'] {
        assert!(is_space(c));
    }
    for c in ['a', '{', '}', '*', '\u{0}', '\u{8}', '\u{E}', '\u{200B}', '\u{FEFF}'] {
        assert!(!is_space(c));
    }
}
