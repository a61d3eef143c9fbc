use text_translator::whitespace::{is_blank, leading_whitespace, trim_start, whitespace_len_at};

#[test]
fn white_space_is_what_std_calls_white_space() {
    for code in 0..=0x10FFFFu32 {
        if let Some(c) = char::from_u32(code) {
            let mut buffer = [0u8; 4];
            let encoded = c.encode_utf8(&mut buffer);
            let expected = if c.is_whitespace() { c.len_utf8() } else { 0 };
            assert_eq!(whitespace_len_at(encoded.as_bytes(), 0), expected);
        }
    }
}

#[test]
fn white_space_cut_short_is_none() {
    assert_eq!(whitespace_len_at(b"\xc2", 0), 0);
    assert_eq!(whitespace_len_at(b"\xe2\x80", 0), 0);
    assert_eq!(whitespace_len_at(b"\xe2\x80\xa8", 0), 3);
    assert_eq!(whitespace_len_at(b"\xe2\x80\xa8", 1), 0);
    assert_eq!(whitespace_len_at(b"a \xc2\xa0", 1), 1);
    assert_eq!(whitespace_len_at(b"a \xc2\xa0", 2), 2);
    assert_eq!(whitespace_len_at(b"a ", 2), 0);
    assert_eq!(whitespace_len_at(b"", 0), 0);
    assert_eq!(whitespace_len_at(b" ", usize::MAX), 0);
}

#[test]
fn leading_white_space_is_counted_in_bytes() {
    assert_eq!(leading_whitespace(b""), 0);
    assert_eq!(leading_whitespace(b"abc"), 0);
    assert_eq!(leading_whitespace(b" \t\r\n\x0b\x0cabc "), 6);
    assert_eq!(leading_whitespace(" \u{a0}\u{2003}x".as_bytes()), 6);
    assert_eq!(leading_whitespace(b"   "), 3);
}

#[test]
fn trim_start_is_that_of_std() {
    for text in [
        "",
        "abc",
        "  abc  ",
        "\n\tabc",
        "\u{85}\u{1680}\u{2028}\u{2029}\u{202f}\u{205f}\u{3000}abc\u{3000}",
        "\u{200b}abc",
        " \u{feff} abc",
        "   ",
    ] {
        assert_eq!(trim_start(text.as_bytes()), text.trim_start().as_bytes());
    }
}

#[test]
fn blank_is_empty_or_white_space_only() {
    assert!(is_blank(b""));
    assert!(is_blank(b" \n\t"));
    assert!(is_blank("\u{a0}\u{3000}".as_bytes()));
    assert!(!is_blank(b" a "));
    assert!(!is_blank(b"\xc2"));
    assert!(!is_blank("\u{200b}".as_bytes()));
}
