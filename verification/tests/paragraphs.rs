use text_translator::newline::normalize_newlines;
use text_translator::paragraph::{content_paragraphs, find_break, paragraphs};
use text_translator::split::{find_cut, split_long};

fn texts() -> Vec<&'static str> {
    vec![
        "",
        "a",
        "\n",
        "\n\n",
        "\n\n\n",
        "\n\n\n\n",
        "a\n\nb",
        "a\n\n\nb",
        "a\nb\n\nc\n",
        "\n\na\n\n",
        "a\r\n\r\nb",
        " \n\n\t\n\nx\n\n ",
    ]
}

#[test]
fn paragraphs_are_those_of_std_split() {
    for text in texts() {
        let expected: Vec<&[u8]> = text.split("\n\n").map(|p| p.as_bytes()).collect();
        assert_eq!(paragraphs(text.as_bytes()), expected);
    }
}

#[test]
fn paragraphs_with_content_are_those_that_do_not_trim_to_nothing() {
    for text in texts() {
        let expected: Vec<&[u8]> = text
            .split("\n\n")
            .filter(|p| !p.trim().is_empty())
            .map(|p| p.as_bytes())
            .collect();
        assert_eq!(content_paragraphs(text.as_bytes()), expected);
    }
}

#[test]
fn first_break_is_found() {
    assert_eq!(find_break(b""), 0);
    assert_eq!(find_break(b"\n"), 1);
    assert_eq!(find_break(b"\n\n"), 0);
    assert_eq!(find_break(b"ab\ncd"), 5);
    assert_eq!(find_break(b"ab\n\ncd\n\n"), 2);
    assert_eq!(find_break(b"ab\n\n\n"), 2);
}

#[test]
fn joined_paragraphs_are_the_text() {
    for text in texts() {
        assert_eq!(
            paragraphs(text.as_bytes()).join(&b"\n\n"[..]),
            text.as_bytes()
        );
    }
}

#[test]
fn carriage_return_before_line_feed_is_dropped() {
    for text in [
        "",
        "\r",
        "\n",
        "\r\n",
        "a\r\nb\r\n",
        "a\rb\nc",
        "\r\r\n",
        "\r\n\r\n",
        "a\r\n\r\nb\n\nc\r",
    ] {
        assert_eq!(
            normalize_newlines(text.as_bytes()),
            text.replace("\r\n", "\n").into_bytes()
        );
    }
    assert_eq!(normalize_newlines(b"a\r\n\r\nb"), b"a\n\nb".to_vec());
    assert_eq!(normalize_newlines(b"\r\r\n"), b"\r\n".to_vec());
}

#[test]
fn last_white_space_within_the_window_is_found() {
    assert_eq!(find_cut(b"abc def ghi", 11), Some(7));
    assert_eq!(find_cut(b"abc def ghi", 8), Some(7));
    assert_eq!(find_cut(b"abc def ghi", 7), Some(3));
    assert_eq!(find_cut(b"abc def ghi", 3), None);
    assert_eq!(find_cut(b"abc def ghi", 0), None);
    assert_eq!(find_cut(b"abc def ghi", 100), Some(7));
    assert_eq!(find_cut(b"", 5), None);
    assert_eq!(find_cut(b" abc", 4), Some(0));
    assert_eq!(find_cut("ab\u{2003}cd".as_bytes(), 5), Some(2));
    assert_eq!(find_cut("ab\u{2003}cd".as_bytes(), 4), None);
}

#[test]
fn paragraph_is_cut_into_pieces() {
    assert_eq!(split_long(b"", 5), Vec::<Vec<u8>>::new());
    assert_eq!(split_long(b"abc", 5), vec![b"abc".to_vec()]);
    assert_eq!(
        split_long(b"abc def ghi", 5),
        vec![b"abc".to_vec(), b"def".to_vec(), b"ghi".to_vec()]
    );
    assert_eq!(
        split_long(b"abcdefgh", 3),
        vec![b"abc".to_vec(), b"def".to_vec(), b"gh".to_vec()]
    );
    assert_eq!(
        split_long(b"abcdef   ", 6),
        vec![b"abcdef".to_vec()]
    );
    assert_eq!(
        split_long(b"abcde   ", 6),
        vec![b"abcde".to_vec()]
    );
}
