use text_translator::wire::{
    decode_translation, frame_request, member_text, request_body, translation_of, Member,
};

fn member(name: &str, text: Option<&str>) -> Member {
    Member {
        name: name.to_string(),
        text: text.map(|t| t.to_string()),
    }
}

#[test]
fn request_is_an_object_of_three_strings() {
    assert_eq!(
        request_body("Hello", "en", "hu"),
        "{\"q\":\"Hello\",\"source\":\"en\",\"target\":\"hu\"}"
    );
}

#[test]
fn request_escapes_what_json_does_not_take() {
    assert_eq!(
        request_body("a \"b\"\n\\c\t\u{1}", "en", "hu"),
        "{\"q\":\"a \\\"b\\\"\\n\\\\c\\t\\u0001\",\"source\":\"en\",\"target\":\"hu\"}"
    );
    assert_eq!(
        request_body("\u{e1}rv\u{ed}zt\u{171}r\u{151}", "hu", "en"),
        "{\"q\":\"\u{e1}rv\u{ed}zt\u{171}r\u{151}\",\"source\":\"hu\",\"target\":\"en\"}"
    );
}

#[test]
fn request_reads_back_as_what_went_in() {
    for segment in ["", "plain", "two\n\nparagraphs", "quote \" and \\ slash", "\u{0}\u{7f}\u{2028}"] {
        let body = request_body(segment, "en", "hu");
        let value: serde_json::Value = serde_json::from_str(&body).unwrap();
        let object = value.as_object().unwrap();
        assert_eq!(object.len(), 3);
        assert_eq!(object.get("q").unwrap().as_str(), Some(segment));
        assert_eq!(object.get("source").unwrap().as_str(), Some("en"));
        assert_eq!(object.get("target").unwrap().as_str(), Some("hu"));
    }
}

#[test]
fn request_is_framed_from_its_parts() {
    assert_eq!(
        frame_request("1", "2", "3"),
        "{\"q\":1,\"source\":2,\"target\":3}"
    );
    assert_eq!(frame_request("", "", ""), "{\"q\":,\"source\":,\"target\":}");
}

#[test]
fn translation_is_the_text_of_its_member() {
    assert_eq!(
        decode_translation("{\"translatedText\":\"szia\"}"),
        Some("szia".to_string())
    );
    assert_eq!(
        decode_translation(" { \"detected\" : {\"language\":\"en\"}, \"translatedText\" : \"a\\nb\" } "),
        Some("a\nb".to_string())
    );
    assert_eq!(
        decode_translation("{\"translatedText\":\"first\",\"translatedText\":\"second\"}"),
        Some("second".to_string())
    );
}

#[test]
fn body_without_a_translation_decodes_to_none() {
    for body in [
        "",
        "null",
        "szia",
        "\"szia\"",
        "[\"szia\"]",
        "{}",
        "{\"translatedText\":7}",
        "{\"translatedText\":[\"szia\"]}",
        "{\"TranslatedText\":\"szia\"}",
        "{\"translatedText\":\"szia\"",
        "{\"translatedText\":\"szia\"}{}",
    ] {
        assert_eq!(decode_translation(body), None);
    }
}

#[test]
fn member_is_found_by_its_name() {
    let members = vec![
        member("a", Some("1")),
        member("b", None),
        member("c", Some("3")),
        member("a", Some("4")),
    ];
    assert_eq!(member_text(&members, "a"), Some("1".to_string()));
    assert_eq!(member_text(&members, "b"), None);
    assert_eq!(member_text(&members, "c"), Some("3".to_string()));
    assert_eq!(member_text(&members, "d"), None);
    assert_eq!(member_text(&Vec::new(), "a"), None);
}

#[test]
fn translation_is_looked_up_among_the_members() {
    assert_eq!(translation_of(None), None);
    assert_eq!(translation_of(Some(vec![])), None);
    assert_eq!(
        translation_of(Some(vec![
            member("detectedLanguage", None),
            member("translatedText", Some("szia"))
        ])),
        Some("szia".to_string())
    );
    assert_eq!(
        translation_of(Some(vec![member("translatedText", None)])),
        None
    );
}
