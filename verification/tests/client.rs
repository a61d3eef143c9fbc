use text_translator::client::{classify, classify_decoded, is_client_error, is_success, Reply};
use text_translator::failure::{Body, Failure};

#[test]
fn success_is_200_to_299() {
    assert!(!is_success(199));
    assert!(is_success(200));
    assert!(is_success(204));
    assert!(is_success(299));
    assert!(!is_success(300));
    assert!(!is_success(0));
    assert!(!is_success(u16::MAX));
}

#[test]
fn client_error_is_400_to_499() {
    assert!(!is_client_error(399));
    assert!(is_client_error(400));
    assert!(is_client_error(429));
    assert!(is_client_error(499));
    assert!(!is_client_error(500));
    assert!(!is_client_error(200));
}

#[test]
fn status_classes_are_those_of_the_http_client() {
    for code in 100..1000u16 {
        let status = reqwest::StatusCode::from_u16(code).unwrap();
        assert_eq!(is_success(code), status.is_success());
        assert_eq!(is_client_error(code), status.is_client_error());
    }
}

#[test]
fn unreachable_service_is_a_transport_failure() {
    assert_eq!(
        classify(Reply::Unreachable {
            reason: "dns".to_string()
        }),
        Err(Failure::Transport {
            reason: "dns".to_string()
        })
    );
}

#[test]
fn unreadable_body_of_a_success_is_a_transport_failure() {
    assert_eq!(
        classify(Reply::Answer {
            status: 200,
            body: Body::Unreadable("reset".to_string())
        }),
        Err(Failure::Transport {
            reason: "reset".to_string()
        })
    );
}

#[test]
fn success_gives_the_translation() {
    assert_eq!(
        classify(Reply::Answer {
            status: 200,
            body: Body::Text("{\"translatedText\": \"J\\u00f3 napot\"}".to_string())
        }),
        Ok("J\u{f3} napot".to_string())
    );
    assert_eq!(
        classify(Reply::Answer {
            status: 201,
            body: Body::Text("{\"alternatives\":[],\"translatedText\":\"\"}".to_string())
        }),
        Ok(String::new())
    );
}

#[test]
fn success_without_a_translation_is_a_decode_failure() {
    for body in [
        "",
        "<html></html>",
        "{}",
        "{\"translatedText\": 5}",
        "{\"translatedText\": null}",
        "{\"translated_text\": \"x\"}",
        "[\"x\"]",
        "\"x\"",
        "{\"translatedText\": \"x\"} trailing",
    ] {
        assert_eq!(
            classify(Reply::Answer {
                status: 200,
                body: Body::Text(body.to_string())
            }),
            Err(Failure::Decode {
                text: body.to_string()
            })
        );
    }
}

#[test]
fn client_error_is_a_rejection_whatever_the_body() {
    assert_eq!(
        classify(Reply::Answer {
            status: 400,
            body: Body::Text("{\"translatedText\":\"x\"}".to_string())
        }),
        Err(Failure::ClientRejection {
            status: 400,
            body: Body::Text("{\"translatedText\":\"x\"}".to_string())
        })
    );
    assert_eq!(
        classify(Reply::Answer {
            status: 429,
            body: Body::Unreadable("reset".to_string())
        }),
        Err(Failure::ClientRejection {
            status: 429,
            body: Body::Unreadable("reset".to_string())
        })
    );
}

#[test]
fn other_status_is_a_server_failure() {
    for status in [100u16, 301, 500, 503, 599, 600] {
        assert_eq!(
            classify(Reply::Answer {
                status,
                body: Body::Text("oops".to_string())
            }),
            Err(Failure::ServerFailure {
                status,
                body: Body::Text("oops".to_string())
            })
        );
    }
    assert_eq!(
        classify(Reply::Answer {
            status: 502,
            body: Body::Unreadable("reset".to_string())
        }),
        Err(Failure::ServerFailure {
            status: 502,
            body: Body::Unreadable("reset".to_string())
        })
    );
}

#[test]
fn decoded_translation_counts_only_for_a_success_with_a_body() {
    let decoded = || Some("x".to_string());
    assert_eq!(
        classify_decoded(
            Reply::Answer {
                status: 200,
                body: Body::Text("raw".to_string())
            },
            decoded()
        ),
        Ok("x".to_string())
    );
    assert_eq!(
        classify_decoded(
            Reply::Answer {
                status: 200,
                body: Body::Text("raw".to_string())
            },
            None
        ),
        Err(Failure::Decode {
            text: "raw".to_string()
        })
    );
    assert_eq!(
        classify_decoded(
            Reply::Answer {
                status: 200,
                body: Body::Unreadable("reset".to_string())
            },
            decoded()
        ),
        Err(Failure::Transport {
            reason: "reset".to_string()
        })
    );
    assert_eq!(
        classify_decoded(
            Reply::Answer {
                status: 404,
                body: Body::Text("raw".to_string())
            },
            decoded()
        ),
        Err(Failure::ClientRejection {
            status: 404,
            body: Body::Text("raw".to_string())
        })
    );
    assert_eq!(
        classify_decoded(
            Reply::Unreachable {
                reason: "dns".to_string()
            },
            decoded()
        ),
        Err(Failure::Transport {
            reason: "dns".to_string()
        })
    );
}
