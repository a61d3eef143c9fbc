use text_translator::pipeline::{
    join_translations, Job, Pipeline, Signal, MAX_CHUNK_SIZE, PAUSE_SECS,
};
use text_translator::failure::{Body, Failure, TranslateError};

fn failure() -> TranslateError {
    TranslateError::RetriesExhausted(Failure::ServerFailure {
        status: 503,
        body: Body::Text("busy".to_string()),
    })
}

fn job(segments: &[&str], translated: &[&str]) -> Job {
    Job {
        segments: segments.iter().map(|s| s.as_bytes().to_vec()).collect(),
        translated: translated.iter().map(|s| s.to_string()).collect(),
        pause_secs: 10,
    }
}

#[test]
fn translations_are_joined_by_two_line_feeds() {
    assert_eq!(join_translations(&vec![]), "");
    assert_eq!(join_translations(&vec!["egy".to_string()]), "egy");
    assert_eq!(
        join_translations(&vec![
            "egy".to_string(),
            "kett\u{151}".to_string(),
            "h\u{e1}rom".to_string()
        ]),
        "egy\n\nkett\u{151}\n\nh\u{e1}rom"
    );
    assert_eq!(
        join_translations(&vec![String::new(), "b".to_string(), String::new()]),
        "\n\nb\n\n"
    );
}

#[test]
fn join_is_that_of_std() {
    let parts: Vec<String> = vec!["a".into(), "".into(), "b\n".into(), "\n\nc".into()];
    for n in 0..=parts.len() {
        assert_eq!(join_translations(&parts[..n].to_vec()), parts[..n].join("\n\n"));
    }
}

#[test]
fn usual_ceiling_and_pause() {
    assert_eq!(MAX_CHUNK_SIZE, 4500);
    assert_eq!(PAUSE_SECS, 10);
}

#[test]
fn empty_document_starts_no_run() {
    let pipeline = Pipeline::start(b"", MAX_CHUNK_SIZE, PAUSE_SECS);
    assert_eq!(pipeline, Pipeline::Empty);
    assert_eq!(pipeline.due(), None);
    assert_eq!(pipeline.advance(Signal::Paced), Pipeline::Empty);
    assert_eq!(
        Pipeline::Empty.advance(Signal::Translated(Ok("x".to_string()))),
        Pipeline::Empty
    );
}

#[test]
fn blank_document_is_finished_with_empty_output() {
    assert_eq!(
        Pipeline::start(b" \r\n\r\n\t", 4500, 10),
        Pipeline::Finished {
            output: String::new()
        }
    );
}

#[test]
fn document_is_normalized_and_cut_before_the_first_pause() {
    assert_eq!(
        Pipeline::start(b"aaaaa\r\n\r\nbbbbb\r\nccc", 10, 7),
        Pipeline::Pacing(Job {
            segments: vec![b"aaaaa".to_vec(), b"bbbbb\nccc".to_vec()],
            translated: vec![],
            pause_secs: 7,
        })
    );
}

#[test]
fn segments_are_translated_in_order_with_a_pause_before_each() {
    let mut pipeline = Pipeline::start(b"one\n\ntwo\n\nthree", 5, 10);
    let mut asked: Vec<Vec<u8>> = Vec::new();
    let mut pauses = 0;
    loop {
        pipeline = match pipeline {
            Pipeline::Pacing(job) => {
                assert_eq!(job.pause_secs, 10);
                pauses += 1;
                Pipeline::Pacing(job).advance(Signal::Paced)
            }
            Pipeline::Translating(job) => {
                let pipeline = Pipeline::Translating(job);
                let segment = pipeline.due().unwrap().clone();
                let translation = format!("<{}>", String::from_utf8(segment.clone()).unwrap());
                asked.push(segment);
                pipeline.advance(Signal::Translated(Ok(translation)))
            }
            other => {
                pipeline = other;
                break;
            }
        };
    }
    assert_eq!(asked, vec![b"one".to_vec(), b"two".to_vec(), b"three".to_vec()]);
    assert_eq!(pauses, 3);
    assert_eq!(
        pipeline,
        Pipeline::Finished {
            output: "<one>\n\n<two>\n\n<three>".to_string()
        }
    );
}

#[test]
fn pause_leads_to_the_translation_of_the_same_segment() {
    let pacing = Pipeline::Pacing(job(&["a", "b"], &["x"]));
    assert_eq!(pacing.due(), Some(&b"b".to_vec()));
    let translating = pacing.advance(Signal::Paced);
    assert_eq!(translating, Pipeline::Translating(job(&["a", "b"], &["x"])));
    assert_eq!(translating.due(), Some(&b"b".to_vec()));
}

#[test]
fn translation_is_put_behind_those_before_it() {
    assert_eq!(
        Pipeline::Translating(job(&["a", "b", "c"], &["x"]))
            .advance(Signal::Translated(Ok("y".to_string()))),
        Pipeline::Pacing(job(&["a", "b", "c"], &["x", "y"]))
    );
    assert_eq!(
        Pipeline::Translating(job(&["a", "b", "c"], &["x", "y"]))
            .advance(Signal::Translated(Ok("z".to_string()))),
        Pipeline::Finished {
            output: "x\n\ny\n\nz".to_string()
        }
    );
}

#[test]
fn failed_translation_aborts_the_run() {
    let aborted = Pipeline::Translating(job(&["a", "b"], &["x"]))
        .advance(Signal::Translated(Err(failure())));
    assert_eq!(aborted, Pipeline::Aborted { error: failure() });
    assert_eq!(aborted.due(), None);
    assert_eq!(
        aborted.advance(Signal::Translated(Ok("y".to_string()))),
        Pipeline::Aborted { error: failure() }
    );
}

#[test]
fn signal_that_does_not_fit_changes_nothing() {
    assert_eq!(
        Pipeline::Pacing(job(&["a"], &[])).advance(Signal::Translated(Ok("x".to_string()))),
        Pipeline::Pacing(job(&["a"], &[]))
    );
    assert_eq!(
        Pipeline::Translating(job(&["a"], &[])).advance(Signal::Paced),
        Pipeline::Translating(job(&["a"], &[]))
    );
    assert_eq!(
        Pipeline::Finished {
            output: "x".to_string()
        }
        .advance(Signal::Paced),
        Pipeline::Finished {
            output: "x".to_string()
        }
    );
}
