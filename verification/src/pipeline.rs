//! The pipeline: from a document to its translation, segment by segment.
//!
//! The document is brought to its normal form and cut into segments. Before
//! each segment is translated a pause is kept, so that the service is not
//! asked too often. The segments are translated one after another, in
//! order. The first failure ends the run, and nothing is put out. When
//! every segment is translated the translations are joined, in the order
//! of their segments, with the separator between them.
//!
//! The pipeline performs nothing itself. Whoever runs it keeps the pauses
//! and has the segments translated, and reports each as a [`Signal`].

use vstd::prelude::*;
use vstd::string::StringExecFns;
use crate::chunker::{chunk, spec_chunk};
use crate::join::{join, lemma_join_push};
use crate::newline::{lemma_normalize_len, normalize_newlines, spec_normalize};
use crate::failure::{call_view, TranslateError, TranslateErrorView};
use crate::views::views;

verus! {

/// The usual ceiling of a segment, in bytes: safely below the 5000 bytes
/// that the service takes in one request.
pub const MAX_CHUNK_SIZE: usize = 4500;

/// The usual pause before each translation, in seconds: it keeps the run
/// below the eight requests a minute that the public service allows.
pub const PAUSE_SECS: u64 = 10;

/// What is between two translations in the output: two line feeds.
pub open spec fn text_separator() -> Seq<char> {
    seq!['\n', '\n']
}

/// The segments of a document, and the translations made so far.
#[derive(Debug, PartialEq, Eq)]
pub struct Job {
    /// The segments, in the order of the document.
    pub segments: Vec<Vec<u8>>,
    /// The translations of the first segments, in the same order.
    pub translated: Vec<String>,
    /// The pause before each translation, in seconds.
    pub pause_secs: u64,
}

/// A [`Job`] as the contracts see it.
pub struct JobView {
    pub segments: Seq<Seq<u8>>,
    pub translated: Seq<Seq<char>>,
    pub pause_secs: u64,
}

impl View for Job {
    type V = JobView;

    open spec fn view(&self) -> JobView {
        JobView {
            segments: views(self.segments@),
            translated: views(self.translated@),
            pause_secs: self.pause_secs,
        }
    }
}

/// Where a run stands.
#[derive(Debug, PartialEq, Eq)]
pub enum Pipeline {
    /// The document is empty: there is nothing to do and nothing to put out.
    Empty,
    /// The pause before the next translation is to be kept.
    Pacing(Job),
    /// The next segment is to be translated.
    Translating(Job),
    /// Every segment is translated, and this is the output.
    Finished { output: String },
    /// A translation failed. There is no output.
    Aborted { error: TranslateError },
}

/// A [`Pipeline`] as the contracts see it.
pub enum PipelineView {
    Empty,
    Pacing(JobView),
    Translating(JobView),
    Finished { output: Seq<char> },
    Aborted { error: TranslateErrorView },
}

impl View for Pipeline {
    type V = PipelineView;

    open spec fn view(&self) -> PipelineView {
        match self {
            Pipeline::Empty => PipelineView::Empty,
            Pipeline::Pacing(job) => PipelineView::Pacing(job@),
            Pipeline::Translating(job) => PipelineView::Translating(job@),
            Pipeline::Finished { output } => PipelineView::Finished { output: output@ },
            Pipeline::Aborted { error } => PipelineView::Aborted { error: error@ },
        }
    }
}

/// What the pipeline is told.
#[derive(Debug, PartialEq, Eq)]
pub enum Signal {
    /// The pause was kept.
    Paced,
    /// The segment that was due came back from translation, with this
    /// result.
    Translated(Result<String, TranslateError>),
}

/// A [`Signal`] as the contracts see it.
pub enum SignalView {
    Paced,
    Translated(Result<Seq<char>, TranslateErrorView>),
}

impl View for Signal {
    type V = SignalView;

    open spec fn view(&self) -> SignalView {
        match self {
            Signal::Paced => SignalView::Paced,
            Signal::Translated(result) => SignalView::Translated(call_view(*result)),
        }
    }
}

/// Where the run of a document starts: nowhere if the document is empty in
/// its normal form, at its end if it has no segment, else at the pause
/// before its first segment.
pub open spec fn spec_start(raw: Seq<u8>, max: int, pause_secs: u64) -> PipelineView {
    let text = spec_normalize(raw);
    let segments = spec_chunk(text, max);
    if text.len() == 0 {
        PipelineView::Empty
    } else if segments.len() == 0 {
        PipelineView::Finished { output: Seq::empty() }
    } else {
        PipelineView::Pacing(JobView { segments, translated: Seq::empty(), pause_secs })
    }
}

/// The state that follows `state` on `signal`.
///
/// After the pause the segment is due. A translation is put behind those
/// made before; with the last one the run is finished and the output is
/// the translations joined, else a pause follows. A failed translation
/// aborts the run. A signal that does not fit the state changes nothing.
pub open spec fn spec_advance(state: PipelineView, signal: SignalView) -> PipelineView {
    match state {
        PipelineView::Pacing(job) => match signal {
            SignalView::Paced => PipelineView::Translating(job),
            SignalView::Translated(_) => state,
        },
        PipelineView::Translating(job) => match signal {
            SignalView::Translated(Ok(text)) => {
                let translated = job.translated.push(text);
                if translated.len() >= job.segments.len() {
                    PipelineView::Finished { output: join(translated, text_separator()) }
                } else {
                    PipelineView::Pacing(
                        JobView {
                            segments: job.segments,
                            translated,
                            pause_secs: job.pause_secs,
                        },
                    )
                }
            },
            SignalView::Translated(Err(error)) => PipelineView::Aborted { error },
            SignalView::Paced => state,
        },
        _ => state,
    }
}

/// The state after one pause and one translation for each of `texts`, in
/// order.
pub open spec fn spec_feed(state: PipelineView, texts: Seq<Seq<char>>) -> PipelineView
    decreases texts.len(),
{
    if texts.len() == 0 {
        state
    } else {
        spec_advance(
            spec_advance(spec_feed(state, texts.drop_last()), SignalView::Paced),
            SignalView::Translated(Ok(texts.last())),
        )
    }
}

/// The segment that is due in `state`, if one is.
pub open spec fn spec_due(state: PipelineView) -> Option<Seq<u8>> {
    match state {
        PipelineView::Pacing(job) | PipelineView::Translating(job) => if job.translated.len()
            < job.segments.len() {
            Some(job.segments[job.translated.len() as int])
        } else {
            None
        },
        _ => None,
    }
}

/// An empty document starts no run: there is no segment to translate, no
/// signal leads anywhere else, and so nothing is ever put out.
pub proof fn lemma_empty_document_does_nothing(max: int, pause_secs: u64, signal: SignalView)
    ensures
        spec_start(Seq::empty(), max, pause_secs) == PipelineView::Empty,
        spec_due(PipelineView::Empty) is None,
        spec_advance(PipelineView::Empty, signal) == PipelineView::Empty,
{
}

/// A document starts no run exactly if it is empty.
pub proof fn lemma_start_empty_iff(raw: Seq<u8>, max: int, pause_secs: u64)
    ensures
        spec_start(raw, max, pause_secs) == PipelineView::Empty <==> raw.len() == 0,
{
    lemma_normalize_len(raw);
}

/// A finished run and an aborted run stay as they are.
pub proof fn lemma_end_is_final(state: PipelineView, signal: SignalView)
    requires
        state is Finished || state is Aborted,
    ensures
        spec_advance(state, signal) == state,
{
}

/// A failed translation aborts the run at once with that failure, however
/// many segments are translated already; no output comes of it.
pub proof fn lemma_failure_aborts(job: JobView, error: TranslateErrorView)
    ensures
        spec_advance(PipelineView::Translating(job), SignalView::Translated(Err(error)))
            == (PipelineView::Aborted { error }),
{
}

/// The segments come due in their order: while fewer translations have
/// come in than the job has segments, the run stands at the pause before
/// the segment whose number is the count of translations, and the
/// translations are kept in the order in which they came.
pub proof fn lemma_segments_come_due_in_order(job: JobView, texts: Seq<Seq<char>>)
    requires
        job.translated.len() == 0,
        texts.len() < job.segments.len(),
    ensures
        spec_feed(PipelineView::Pacing(job), texts) == (PipelineView::Pacing(
            JobView { segments: job.segments, translated: texts, pause_secs: job.pause_secs },
        )),
        spec_due(spec_feed(PipelineView::Pacing(job), texts)) == Some(
            job.segments[texts.len() as int],
        ),
    decreases texts.len(),
{
    if texts.len() == 0 {
        assert(texts =~= job.translated);
    } else {
        lemma_segments_come_due_in_order(job, texts.drop_last());
        assert(texts.drop_last().push(texts.last()) =~= texts);
    }
}

/// When each segment of a job has its translation, the run is finished and
/// the output is the translations, in the order in which they came, joined
/// with the separator and nothing else between them.
pub proof fn lemma_output_joins_translations(job: JobView, texts: Seq<Seq<char>>)
    requires
        job.translated.len() == 0,
        job.segments.len() > 0,
        texts.len() == job.segments.len(),
    ensures
        spec_feed(PipelineView::Pacing(job), texts) == (PipelineView::Finished {
            output: join(texts, text_separator()),
        }),
{
    lemma_segments_come_due_in_order(job, texts.drop_last());
    assert(texts.drop_last().push(texts.last()) =~= texts);
}

/// The translations joined with two line feeds between neighbours.
pub fn join_translations(parts: &Vec<String>) -> (text: String)
    ensures
        text@ == join(views(parts@), text_separator()),
{
    let mut text: String = String::new();
    let mut i: usize = 0;
    proof {
        reveal_strlit("\n\n");
        assert(views(parts@).subrange(0, 0) =~= Seq::<Seq<char>>::empty());
    }
    while i < parts.len()
        invariant
            i <= parts.len(),
            "\n\n"@ == text_separator(),
            text@ == join(views(parts@).subrange(0, i as int), text_separator()),
        decreases parts.len() - i,
    {
        proof {
            let before = views(parts@).subrange(0, i as int);
            assert(before.push(parts[i as int]@) =~= views(parts@).subrange(0, i + 1));
            lemma_join_push(before, parts[i as int]@, text_separator());
            assert(Seq::<char>::empty() + parts[i as int]@ =~= parts[i as int]@);
        }
        if i > 0 {
            text.append("\n\n");
        }
        text.append(parts[i].as_str());
        i = i + 1;
    }
    assert(views(parts@).subrange(0, parts.len() as int) =~= views(parts@));
    text
}

impl Pipeline {
    /// Where the run of the document `raw` starts, with segments of at most
    /// `max_size` bytes and a pause of `pause_secs` seconds before each
    /// translation.
    pub fn start(raw: &[u8], max_size: usize, pause_secs: u64) -> (pipeline: Pipeline)
        requires
            max_size >= 1,
        ensures
            pipeline@ == spec_start(raw@, max_size as int, pause_secs),
    {
        let text: Vec<u8> = normalize_newlines(raw);
        if text.len() == 0 {
            return Pipeline::Empty;
        }
        let segments: Vec<Vec<u8>> = chunk(text.as_slice(), max_size);
        if segments.len() == 0 {
            return Pipeline::Finished { output: String::new() };
        }
        let translated: Vec<String> = Vec::new();
        assert(views(translated@) =~= Seq::<Seq<char>>::empty());
        Pipeline::Pacing(Job { segments, translated, pause_secs })
    }

    /// The state that follows on `signal`.
    pub fn advance(self, signal: Signal) -> (next: Pipeline)
        ensures
            next@ == spec_advance(self@, signal@),
    {
        match self {
            Pipeline::Pacing(job) => match signal {
                Signal::Paced => Pipeline::Translating(job),
                Signal::Translated(_) => Pipeline::Pacing(job),
            },
            Pipeline::Translating(job) => match signal {
                Signal::Translated(Ok(text)) => {
                    let Job { segments, translated, pause_secs } = job;
                    let mut translated = translated;
                    proof {
                        crate::views::lemma_views_push(translated@, text);
                    }
                    translated.push(text);
                    if translated.len() >= segments.len() {
                        Pipeline::Finished { output: join_translations(&translated) }
                    } else {
                        Pipeline::Pacing(Job { segments, translated, pause_secs })
                    }
                },
                Signal::Translated(Err(error)) => Pipeline::Aborted { error },
                Signal::Paced => Pipeline::Translating(job),
            },
            Pipeline::Empty => Pipeline::Empty,
            Pipeline::Finished { output } => Pipeline::Finished { output },
            Pipeline::Aborted { error } => Pipeline::Aborted { error },
        }
    }

    /// The segment that is due, if one is.
    pub fn due(&self) -> (segment: Option<&Vec<u8>>)
        ensures
            (match segment {
                Some(bytes) => spec_due(self@) == Some(bytes@),
                None => spec_due(self@) is None,
            }),
    {
        match self {
            Pipeline::Pacing(job) | Pipeline::Translating(job) => {
                if job.translated.len() < job.segments.len() {
                    assert(views(job.segments@)[job.translated.len() as int]
                        == job.segments[job.translated.len() as int]@);
                    Some(&job.segments[job.translated.len()])
                } else {
                    None
                }
            },
            _ => None,
        }
    }
}

} // verus!
