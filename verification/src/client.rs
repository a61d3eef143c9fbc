//! What one attempt came to: from the answer of the service to a
//! translation or a failure.

use vstd::prelude::*;
use crate::failure::{attempt_view, Body, BodyView, Failure, FailureView};
use crate::wire::{decode_translation, spec_decode_translation, text_view};

verus! {

/// What came back from one request.
#[derive(Debug, PartialEq, Eq)]
pub enum Reply {
    /// The request did not reach the service.
    Unreachable { reason: String },
    /// The service answered with this status.
    Answer { status: u16, body: Body },
}

/// A [`Reply`] as the contracts see it.
pub enum ReplyView {
    Unreachable { reason: Seq<char> },
    Answer { status: u16, body: BodyView },
}

impl View for Reply {
    type V = ReplyView;

    open spec fn view(&self) -> ReplyView {
        match self {
            Reply::Unreachable { reason } => ReplyView::Unreachable { reason: reason@ },
            Reply::Answer { status, body } => ReplyView::Answer { status: *status, body: body@ },
        }
    }
}

/// Whether `status` is an HTTP status of success: 200 to 299.
pub open spec fn spec_is_success(status: u16) -> bool {
    200 <= status && status <= 299
}

/// Whether `status` is an HTTP status of a client error: 400 to 499.
pub open spec fn spec_is_client_error(status: u16) -> bool {
    400 <= status && status <= 499
}

/// Whether `status` is an HTTP status of success.
pub fn is_success(status: u16) -> (yes: bool)
    ensures
        yes == spec_is_success(status),
{
    200 <= status && status <= 299
}

/// Whether `status` is an HTTP status of a client error.
pub fn is_client_error(status: u16) -> (yes: bool)
    ensures
        yes == spec_is_client_error(status),
{
    400 <= status && status <= 499
}

/// What an attempt with this reply came to, `decoded` being the
/// translation that the body holds, if it holds one.
///
/// A request that did not arrive, and an answer of success whose body could
/// not be read, are transport failures. An answer of success gives the
/// translation in its body, and is a decode failure if the body holds
/// none. An answer with a client error is a rejection. Any other answer is
/// a server failure.
pub open spec fn spec_classify(reply: ReplyView, decoded: Option<Seq<char>>) -> Result<
    Seq<char>,
    FailureView,
> {
    match reply {
        ReplyView::Unreachable { reason } => Err(FailureView::Transport { reason }),
        ReplyView::Answer { status, body } => if spec_is_success(status) {
            match body {
                BodyView::Unreadable(reason) => Err(FailureView::Transport { reason }),
                BodyView::Text(text) => match decoded {
                    Some(translation) => Ok(translation),
                    None => Err(FailureView::Decode { text }),
                },
            }
        } else if spec_is_client_error(status) {
            Err(FailureView::ClientRejection { status, body })
        } else {
            Err(FailureView::ServerFailure { status, body })
        },
    }
}

/// The translation that the body of `reply` holds. Only the body of an
/// answer of success is looked at.
pub open spec fn spec_decoded(reply: ReplyView) -> Option<Seq<char>> {
    match reply {
        ReplyView::Answer { status, body: BodyView::Text(text) } => if spec_is_success(status) {
            spec_decode_translation(text)
        } else {
            None
        },
        _ => None,
    }
}

/// What an attempt with this reply came to, `decoded` being the
/// translation that the body holds, if it holds one.
pub fn classify_decoded(reply: Reply, decoded: Option<String>) -> (result: Result<String, Failure>)
    ensures
        attempt_view(result) == spec_classify(reply@, text_view(decoded)),
{
    match reply {
        Reply::Unreachable { reason } => Err(Failure::Transport { reason }),
        Reply::Answer { status, body } => {
            if is_success(status) {
                match body {
                    Body::Unreadable(reason) => Err(Failure::Transport { reason }),
                    Body::Text(text) => match decoded {
                        Some(translation) => Ok(translation),
                        None => Err(Failure::Decode { text }),
                    },
                }
            } else if is_client_error(status) {
                Err(Failure::ClientRejection { status, body })
            } else {
                Err(Failure::ServerFailure { status, body })
            }
        },
    }
}

/// What an attempt with this reply came to. The body of an answer of
/// success is decoded, and no other.
pub fn classify(reply: Reply) -> (result: Result<String, Failure>)
    ensures
        attempt_view(result) == spec_classify(reply@, spec_decoded(reply@)),
{
    let decoded: Option<String> = match &reply {
        Reply::Answer { status, body: Body::Text(text) } => {
            if is_success(*status) {
                decode_translation(text.as_str())
            } else {
                None
            }
        },
        _ => None,
    };
    classify_decoded(reply, decoded)
}

/// A reply that is not an answer of success with a body is a failure,
/// whatever is taken for its translation; and a retry may mend it unless
/// the status is a client error.
pub proof fn lemma_failure_by_status(reply: ReplyView, decoded: Option<Seq<char>>)
    requires
        !(reply matches ReplyView::Answer { status, body: BodyView::Text(_) } && spec_is_success(
            status,
        )),
    ensures
        spec_classify(reply, decoded) is Err,
        spec_classify(reply, decoded) == spec_classify(reply, None),
        spec_classify(reply, decoded)->Err_0.is_retryable() <==> !(reply matches ReplyView::Answer {
            status,
            ..
        } && spec_is_client_error(status)),
{
}

} // verus!
