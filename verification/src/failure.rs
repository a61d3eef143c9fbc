//! The ways in which an attempt and a whole translation call can fail.

use vstd::prelude::*;

verus! {

/// The body of an answer: its text, or the reason why it could not be read.
#[derive(Debug, PartialEq, Eq)]
pub enum Body {
    Text(String),
    Unreadable(String),
}

/// A [`Body`] as the contracts see it.
pub enum BodyView {
    Text(Seq<char>),
    Unreadable(Seq<char>),
}

impl View for Body {
    type V = BodyView;

    open spec fn view(&self) -> BodyView {
        match self {
            Body::Text(text) => BodyView::Text(text@),
            Body::Unreadable(reason) => BodyView::Unreadable(reason@),
        }
    }
}

/// What went wrong in one attempt.
#[derive(Debug, PartialEq, Eq)]
pub enum Failure {
    /// The service could not be reached, or its answer could not be read.
    Transport { reason: String },
    /// The service answered with success, but the body is not a translation.
    Decode { text: String },
    /// The service rejected the request.
    ClientRejection { status: u16, body: Body },
    /// The service failed, or answered with a status that is neither
    /// success nor a rejection.
    ServerFailure { status: u16, body: Body },
}

/// A [`Failure`] as the contracts see it.
pub enum FailureView {
    Transport { reason: Seq<char> },
    Decode { text: Seq<char> },
    ClientRejection { status: u16, body: BodyView },
    ServerFailure { status: u16, body: BodyView },
}

impl View for Failure {
    type V = FailureView;

    open spec fn view(&self) -> FailureView {
        match self {
            Failure::Transport { reason } => FailureView::Transport { reason: reason@ },
            Failure::Decode { text } => FailureView::Decode { text: text@ },
            Failure::ClientRejection { status, body } => FailureView::ClientRejection {
                status: *status,
                body: body@,
            },
            Failure::ServerFailure { status, body } => FailureView::ServerFailure {
                status: *status,
                body: body@,
            },
        }
    }
}

impl FailureView {
    /// Whether another attempt may mend the failure: the service was not
    /// reached, or it failed. A rejection and a body that is no translation
    /// stay what they are.
    pub open spec fn is_retryable(self) -> bool {
        self is Transport || self is ServerFailure
    }
}

impl Failure {
    /// Whether another attempt may mend the failure.
    pub fn retryable(&self) -> (yes: bool)
        ensures
            yes == self@.is_retryable(),
    {
        match self {
            Failure::Transport { .. } => true,
            Failure::ServerFailure { .. } => true,
            Failure::Decode { .. } => false,
            Failure::ClientRejection { .. } => false,
        }
    }
}

/// Why a translation call failed.
#[derive(Debug, PartialEq, Eq)]
pub enum TranslateError {
    /// An attempt failed in a way that no retry can mend.
    ClientError(Failure),
    /// Every attempt failed; the failure is that of the last one.
    RetriesExhausted(Failure),
}

/// A [`TranslateError`] as the contracts see it.
pub enum TranslateErrorView {
    ClientError(FailureView),
    RetriesExhausted(FailureView),
}

impl View for TranslateError {
    type V = TranslateErrorView;

    open spec fn view(&self) -> TranslateErrorView {
        match self {
            TranslateError::ClientError(failure) => TranslateErrorView::ClientError(failure@),
            TranslateError::RetriesExhausted(failure) => TranslateErrorView::RetriesExhausted(
                failure@,
            ),
        }
    }
}

/// The result of one attempt as the contracts see it: the translation, or
/// the failure.
pub open spec fn attempt_view(result: Result<String, Failure>) -> Result<Seq<char>, FailureView> {
    match result {
        Ok(text) => Ok(text@),
        Err(failure) => Err(failure@),
    }
}

/// The result of a translation call as the contracts see it.
pub open spec fn call_view(result: Result<String, TranslateError>) -> Result<
    Seq<char>,
    TranslateErrorView,
> {
    match result {
        Ok(text) => Ok(text@),
        Err(error) => Err(error@),
    }
}

} // verus!
