//! The retry policy of one translation call, as a state machine.
//!
//! A call makes an attempt, and the attempt's result decides what follows:
//! a translation ends the call in success, a failure that a retry cannot
//! mend ends it at once, and any other failure is followed by a wait and
//! another attempt, until the retries are used up. The wait before retry
//! `n` is the base delay times two to the `n`.
//!
//! The machine performs nothing itself. Whoever runs it makes the attempts
//! and does the waiting, and reports each as an [`Event`].

use vstd::prelude::*;
use vstd::arithmetic::power2::{lemma2_to64, lemma_pow2_pos, lemma_pow2_unfold, pow2};
use vstd::pervasive::unreached;
use crate::failure::{attempt_view, Failure, FailureView, TranslateError, TranslateErrorView};

verus! {

/// What the machine is told.
#[derive(Debug, PartialEq, Eq)]
pub enum Event {
    /// An attempt was made, with this result.
    Attempted(Result<String, Failure>),
    /// The wait is over.
    Waited,
}

/// An [`Event`] as the contracts see it.
pub enum EventView {
    Attempted(Result<Seq<char>, FailureView>),
    Waited,
}

impl View for Event {
    type V = EventView;

    open spec fn view(&self) -> EventView {
        match self {
            Event::Attempted(result) => EventView::Attempted(attempt_view(*result)),
            Event::Waited => EventView::Waited,
        }
    }
}

/// Where a translation call stands.
#[derive(Debug, PartialEq, Eq)]
pub enum CallState {
    /// Attempt number `attempt` is to be made; the first has number 0.
    Attempting { attempt: u32 },
    /// `delay_secs` seconds are to pass before attempt number `attempt`,
    /// because of `cause`.
    Waiting { attempt: u32, delay_secs: u64, cause: Failure },
    /// The call has ended with a translation.
    Succeeded { text: String },
    /// The call has ended without one.
    Failed { error: TranslateError },
}

/// A [`CallState`] as the contracts see it.
pub enum CallStateView {
    Attempting { attempt: u32 },
    Waiting { attempt: u32, delay_secs: u64, cause: FailureView },
    Succeeded { text: Seq<char> },
    Failed { error: TranslateErrorView },
}

impl View for CallState {
    type V = CallStateView;

    open spec fn view(&self) -> CallStateView {
        match self {
            CallState::Attempting { attempt } => CallStateView::Attempting { attempt: *attempt },
            CallState::Waiting { attempt, delay_secs, cause } => CallStateView::Waiting {
                attempt: *attempt,
                delay_secs: *delay_secs,
                cause: cause@,
            },
            CallState::Succeeded { text } => CallStateView::Succeeded { text: text@ },
            CallState::Failed { error } => CallStateView::Failed { error: error@ },
        }
    }
}

impl CallStateView {
    /// The state of a call before its first attempt.
    pub open spec fn start() -> CallStateView {
        CallStateView::Attempting { attempt: 0 }
    }

    /// Whether the call has ended.
    pub open spec fn is_finished(self) -> bool {
        self is Succeeded || self is Failed
    }
}

/// How many retries a call may make, and the delay that the waits are
/// computed from. The longest wait fits in a `u64`.
#[derive(Debug, Clone, Copy, PartialEq, Eq)]
pub struct RetryPolicy {
    max_retries: u32,
    base_delay_secs: u64,
}

/// The wait before retry number `attempt`, in seconds: `base` times two to
/// the `attempt`.
pub open spec fn backoff(base: nat, attempt: nat) -> nat {
    base * pow2(attempt)
}

/// A later retry waits at least as long as an earlier one.
pub proof fn lemma_backoff_grows(base: nat, earlier: nat, later: nat)
    requires
        earlier <= later,
    ensures
        backoff(base, earlier) <= backoff(base, later),
    decreases later,
{
    if earlier < later {
        let before = (later - 1) as nat;
        lemma_backoff_grows(base, earlier, before);
        lemma_pow2_unfold(later);
        lemma_pow2_pos(before);
        assert(base * pow2(before) <= base * (2 * pow2(before))) by (nonlinear_arith)
            requires
                pow2(before) > 0,
        ;
    }
}

/// Each retry waits twice as long as the one before it.
pub proof fn lemma_backoff_doubles(base: nat, attempt: nat)
    ensures
        backoff(base, attempt + 1) == 2 * backoff(base, attempt),
{
    lemma_pow2_unfold(attempt + 1);
    assert(base * (2 * pow2(attempt)) == 2 * (base * pow2(attempt))) by (nonlinear_arith);
}

impl RetryPolicy {
    /// The number of retries that may follow the first attempt.
    pub closed spec fn retries(self) -> u32 {
        self.max_retries
    }

    /// The delay that the waits are computed from, in seconds.
    pub closed spec fn base(self) -> u64 {
        self.base_delay_secs
    }

    /// The wait before retry number `attempt`, in seconds.
    pub open spec fn delay(self, attempt: nat) -> nat {
        backoff(self.base() as nat, attempt)
    }

    /// Whether the wait before the last retry fits in a `u64`.
    pub open spec fn well_formed(self) -> bool {
        self.delay(self.retries() as nat) <= u64::MAX
    }

    #[verifier::type_invariant]
    spec fn longest_wait_fits(self) -> bool {
        self.well_formed()
    }

    /// The policy with these numbers, unless its longest wait would not fit
    /// in a `u64`.
    pub fn new(max_retries: u32, base_delay_secs: u64) -> (policy: Option<RetryPolicy>)
        ensures
            policy is Some <==> backoff(base_delay_secs as nat, max_retries as nat) <= u64::MAX,
            policy matches Some(p) ==> p.retries() == max_retries && p.base() == base_delay_secs
                && p.well_formed(),
    {
        match doubled(base_delay_secs, max_retries) {
            Some(_) => Some(RetryPolicy { max_retries, base_delay_secs }),
            None => None,
        }
    }

    /// Three retries, and waits computed from 30 seconds: 60, 120 and 240
    /// seconds.
    pub fn standard() -> (policy: RetryPolicy)
        ensures
            policy.retries() == 3,
            policy.base() == 30,
            policy.well_formed(),
    {
        proof {
            lemma_standard_delays();
        }
        RetryPolicy { max_retries: 3, base_delay_secs: 30 }
    }

    /// The number of retries that may follow the first attempt.
    pub fn max_retries(&self) -> (n: u32)
        ensures
            n == self.retries(),
    {
        self.max_retries
    }

    /// The delay that the waits are computed from, in seconds.
    pub fn base_delay_secs(&self) -> (secs: u64)
        ensures
            secs == self.base(),
    {
        self.base_delay_secs
    }

    /// The wait before retry number `attempt`, in seconds, if it fits in a
    /// `u64`; it does for every retry that the policy allows.
    pub fn delay_secs(&self, attempt: u32) -> (secs: Option<u64>)
        ensures
            attempt <= self.retries() ==> secs is Some,
            (match secs {
                Some(d) => d == self.delay(attempt as nat),
                None => self.delay(attempt as nat) > u64::MAX,
            }),
    {
        proof {
            use_type_invariant(self);
            if attempt <= self.retries() {
                lemma_backoff_grows(self.base() as nat, attempt as nat, self.retries() as nat);
            }
        }
        doubled(self.base_delay_secs, attempt)
    }
}

/// The waits of the standard policy.
pub proof fn lemma_standard_delays()
    ensures
        backoff(30, 1) == 60,
        backoff(30, 2) == 120,
        backoff(30, 3) == 240,
{
    lemma_backoff_doubles(30, 0);
    lemma_backoff_doubles(30, 1);
    lemma_backoff_doubles(30, 2);
    assert(pow2(0) == 1) by {
        lemma2_to64();
    }
}

/// `base` doubled `times` times, if that fits in a `u64`.
fn doubled(base: u64, times: u32) -> (product: Option<u64>)
    ensures
        (match product {
            Some(d) => d == backoff(base as nat, times as nat),
            None => backoff(base as nat, times as nat) > u64::MAX,
        }),
{
    let mut d: u64 = base;
    let mut i: u32 = 0;
    proof {
        assert(pow2(0) == 1) by {
            lemma2_to64();
        }
    }
    while i < times
        invariant
            i <= times,
            d == backoff(base as nat, i as nat),
        decreases times - i,
    {
        proof {
            lemma_backoff_doubles(base as nat, i as nat);
        }
        match d.checked_mul(2) {
            Some(twice) => {
                d = twice;
            },
            None => {
                proof {
                    lemma_backoff_grows(base as nat, (i + 1) as nat, times as nat);
                }
                return None;
            },
        }
        i = i + 1;
    }
    Some(d)
}

/// The state that follows `state` on `event`.
///
/// A translation ends the call in success. A failure that no retry can
/// mend ends it at once. Another failure is followed by a wait if a retry
/// is left, and ends the call if none is. When the wait is over the next
/// attempt is due. An event that does not fit the state changes nothing.
pub open spec fn spec_step(
    policy: RetryPolicy,
    state: CallStateView,
    event: EventView,
) -> CallStateView {
    match state {
        CallStateView::Attempting { attempt } => match event {
            EventView::Attempted(Ok(text)) => CallStateView::Succeeded { text },
            EventView::Attempted(Err(failure)) => if !failure.is_retryable() {
                CallStateView::Failed { error: TranslateErrorView::ClientError(failure) }
            } else if attempt < policy.retries() {
                CallStateView::Waiting {
                    attempt: (attempt + 1) as u32,
                    delay_secs: policy.delay((attempt + 1) as nat) as u64,
                    cause: failure,
                }
            } else {
                CallStateView::Failed { error: TranslateErrorView::RetriesExhausted(failure) }
            },
            EventView::Waited => state,
        },
        CallStateView::Waiting { attempt, .. } => match event {
            EventView::Waited => CallStateView::Attempting { attempt },
            EventView::Attempted(_) => state,
        },
        _ => state,
    }
}

impl CallState {
    /// The state of a call before its first attempt.
    pub fn start() -> (state: CallState)
        ensures
            state@ == CallStateView::start(),
    {
        CallState::Attempting { attempt: 0 }
    }

    /// Whether the call has ended.
    pub fn finished(&self) -> (yes: bool)
        ensures
            yes == self@.is_finished(),
    {
        match self {
            CallState::Succeeded { .. } => true,
            CallState::Failed { .. } => true,
            _ => false,
        }
    }
}

/// The state that follows `state` on `event`.
pub fn step(policy: &RetryPolicy, state: CallState, event: Event) -> (next: CallState)
    ensures
        next@ == spec_step(*policy, state@, event@),
{
    match state {
        CallState::Attempting { attempt } => match event {
            Event::Attempted(Ok(text)) => CallState::Succeeded { text },
            Event::Attempted(Err(failure)) => {
                if !failure.retryable() {
                    CallState::Failed { error: TranslateError::ClientError(failure) }
                } else if attempt < policy.max_retries() {
                    let delay_secs: u64 = match policy.delay_secs(attempt + 1) {
                        Some(secs) => secs,
                        None => unreached(),
                    };
                    CallState::Waiting { attempt: attempt + 1, delay_secs, cause: failure }
                } else {
                    CallState::Failed { error: TranslateError::RetriesExhausted(failure) }
                }
            },
            Event::Waited => CallState::Attempting { attempt },
        },
        CallState::Waiting { attempt, delay_secs, cause } => match event {
            Event::Waited => CallState::Attempting { attempt },
            Event::Attempted(_) => CallState::Waiting { attempt, delay_secs, cause },
        },
        CallState::Succeeded { text } => CallState::Succeeded { text },
        CallState::Failed { error } => CallState::Failed { error },
    }
}

} // verus!
