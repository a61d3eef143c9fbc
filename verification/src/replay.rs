//! A translation call run against a script of attempt results.
//!
//! This is the retry policy at work without a network: the results that the
//! attempts would have had are given in order, and the run says where the
//! call ends, how many attempts it made and how long it waited before each
//! retry.

use vstd::prelude::*;
use crate::failure::{attempt_view, Failure, FailureView, TranslateErrorView};
use crate::retry::{spec_step, step, CallState, CallStateView, Event, EventView, RetryPolicy};

verus! {

/// What a run came to.
#[derive(Debug, PartialEq, Eq)]
pub struct Run {
    /// Where the call stands at the end of the run.
    pub state: CallState,
    /// The number of attempts made.
    pub attempts: usize,
    /// The waits before the retries, in seconds, in order.
    pub delays: Vec<u64>,
}

/// A [`Run`] as the contracts see it.
pub struct RunView {
    pub state: CallStateView,
    pub attempts: nat,
    pub delays: Seq<u64>,
}

impl View for Run {
    type V = RunView;

    open spec fn view(&self) -> RunView {
        RunView { state: self.state@, attempts: self.attempts as nat, delays: self.delays@ }
    }
}

/// A script as the contracts see it.
pub open spec fn script_view(script: Seq<Result<String, Failure>>) -> Seq<
    Result<Seq<char>, FailureView>,
> {
    script.map_values(|result: Result<String, Failure>| attempt_view(result))
}

/// Where a call that stands at `state` ends when its attempts have the
/// results of `script`, in order. The run ends with the call, or when the
/// script has no result left for an attempt that is due; a wait is over at
/// once.
pub open spec fn spec_replay(
    policy: RetryPolicy,
    state: CallStateView,
    script: Seq<Result<Seq<char>, FailureView>>,
) -> RunView
    decreases script.len(),
{
    if state is Attempting && script.len() > 0 {
        let next = spec_step(policy, state, EventView::Attempted(script[0]));
        if let CallStateView::Waiting { delay_secs, .. } = next {
            let later = spec_replay(
                policy,
                spec_step(policy, next, EventView::Waited),
                script.skip(1),
            );
            RunView {
                state: later.state,
                attempts: later.attempts + 1,
                delays: seq![delay_secs] + later.delays,
            }
        } else {
            RunView { state: next, attempts: 1, delays: Seq::empty() }
        }
    } else {
        RunView { state, attempts: 0, delays: Seq::empty() }
    }
}

/// Whether the first `n` results of `script` are failures that a retry may
/// mend.
pub open spec fn retryable_until(script: Seq<Result<Seq<char>, FailureView>>, n: nat) -> bool {
    forall|i: int|
        0 <= i < n ==> (#[trigger] script[i]) is Err && script[i]->Err_0.is_retryable()
}

/// The waits before retries `first + 1` to `first + n`.
pub open spec fn waits(policy: RetryPolicy, first: nat, n: nat) -> Seq<u64> {
    Seq::new(n, |i: int| policy.delay((first + i + 1) as nat) as u64)
}

/// A call whose first `n` attempts fail in a way that a retry may mend,
/// while retries are left, reaches its attempt number `first + n` after
/// waiting before each of these retries.
proof fn lemma_replay_retries(
    policy: RetryPolicy,
    first: u32,
    script: Seq<Result<Seq<char>, FailureView>>,
    n: nat,
)
    requires
        n <= script.len(),
        first + n <= policy.retries(),
        retryable_until(script, n),
    ensures
        ({
            let run = spec_replay(policy, CallStateView::Attempting { attempt: first }, script);
            let rest = spec_replay(
                policy,
                CallStateView::Attempting { attempt: (first + n) as u32 },
                script.skip(n as int),
            );
            &&& run.state == rest.state
            &&& run.attempts == n + rest.attempts
            &&& run.delays == waits(policy, first as nat, n) + rest.delays
        }),
    decreases n,
{
    let run = spec_replay(policy, CallStateView::Attempting { attempt: first }, script);
    if n == 0 {
        assert(script.skip(0) =~= script);
        assert(waits(policy, first as nat, 0) + run.delays =~= run.delays);
    } else {
        let tail = script.skip(1);
        assert(script[0] is Err && script[0]->Err_0.is_retryable());
        assert forall|i: int| 0 <= i < n - 1 implies (#[trigger] tail[i]) is Err
            && tail[i]->Err_0.is_retryable() by {
            assert(tail[i] == script[i + 1]);
        }
        lemma_replay_retries(policy, (first + 1) as u32, tail, (n - 1) as nat);
        assert(tail.skip(n - 1) =~= script.skip(n as int));
        let rest = spec_replay(
            policy,
            CallStateView::Attempting { attempt: (first + n) as u32 },
            script.skip(n as int),
        );
        assert(seq![policy.delay((first + 1) as nat) as u64] + (waits(
            policy,
            (first + 1) as nat,
            (n - 1) as nat,
        ) + rest.delays) =~= waits(policy, first as nat, n) + rest.delays);
    }
}

/// A translation after `n` failures that a retry may mend, `n` being no
/// more than the retries allowed, ends the call in success with that
/// translation, after `n + 1` attempts and the waits before retries 1 to
/// `n`. What the script holds behind the translation is not used.
pub proof fn lemma_success_after_retries(
    policy: RetryPolicy,
    script: Seq<Result<Seq<char>, FailureView>>,
    n: nat,
)
    requires
        n < script.len(),
        n <= policy.retries(),
        retryable_until(script, n),
        script[n as int] is Ok,
    ensures
        spec_replay(policy, CallStateView::start(), script) == (RunView {
            state: CallStateView::Succeeded { text: script[n as int]->Ok_0 },
            attempts: n + 1,
            delays: waits(policy, 0, n),
        }),
{
    lemma_replay_retries(policy, 0, script, n);
    assert(script.skip(n as int)[0] == script[n as int]);
    assert(waits(policy, 0, n) + Seq::<u64>::empty() =~= waits(policy, 0, n));
}

/// A failure that no retry can mend, after `n` failures that a retry may
/// mend, `n` being no more than the retries allowed, ends the call at once:
/// it fails with that failure after `n + 1` attempts and the waits before
/// retries 1 to `n`, and no further attempt is made.
pub proof fn lemma_terminal_failure_ends_call(
    policy: RetryPolicy,
    script: Seq<Result<Seq<char>, FailureView>>,
    n: nat,
)
    requires
        n < script.len(),
        n <= policy.retries(),
        retryable_until(script, n),
        script[n as int] is Err,
        !script[n as int]->Err_0.is_retryable(),
    ensures
        spec_replay(policy, CallStateView::start(), script) == (RunView {
            state: CallStateView::Failed {
                error: TranslateErrorView::ClientError(script[n as int]->Err_0),
            },
            attempts: n + 1,
            delays: waits(policy, 0, n),
        }),
{
    lemma_replay_retries(policy, 0, script, n);
    assert(script.skip(n as int)[0] == script[n as int]);
    assert(waits(policy, 0, n) + Seq::<u64>::empty() =~= waits(policy, 0, n));
}

/// Where the first attempt and every retry allowed fail in a way that a
/// retry may mend, the call fails with the last of these failures, after
/// one attempt more than the retries allowed and the wait before each
/// retry.
pub proof fn lemma_retries_exhausted(
    policy: RetryPolicy,
    script: Seq<Result<Seq<char>, FailureView>>,
)
    requires
        policy.retries() < script.len(),
        retryable_until(script, (policy.retries() + 1) as nat),
    ensures
        spec_replay(policy, CallStateView::start(), script) == (RunView {
            state: CallStateView::Failed {
                error: TranslateErrorView::RetriesExhausted(
                    script[policy.retries() as int]->Err_0,
                ),
            },
            attempts: (policy.retries() + 1) as nat,
            delays: waits(policy, 0, policy.retries() as nat),
        }),
{
    let n = policy.retries() as nat;
    lemma_replay_retries(policy, 0, script, n);
    assert(script.skip(n as int)[0] == script[n as int]);
    assert(waits(policy, 0, n) + Seq::<u64>::empty() =~= waits(policy, 0, n));
}

/// No call makes more attempts than one more than the retries allowed, nor
/// more than the script has results, and it waits once before each attempt
/// but the first.
pub proof fn lemma_attempts_bounded(
    policy: RetryPolicy,
    first: u32,
    script: Seq<Result<Seq<char>, FailureView>>,
)
    requires
        first <= policy.retries(),
    ensures
        spec_replay(policy, CallStateView::Attempting { attempt: first }, script).attempts
            <= policy.retries() + 1 - first,
        spec_replay(policy, CallStateView::Attempting { attempt: first }, script).attempts
            <= script.len(),
        spec_replay(policy, CallStateView::Attempting { attempt: first }, script).delays.len()
            <= policy.retries() - first,
    decreases script.len(),
{
    let state = CallStateView::Attempting { attempt: first };
    if script.len() > 0 {
        let next = spec_step(policy, state, EventView::Attempted(script[0]));
        if next is Waiting {
            lemma_attempts_bounded(policy, (first + 1) as u32, script.skip(1));
        }
    }
}

/// Runs a call from its start against `script`.
#[verifier::loop_isolation(false)]
pub fn replay(policy: &RetryPolicy, script: Vec<Result<String, Failure>>) -> (run: Run)
    ensures
        run@ == spec_replay(*policy, CallStateView::start(), script_view(script@)),
{
    let ghost whole = spec_replay(*policy, CallStateView::start(), script_view(script@));
    let mut left: Vec<Result<String, Failure>> = script;
    let mut state: CallState = CallState::start();
    let mut attempts: usize = 0;
    let mut delays: Vec<u64> = Vec::new();
    proof {
        assert(delays@ + whole.delays =~= whole.delays);
    }
    while left.len() > 0
        invariant
            ({
                let rest = spec_replay(*policy, state@, script_view(left@));
                &&& whole.state == rest.state
                &&& whole.attempts == attempts + rest.attempts
                &&& whole.delays == delays@ + rest.delays
            }),
            attempts + left.len() <= usize::MAX,
        decreases left.len(),
    {
        let ghost before = left@;
        let ghost waited = delays@;
        match state {
            CallState::Attempting { attempt } => {
                let result: Result<String, Failure> = left.remove(0);
                proof {
                    assert(left@ =~= before.skip(1));
                    assert(script_view(left@) =~= script_view(before).skip(1));
                    assert(script_view(before)[0] == attempt_view(result));
                }
                let next: CallState = step(
                    policy,
                    CallState::Attempting { attempt },
                    Event::Attempted(result),
                );
                attempts = attempts + 1;
                match next {
                    CallState::Waiting { attempt: due, delay_secs, cause } => {
                        delays.push(delay_secs);
                        state =
                        step(
                            policy,
                            CallState::Waiting { attempt: due, delay_secs, cause },
                            Event::Waited,
                        );
                        proof {
                            let later = spec_replay(*policy, state@, script_view(left@));
                            assert(delays@ + later.delays =~= waited + (seq![delay_secs]
                                + later.delays));
                        }
                    },
                    other => {
                        proof {
                            assert(delays@ + Seq::<u64>::empty() =~= delays@);
                        }
                        return Run { state: other, attempts, delays };
                    },
                }
            },
            other => {
                proof {
                    assert(delays@ + Seq::<u64>::empty() =~= delays@);
                }
                return Run { state: other, attempts, delays };
            },
        }
    }
    proof {
        assert(delays@ + Seq::<u64>::empty() =~= delays@);
    }
    Run { state, attempts, delays }
}

} // verus!
