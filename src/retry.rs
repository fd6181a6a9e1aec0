use vstd::prelude::*;
use crate::executor::{
    attempt_begin, attempt_pending, attempt_step, answers, AttemptView, CommandAttempt, Event,
    IoView, Phase, Step, StepView,
};
use crate::response::{is_success, Outcome, OutcomeView};

verus! {

/// The attempt bound used when none is given.
pub const DEFAULT_MAX_ATTEMPTS: u64 = 5;

/// The result of sending a command with bounded retry.
#[derive(Clone, Debug, PartialEq, Eq)]
pub enum RetryResult {
    /// An attempt succeeded: the modem's `OK` or `CONNECT` line.
    Response(Vec<u8>),
    /// Every attempt failed: the command that was sent.
    RetryExhausted(Vec<u8>),
}

pub ghost enum RetryResultView {
    Response(Seq<u8>),
    RetryExhausted(Seq<u8>),
}

impl View for RetryResult {
    type V = RetryResultView;

    open spec fn view(&self) -> RetryResultView {
        match self {
            RetryResult::Response(t) => RetryResultView::Response(t@),
            RetryResult::RetryExhausted(c) => RetryResultView::RetryExhausted(c@),
        }
    }
}

/// The text that a successful outcome carries.
pub open spec fn response_text(o: OutcomeView) -> Seq<u8> {
    match o {
        OutcomeView::Success(t) => t,
        OutcomeView::Prompt(t) => t,
        _ => Seq::empty(),
    }
}

pub ghost enum RetryDecision {
    Succeed(Seq<u8>),
    Retry,
    Exhausted,
}

/// What follows an attempt that ended with `o`, after `failures` earlier
/// failed attempts, with at most `max` attempts in all.
pub open spec fn retry_after(failures: nat, max: nat, o: OutcomeView) -> RetryDecision {
    if is_success(o) {
        RetryDecision::Succeed(response_text(o))
    } else if failures + 1 < max {
        RetryDecision::Retry
    } else {
        RetryDecision::Exhausted
    }
}

/// The decision reached when the attempts end with `outcomes` in turn, after
/// `failures` failed ones; `None` while attempts remain to be made.
pub open spec fn retry_fold(failures: nat, max: nat, outcomes: Seq<OutcomeView>) -> Option<RetryDecision>
    decreases outcomes.len(),
{
    if outcomes.len() == 0 {
        None
    } else {
        match retry_after(failures, max, outcomes[0]) {
            RetryDecision::Retry => retry_fold(failures + 1, max, outcomes.skip(1)),
            d => Some(d),
        }
    }
}

/// The decision of a retrying command with bound `max` whose attempts end
/// with `outcomes` in turn (with no attempt at all when `max` is zero).
pub open spec fn retry_run(max: nat, outcomes: Seq<OutcomeView>) -> Option<RetryDecision> {
    if max == 0 {
        Some(RetryDecision::Exhausted)
    } else {
        retry_fold(0, max, outcomes)
    }
}

pub ghost struct RetryView {
    pub command: Seq<u8>,
    pub timeout_ms: u64,
    pub max_attempts: u64,
    /// Attempts that failed so far.
    pub failures: nat,
    /// The attempt in progress (or the last one).
    pub attempt: AttemptView,
    pub done: bool,
    /// The outcome of the latest failed attempt.
    pub last_failure: Option<OutcomeView>,
    /// The outcomes of the finished attempts, in order.
    pub history: Seq<OutcomeView>,
}

pub open spec fn retry_step(v: RetryView, ev: Event) -> (RetryView, StepView<RetryResultView>) {
    let (a, s) = attempt_step(v.attempt, ev);
    match s {
        StepView::Perform(io) => (RetryView { attempt: a, ..v }, StepView::Perform(io)),
        StepView::Done(o) => match retry_after(v.failures, v.max_attempts as nat, o) {
            RetryDecision::Succeed(t) => (
                RetryView { attempt: a, done: true, history: v.history.push(o), ..v },
                StepView::Done(RetryResultView::Response(t)),
            ),
            RetryDecision::Retry => (
                RetryView {
                    attempt: attempt_begin(v.command, v.timeout_ms),
                    failures: v.failures + 1,
                    last_failure: Some(o),
                    history: v.history.push(o),
                    ..v
                },
                StepView::Perform(IoView::Write(v.command)),
            ),
            RetryDecision::Exhausted => (
                RetryView {
                    attempt: a,
                    failures: v.failures + 1,
                    done: true,
                    last_failure: Some(o),
                    history: v.history.push(o),
                    ..v
                },
                StepView::Done(RetryResultView::RetryExhausted(v.command)),
            ),
        },
    }
}

/// Sends one command up to a fixed number of times, strictly one attempt
/// after another with no delay between them, until an attempt succeeds.
/// Failures of every kind count against the bound alike.
pub struct RetryingCommand {
    command: Vec<u8>,
    timeout_ms: u64,
    max_attempts: u64,
    failures: u64,
    attempt: CommandAttempt,
    done: bool,
    last_failure: Option<Outcome>,
    history: Ghost<Seq<OutcomeView>>,
}

/// The view of an optional outcome.
pub open spec fn outcome_view(o: Option<Outcome>) -> Option<OutcomeView> {
    match o {
        Some(x) => Some(x@),
        None => None,
    }
}

impl View for RetryingCommand {
    type V = RetryView;

    closed spec fn view(&self) -> RetryView {
        RetryView {
            command: self.command@,
            timeout_ms: self.timeout_ms,
            max_attempts: self.max_attempts,
            failures: self.failures as nat,
            attempt: self.attempt@,
            done: self.done,
            last_failure: outcome_view(self.last_failure),
            history: self.history@,
        }
    }
}

impl RetryingCommand {
    pub closed spec fn wf(&self) -> bool {
        !self.done ==> {
            &&& self.attempt.wf()
            &&& self.attempt@.phase != Phase::Finished
            &&& self.attempt@.command == self.command@
            &&& self.attempt@.timeout_ms == self.timeout_ms
            &&& self.failures < self.max_attempts
            &&& self.history@.len() == self.failures
            &&& forall|i: int| 0 <= i < self.history@.len() ==> !is_success(#[trigger] self.history@[i])
        }
    }

    /// The outcome of the latest failed attempt, for diagnostics.
    pub fn last_failure(&self) -> (r: &Option<Outcome>)
        ensures
            outcome_view(*r) == self@.last_failure,
    {
        &self.last_failure
    }

    /// Starts sending `command`; with a bound of zero it is exhausted at once.
    pub fn start(command: Vec<u8>, timeout_ms: u64, max_attempts: u64) -> (r: (RetryingCommand, Step<RetryResult>))
        ensures
            r.0.wf(),
            r.0@.attempt.command == r.0@.command,
            r.0@ == (RetryView {
                command: command@,
                timeout_ms,
                max_attempts,
                failures: 0,
                attempt: attempt_begin(command@, timeout_ms),
                done: max_attempts == 0,
                last_failure: None,
                history: Seq::empty(),
            }),
            r.0@.done ==> retry_run(max_attempts as nat, r.0@.history) == Some(RetryDecision::Exhausted),
            !r.0@.done ==> retry_run(max_attempts as nat, r.0@.history) == None::<RetryDecision>,
            r.1@ == if max_attempts == 0 {
                StepView::Done(RetryResultView::RetryExhausted(command@))
            } else {
                StepView::Perform(IoView::Write(command@))
            },
    {
        let copy = command.clone();
        assert(copy@ =~= command@);
        let (attempt, io) = CommandAttempt::start(copy, timeout_ms);
        let done = max_attempts == 0;
        let step = if done {
            let c = command.clone();
            assert(c@ =~= command@);
            Step::Done(RetryResult::RetryExhausted(c))
        } else {
            Step::Perform(io)
        };
        (
            RetryingCommand {
                command,
                timeout_ms,
                max_attempts,
                failures: 0,
                attempt,
                done,
                last_failure: None,
                history: Ghost(Seq::empty()),
            },
            step,
        )
    }

    /// Takes the result of the pending operation and decides what follows.
    pub fn handle(&mut self, ev: Event) -> (r: Step<RetryResult>)
        requires
            old(self).wf(),
            !old(self)@.done,
            answers(attempt_pending(old(self)@.attempt), ev),
        ensures
            final(self).wf(),
            final(self)@.attempt.command == final(self)@.command,
            (final(self)@, r@) == retry_step(old(self)@, ev),
            // The decision agrees with the attempts' outcomes so far.
            r@ matches StepView::Done(RetryResultView::Response(t)) ==> retry_run(
                old(self)@.max_attempts as nat,
                final(self)@.history,
            ) == Some(RetryDecision::Succeed(t)),
            r@ matches StepView::Done(RetryResultView::RetryExhausted(_)) ==> retry_run(
                old(self)@.max_attempts as nat,
                final(self)@.history,
            ) == Some(RetryDecision::Exhausted),
            r@ is Perform ==> retry_run(old(self)@.max_attempts as nat, final(self)@.history) == None::<
                RetryDecision,
            >,
    {
        let ghost before = self.history@;
        proof {
            lemma_retry_fold_push(0, self.max_attempts as nat, before, OutcomeView::NoData);
        }
        match self.attempt.handle(ev) {
            Step::Perform(io) => Step::Perform(io),
            Step::Done(o) => {
                proof {
                    lemma_retry_fold_push(0, self.max_attempts as nat, before, o@);
                }
                self.history = Ghost(before.push(o@));
                match o {
                    Outcome::Success(t) | Outcome::Prompt(t) => {
                        self.done = true;
                        Step::Done(RetryResult::Response(t))
                    },
                    _ => {
                        assert forall|i: int| 0 <= i < self.history@.len() implies !is_success(
                            #[trigger] self.history@[i],
                        ) by {
                            if i < before.len() {
                                assert(self.history@[i] == before[i]);
                            }
                        }
                        let c = self.command.clone();
                        assert(c@ =~= self.command@);
                        self.last_failure = Some(o);
                        if self.failures + 1 < self.max_attempts {
                            self.failures = self.failures + 1;
                            let (attempt, io) = CommandAttempt::start(c, self.timeout_ms);
                            self.attempt = attempt;
                            Step::Perform(io)
                        } else {
                            self.failures = self.failures + 1;
                            self.done = true;
                            Step::Done(RetryResult::RetryExhausted(c))
                        }
                    },
                }
            },
        }
    }
}

proof fn lemma_retry_fold_push(f: nat, max: nat, h: Seq<OutcomeView>, o: OutcomeView)
    requires
        f + h.len() < max,
        forall|i: int| 0 <= i < h.len() ==> !is_success(#[trigger] h[i]),
    ensures
        retry_fold(f, max, h) == None::<RetryDecision>,
        retry_fold(f, max, h.push(o)) == match retry_after(f + h.len(), max, o) {
            RetryDecision::Retry => None,
            d => Some(d),
        },
    decreases h.len(),
{
    let all = h.push(o);
    if h.len() == 0 {
        assert(all[0] == o);
        assert(all.skip(1) =~= Seq::<OutcomeView>::empty());
        assert(retry_fold(f + 1, max, Seq::<OutcomeView>::empty()) == None::<RetryDecision>);
    } else {
        assert(all[0] == h[0]);
        assert(!is_success(h[0]));
        assert(all.skip(1) =~= h.skip(1).push(o));
        assert forall|i: int| 0 <= i < h.skip(1).len() implies !is_success(#[trigger] h.skip(1)[i]) by {
            assert(h.skip(1)[i] == h[i + 1]);
        }
        lemma_retry_fold_push(f + 1, max, h.skip(1), o);
        assert(f + 1 + h.skip(1).len() == f + h.len());
        assert(retry_after(f, max, all[0]) == RetryDecision::Retry);
    }
}

proof fn lemma_retry_fold_budget(f: nat, max: nat, fails: Seq<OutcomeView>, win: OutcomeView)
    requires
        f < max,
        is_success(win),
        forall|i: int| 0 <= i < fails.len() ==> !is_success(#[trigger] fails[i]),
    ensures
        retry_fold(f, max, fails.push(win)) == if f + fails.len() + 1 <= max {
            Some(RetryDecision::Succeed(response_text(win)))
        } else {
            Some(RetryDecision::Exhausted)
        },
    decreases fails.len(),
{
    let all = fails.push(win);
    if fails.len() == 0 {
        assert(all[0] == win);
    } else {
        assert(all[0] == fails[0]);
        assert(!is_success(fails[0]));
        if f + 1 < max {
            assert(all.skip(1) =~= fails.skip(1).push(win));
            assert forall|i: int| 0 <= i < fails.skip(1).len() implies !is_success(
                #[trigger] fails.skip(1)[i],
            ) by {
                assert(fails.skip(1)[i] == fails[i + 1]);
            }
            lemma_retry_fold_budget(f + 1, max, fails.skip(1), win);
        }
    }
}

/// When the first `k` attempts fail and the next one would succeed, the
/// retrying command succeeds with that response exactly when `k + 1` attempts
/// fit the bound, and is exhausted otherwise.
pub proof fn lemma_retry_budget(max: nat, fails: Seq<OutcomeView>, win: OutcomeView)
    requires
        is_success(win),
        forall|i: int| 0 <= i < fails.len() ==> !is_success(#[trigger] fails[i]),
    ensures
        fails.len() + 1 <= max ==> retry_run(max, fails.push(win)) == Some(
            RetryDecision::Succeed(response_text(win)),
        ),
        fails.len() + 1 > max ==> retry_run(max, fails.push(win)) == Some(RetryDecision::Exhausted),
{
    if max > 0 {
        lemma_retry_fold_budget(0, max, fails, win);
    }
}

} // verus!
