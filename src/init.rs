use vstd::prelude::*;
use crate::executor::{
    attempt_begin, attempt_pending, attempt_step, answers, AttemptView, CommandAttempt, Event, Io,
    IoView, Phase, Step, StepView,
};
use crate::response::{contains, contains_bytes, is_success, ok_text, Outcome, OutcomeView};
use crate::retry::{
    response_text, retry_step, RetryResult, RetryResultView, RetryView, RetryingCommand,
    DEFAULT_MAX_ATTEMPTS,
};

verus! {

/// Per-attempt read timeout of every initialization command.
pub const COMMAND_TIMEOUT_MS: u64 = 1000;

/// Pause after each initialization step before the next.
pub const SETTLE_MS: u64 = 200;

/// `AT`, the wake probe.
pub open spec fn at_command() -> Seq<u8> {
    seq![0x41u8, 0x54u8, 0x0du8]
}

/// `AT+CSQ`, the signal quality query.
pub open spec fn csq_command() -> Seq<u8> {
    seq![0x41u8, 0x54u8, 0x2bu8, 0x43u8, 0x53u8, 0x51u8, 0x0du8]
}

/// `ATE0`, which turns command echo off.
pub open spec fn echo_off_command() -> Seq<u8> {
    seq![0x41u8, 0x54u8, 0x45u8, 0x30u8, 0x0du8]
}

/// `ATD*99##`, which dials the packet data call.
pub open spec fn dial_command() -> Seq<u8> {
    seq![0x41u8, 0x54u8, 0x44u8, 0x2au8, 0x39u8, 0x39u8, 0x23u8, 0x23u8, 0x0du8]
}

/// `AT+CGDCONT=1,"IP","<apn>"`, which defines the packet context.
pub open spec fn context_command(apn: Seq<u8>) -> Seq<u8> {
    seq![0x41u8, 0x54u8, 0x2bu8, 0x43u8, 0x47u8, 0x44u8, 0x43u8, 0x4fu8, 0x4eu8, 0x54u8, 0x3du8, 0x31u8, 0x2cu8, 0x22u8, 0x49u8, 0x50u8, 0x22u8, 0x2cu8, 0x22u8] + apn + seq![0x22u8, 0x0du8]
}

/// The command of step `step` of the sequence proper, `1..=4`.
pub open spec fn init_command_spec(step: nat, apn: Seq<u8>) -> Seq<u8> {
    if step == 1 {
        csq_command()
    } else if step == 2 {
        echo_off_command()
    } else if step == 3 {
        context_command(apn)
    } else {
        dial_command()
    }
}

/// How the initialization sequence ended.
#[derive(Clone, Debug, PartialEq, Eq)]
pub enum InitResult {
    /// Every step succeeded: the modem is in data mode.
    Ready,
    /// The modem did not answer the wake probe within its bound.
    WakeExhausted,
    /// A step exhausted its attempts: the offending command.
    RetryExhausted(Vec<u8>),
}

pub ghost enum InitResultView {
    Ready,
    WakeExhausted,
    RetryExhausted(Seq<u8>),
}

impl View for InitResult {
    type V = InitResultView;

    open spec fn view(&self) -> InitResultView {
        match self {
            InitResult::Ready => InitResultView::Ready,
            InitResult::WakeExhausted => InitResultView::WakeExhausted,
            InitResult::RetryExhausted(c) => InitResultView::RetryExhausted(c@),
        }
    }
}

pub ghost enum StageView {
    /// Probing with `AT`; the count of probes that failed so far.
    Waking(AttemptView, u64),
    /// Running step `1..=4` with retry.
    Running(nat, RetryView),
    /// Settling after step `0..=4` (step 0 is the wake).
    Settling(nat),
    Finished,
}

pub ghost struct InitView {
    pub apn: Seq<u8>,
    /// At most this many wake probes; none means probe without end.
    pub wake_limit: Option<u64>,
    pub stage: StageView,
}

/// A wake probe succeeded with a line containing `OK`.
pub open spec fn wake_ok(o: OutcomeView) -> bool {
    is_success(o) && contains(response_text(o), ok_text())
}

/// `tries` failed probes use up the wake bound.
pub open spec fn wake_spent(limit: Option<u64>, tries: u64) -> bool {
    match limit {
        Some(l) => tries >= l,
        None => false,
    }
}

pub open spec fn next_count(t: u64) -> u64 {
    if t == u64::MAX { t } else { (t + 1) as u64 }
}

/// A fresh retrying command for one initialization step.
pub open spec fn retry_begin(command: Seq<u8>) -> RetryView {
    RetryView {
        command,
        timeout_ms: COMMAND_TIMEOUT_MS,
        max_attempts: DEFAULT_MAX_ATTEMPTS,
        failures: 0,
        attempt: attempt_begin(command, COMMAND_TIMEOUT_MS),
        done: false,
        last_failure: None,
        history: Seq::empty(),
    }
}

/// The operation an unfinished sequence waits on.
pub open spec fn init_pending(v: InitView) -> IoView {
    match v.stage {
        StageView::Waking(a, _) => attempt_pending(a),
        StageView::Running(_, r) => attempt_pending(r.attempt),
        StageView::Settling(_) => IoView::Sleep(SETTLE_MS),
        StageView::Finished => IoView::Flush,
    }
}

/// The sequence: probe with `AT` until a probe succeeds with `OK`, then run
/// `AT+CSQ`, `ATE0`, `AT+CGDCONT` and `ATD*99##` one after another with
/// retry, each step followed by a settle delay. The first step that exhausts
/// its attempts ends the sequence, and no later command is sent.
pub open spec fn init_step(v: InitView, ev: Event) -> (InitView, StepView<InitResultView>) {
    match v.stage {
        StageView::Waking(a, tries) => {
            let (a2, s) = attempt_step(a, ev);
            match s {
                StepView::Perform(io) => (
                    InitView { stage: StageView::Waking(a2, tries), ..v },
                    StepView::Perform(io),
                ),
                StepView::Done(o) => if wake_ok(o) {
                    (InitView { stage: StageView::Settling(0), ..v }, StepView::Perform(IoView::Sleep(SETTLE_MS)))
                } else if wake_spent(v.wake_limit, next_count(tries)) {
                    (InitView { stage: StageView::Finished, ..v }, StepView::Done(InitResultView::WakeExhausted))
                } else {
                    (
                        InitView {
                            stage: StageView::Waking(attempt_begin(at_command(), COMMAND_TIMEOUT_MS), next_count(tries)),
                            ..v
                        },
                        StepView::Perform(IoView::Write(at_command())),
                    )
                },
            }
        },
        StageView::Running(i, r) => {
            let (r2, s) = retry_step(r, ev);
            match s {
                StepView::Perform(io) => (
                    InitView { stage: StageView::Running(i, r2), ..v },
                    StepView::Perform(io),
                ),
                StepView::Done(RetryResultView::Response(_)) => (
                    InitView { stage: StageView::Settling(i), ..v },
                    StepView::Perform(IoView::Sleep(SETTLE_MS)),
                ),
                StepView::Done(RetryResultView::RetryExhausted(c)) => (
                    InitView { stage: StageView::Finished, ..v },
                    StepView::Done(InitResultView::RetryExhausted(c)),
                ),
            }
        },
        StageView::Settling(i) => if i >= 4 {
            (InitView { stage: StageView::Finished, ..v }, StepView::Done(InitResultView::Ready))
        } else {
            let c = init_command_spec(i + 1, v.apn);
            (
                InitView { stage: StageView::Running(i + 1, retry_begin(c)), ..v },
                StepView::Perform(IoView::Write(c)),
            )
        },
        StageView::Finished => (v, StepView::Perform(IoView::Flush)),
    }
}

/// The stages hold the commands their steps send.
pub open spec fn init_consistent(v: InitView) -> bool {
    match v.stage {
        StageView::Waking(a, _) => a.command == at_command(),
        StageView::Running(i, r) => 1 <= i <= 4 && r.command == init_command_spec(i, v.apn)
            && r.attempt.command == r.command,
        StageView::Settling(i) => i <= 4,
        StageView::Finished => true,
    }
}

proof fn lemma_only_dial_is_dial(i: nat, apn: Seq<u8>)
    requires
        1 <= i <= 3,
    ensures
        init_command_spec(i, apn) != dial_command(),
        at_command() != dial_command(),
{
    assert(at_command().len() != dial_command().len());
    if i == 3 {
        assert(context_command(apn)[2] != dial_command()[2]);
    } else if i == 1 {
        assert(csq_command().len() != dial_command().len());
    } else {
        assert(echo_off_command().len() != dial_command().len());
    }
}

/// The dial command is written only by the dial step itself or when the
/// context step has settled, and the context step settles only after its
/// command got a response; a sequence whose context step is exhausted ends
/// there, so it never dials.
pub proof fn lemma_dial_only_after_context(v: InitView, ev: Event)
    requires
        init_consistent(v),
    ensures
        init_step(v, ev).1 == StepView::<InitResultView>::Perform(IoView::Write(dial_command()))
            ==> v.stage == StageView::Settling(3) || (v.stage is Running && v.stage->Running_0 == 4),
        init_step(v, ev).0.stage == StageView::Settling(3) ==> v.stage == StageView::Settling(3) || (
        v.stage is Running && v.stage->Running_0 == 3 && retry_step(v.stage->Running_1, ev).1 is Done
            && retry_step(v.stage->Running_1, ev).1->Done_0 is Response),
        (v.stage is Running && v.stage->Running_0 == 3 && retry_step(v.stage->Running_1, ev).1 is Done
            && retry_step(v.stage->Running_1, ev).1->Done_0 is RetryExhausted) ==> init_step(
            v,
            ev,
        ).0.stage == StageView::Finished,
{
    match v.stage {
        StageView::Running(i, r) => {
            if i < 4 {
                lemma_only_dial_is_dial(i, v.apn);
            }
        },
        StageView::Settling(i) => {
            if i < 3 {
                lemma_only_dial_is_dial(i + 1, v.apn);
            }
        },
        StageView::Waking(_, _) => {
            lemma_only_dial_is_dial(1, v.apn);
        },
        StageView::Finished => {},
    }
}

/// When the dial step gets a response (an `OK`, or a `CONNECT` line, which
/// counts as success alike), the sequence settles and then completes.
pub proof fn lemma_dial_response_completes(v: InitView, ev: Event)
    requires
        v.stage is Running,
        v.stage->Running_0 == 4,
        retry_step(v.stage->Running_1, ev).1 is Done,
        retry_step(v.stage->Running_1, ev).1->Done_0 is Response,
    ensures
        init_step(v, ev) == (
            InitView { stage: StageView::Settling(4), ..v },
            StepView::<InitResultView>::Perform(IoView::Sleep(SETTLE_MS)),
        ),
        init_step(init_step(v, ev).0, Event::Slept) == (
            InitView { stage: StageView::Finished, ..v },
            StepView::Done(InitResultView::Ready),
        ),
{
}

enum Stage {
    Waking(CommandAttempt, u64),
    Running(usize, RetryingCommand),
    Settling(usize),
    Finished,
}

/// Brings the modem from an unknown power state into an active data call.
pub struct InitSequencer {
    apn: Vec<u8>,
    wake_limit: Option<u64>,
    stage: Stage,
}

impl View for InitSequencer {
    type V = InitView;

    closed spec fn view(&self) -> InitView {
        InitView {
            apn: self.apn@,
            wake_limit: self.wake_limit,
            stage: match self.stage {
                Stage::Waking(a, t) => StageView::Waking(a@, t),
                Stage::Running(i, r) => StageView::Running(i as nat, r@),
                Stage::Settling(i) => StageView::Settling(i as nat),
                Stage::Finished => StageView::Finished,
            },
        }
    }
}

impl InitSequencer {
    pub closed spec fn wf(&self) -> bool {
        match self.stage {
            Stage::Waking(a, t) => {
                &&& a.wf()
                &&& a@.phase != Phase::Finished
                &&& a@.command == at_command()
                &&& a@.timeout_ms == COMMAND_TIMEOUT_MS
                &&& !wake_spent(self.wake_limit, t)
            },
            Stage::Running(i, r) => {
                &&& 1 <= i <= 4
                &&& r.wf()
                &&& !r@.done
                &&& r@.command == init_command_spec(i as nat, self.apn@)
                &&& r@.timeout_ms == COMMAND_TIMEOUT_MS
                &&& r@.max_attempts == DEFAULT_MAX_ATTEMPTS
            },
            Stage::Settling(i) => i <= 4,
            Stage::Finished => true,
        }
    }

    /// Starts the sequence with the access point name `apn` and an optional
    /// bound on wake probes; the first operation sends the first probe.
    pub fn start(apn: Vec<u8>, wake_limit: Option<u64>) -> (r: (InitSequencer, Step<InitResult>))
        ensures
            r.0.wf(),
            init_consistent(r.0@),
            r.0@.apn == apn@,
            r.0@.wake_limit == wake_limit,
            wake_spent(wake_limit, 0) ==> r.0@.stage == StageView::Finished
                && r.1@ == StepView::<InitResultView>::Done(InitResultView::WakeExhausted),
            !wake_spent(wake_limit, 0) ==> r.0@.stage == StageView::Waking(
                attempt_begin(at_command(), COMMAND_TIMEOUT_MS),
                0,
            ) && r.1@ == StepView::<InitResultView>::Perform(IoView::Write(at_command())),
    {
        let spent = match wake_limit {
            Some(l) => l == 0,
            None => false,
        };
        if spent {
            (InitSequencer { apn, wake_limit, stage: Stage::Finished }, Step::Done(InitResult::WakeExhausted))
        } else {
            let (a, io) = CommandAttempt::start(wake_command(), COMMAND_TIMEOUT_MS);
            (InitSequencer { apn, wake_limit, stage: Stage::Waking(a, 0) }, Step::Perform(io))
        }
    }

    /// Takes the result of the pending operation and decides what follows.
    pub fn handle(&mut self, ev: Event) -> (r: Step<InitResult>)
        requires
            old(self).wf(),
            !(old(self)@.stage is Finished),
            answers(init_pending(old(self)@), ev),
        ensures
            final(self).wf(),
            init_consistent(final(self)@),
            (final(self)@, r@) == init_step(old(self)@, ev),
    {
        let mut stage = Stage::Finished;
        std::mem::swap(&mut stage, &mut self.stage);
        match stage {
            Stage::Waking(mut a, tries) => {
                match a.handle(ev) {
                    Step::Perform(io) => {
                        self.stage = Stage::Waking(a, tries);
                        Step::Perform(io)
                    },
                    Step::Done(o) => {
                        let ok: Vec<u8> = vec![0x4f, 0x4b];
                        assert(ok@ =~= ok_text());
                        let woke = match &o {
                            Outcome::Success(t) | Outcome::Prompt(t) => contains_bytes(t.as_slice(), ok.as_slice()),
                            _ => false,
                        };
                        let next = if tries == u64::MAX { tries } else { tries + 1 };
                        let spent = match self.wake_limit {
                            Some(l) => next >= l,
                            None => false,
                        };
                        if woke {
                            self.stage = Stage::Settling(0);
                            Step::Perform(Io::Sleep { ms: SETTLE_MS })
                        } else if spent {
                            Step::Done(InitResult::WakeExhausted)
                        } else {
                            let (a2, io) = CommandAttempt::start(wake_command(), COMMAND_TIMEOUT_MS);
                            self.stage = Stage::Waking(a2, next);
                            Step::Perform(io)
                        }
                    },
                }
            },
            Stage::Running(i, mut r) => {
                match r.handle(ev) {
                    Step::Perform(io) => {
                        self.stage = Stage::Running(i, r);
                        Step::Perform(io)
                    },
                    Step::Done(RetryResult::Response(_)) => {
                        self.stage = Stage::Settling(i);
                        Step::Perform(Io::Sleep { ms: SETTLE_MS })
                    },
                    Step::Done(RetryResult::RetryExhausted(c)) => Step::Done(InitResult::RetryExhausted(c)),
                }
            },
            Stage::Settling(i) => {
                if i >= 4 {
                    Step::Done(InitResult::Ready)
                } else {
                    let c = init_command(i + 1, self.apn.as_slice());
                    let (r, step) = RetryingCommand::start(c, COMMAND_TIMEOUT_MS, DEFAULT_MAX_ATTEMPTS);
                    self.stage = Stage::Running(i + 1, r);
                    match step {
                        Step::Perform(io) => Step::Perform(io),
                        Step::Done(_) => {
                            proof {
                                assert(false);
                            }
                            Step::Perform(Io::Flush)
                        },
                    }
                }
            },
            Stage::Finished => {
                proof {
                    assert(false);
                }
                Step::Perform(Io::Flush)
            },
        }
    }
}

/// The command of initialization step `step`, `1..=4`.
pub fn init_command(step: usize, apn: &[u8]) -> (r: Vec<u8>)
    requires
        1 <= step <= 4,
    ensures
        r@ == init_command_spec(step as nat, apn@),
{
    if step == 1 {
        let r: Vec<u8> = vec![0x41, 0x54, 0x2b, 0x43, 0x53, 0x51, 0x0d];
        assert(r@ =~= csq_command());
        r
    } else if step == 2 {
        let r: Vec<u8> = vec![0x41, 0x54, 0x45, 0x30, 0x0d];
        assert(r@ =~= echo_off_command());
        r
    } else if step == 3 {
        let mut r: Vec<u8> = vec![0x41, 0x54, 0x2b, 0x43, 0x47, 0x44, 0x43, 0x4f, 0x4e, 0x54, 0x3d, 0x31, 0x2c, 0x22, 0x49, 0x50, 0x22, 0x2c, 0x22];
        assert(r@ =~= seq![0x41u8, 0x54u8, 0x2bu8, 0x43u8, 0x47u8, 0x44u8, 0x43u8, 0x4fu8, 0x4eu8, 0x54u8, 0x3du8, 0x31u8, 0x2cu8, 0x22u8, 0x49u8, 0x50u8, 0x22u8, 0x2cu8, 0x22u8]);
        let ghost head = r@;
        let mut i: usize = 0;
        while i < apn.len()
            invariant
                0 <= i <= apn@.len(),
                r@ == head + apn@.take(i as int),
            decreases apn@.len() - i,
        {
            r.push(apn[i]);
            assert(apn@.take(i + 1int) =~= apn@.take(i as int).push(apn@[i as int]));
            i = i + 1;
        }
        assert(apn@.take(i as int) =~= apn@);
        r.push(0x22);
        r.push(0x0d);
        assert(r@ =~= context_command(apn@));
        r
    } else {
        let r: Vec<u8> = vec![0x41, 0x54, 0x44, 0x2a, 0x39, 0x39, 0x23, 0x23, 0x0d];
        assert(r@ =~= dial_command());
        r
    }
}

fn wake_command() -> (r: Vec<u8>)
    ensures
        r@ == at_command(),
{
    let r: Vec<u8> = vec![0x41, 0x54, 0x0d];
    assert(r@ =~= at_command());
    r
}

} // verus!
