use vstd::prelude::*;
use crate::response::{respond, Outcome, OutcomeView, ResponseClassifier, ResponseView};

verus! {

/// A transport operation the driver asks its runner to perform.
#[derive(Clone, Debug, PartialEq, Eq)]
pub enum Io {
    /// Write all these bytes.
    Write(Vec<u8>),
    /// Flush what was written.
    Flush,
    /// Read one byte, failing with a timeout after this many milliseconds.
    Read { timeout_ms: u64 },
    /// Wait this many milliseconds.
    Sleep { ms: u64 },
}

pub ghost enum IoView {
    Write(Seq<u8>),
    Flush,
    Read(u64),
    Sleep(u64),
}

impl View for Io {
    type V = IoView;

    open spec fn view(&self) -> IoView {
        match self {
            Io::Write(b) => IoView::Write(b@),
            Io::Flush => IoView::Flush,
            Io::Read { timeout_ms } => IoView::Read(*timeout_ms),
            Io::Sleep { ms } => IoView::Sleep(*ms),
        }
    }
}

/// What came of the last transport operation.
#[derive(Clone, Copy, Debug, PartialEq, Eq, Structural)]
pub enum Event {
    Written,
    WriteFailed,
    Flushed,
    FlushFailed,
    /// One byte was read.
    Byte(u8),
    /// The read returned zero bytes: the stream ended.
    EndOfStream,
    ReadTimeout,
    ReadFailed,
    Slept,
}

/// `ev` is a possible result of performing `io`.
pub open spec fn answers(io: IoView, ev: Event) -> bool {
    match io {
        IoView::Write(_) => ev == Event::Written || ev == Event::WriteFailed,
        IoView::Flush => ev == Event::Flushed || ev == Event::FlushFailed,
        IoView::Read(_) => ev is Byte || ev == Event::EndOfStream || ev == Event::ReadTimeout
            || ev == Event::ReadFailed,
        IoView::Sleep(_) => ev == Event::Slept,
    }
}

impl Io {
    /// Whether `ev` is a possible result of performing this operation.
    pub fn answered_by(&self, ev: Event) -> (r: bool)
        ensures
            r == answers(self@, ev),
    {
        match self {
            Io::Write(_) => ev == Event::Written || ev == Event::WriteFailed,
            Io::Flush => ev == Event::Flushed || ev == Event::FlushFailed,
            Io::Read { .. } => match ev {
                Event::Byte(_) | Event::EndOfStream | Event::ReadTimeout | Event::ReadFailed => true,
                _ => false,
            },
            Io::Sleep { .. } => ev == Event::Slept,
        }
    }
}

/// What a driver state machine wants next: an operation, or its result.
#[derive(Clone, Debug, PartialEq, Eq)]
pub enum Step<T> {
    Perform(Io),
    Done(T),
}

pub ghost enum StepView<V> {
    Perform(IoView),
    Done(V),
}

impl<T: View> View for Step<T> {
    type V = StepView<T::V>;

    open spec fn view(&self) -> StepView<T::V> {
        match self {
            Step::Perform(io) => StepView::Perform(io@),
            Step::Done(t) => StepView::Done(t@),
        }
    }
}

/// Where one command attempt stands.
#[derive(Clone, Copy, Debug, PartialEq, Eq, Structural)]
pub enum Phase {
    Writing,
    Flushing,
    Reading,
    Finished,
}

pub ghost struct AttemptView {
    pub command: Seq<u8>,
    pub timeout_ms: u64,
    pub phase: Phase,
    /// The bytes read since the command was flushed.
    pub received: Seq<u8>,
}

/// A fresh attempt at sending `command`.
pub open spec fn attempt_begin(command: Seq<u8>, timeout_ms: u64) -> AttemptView {
    AttemptView { command, timeout_ms, phase: Phase::Writing, received: Seq::empty() }
}

/// The operation an unfinished attempt waits on.
pub open spec fn attempt_pending(a: AttemptView) -> IoView {
    match a.phase {
        Phase::Writing => IoView::Write(a.command),
        Phase::Flushing => IoView::Flush,
        _ => IoView::Read(a.timeout_ms),
    }
}

pub open spec fn attempt_finish(a: AttemptView, o: OutcomeView) -> (AttemptView, StepView<OutcomeView>) {
    (AttemptView { phase: Phase::Finished, ..a }, StepView::Done(o))
}

/// One attempt: write the command, flush it, then read bytes until the
/// response to them is decided. Write and flush failures end the attempt
/// before any read; a read that ends the stream, times out or fails ends it
/// too.
pub open spec fn attempt_step(a: AttemptView, ev: Event) -> (AttemptView, StepView<OutcomeView>) {
    match ev {
        Event::Written => (AttemptView { phase: Phase::Flushing, ..a }, StepView::Perform(IoView::Flush)),
        Event::WriteFailed => attempt_finish(a, OutcomeView::WriteFailed),
        Event::Flushed => (
            AttemptView { phase: Phase::Reading, ..a },
            StepView::Perform(IoView::Read(a.timeout_ms)),
        ),
        Event::FlushFailed => attempt_finish(a, OutcomeView::FlushFailed),
        Event::Byte(b) => {
            let received = a.received.push(b);
            match respond(received) {
                ResponseView::Decided(o) => (
                    AttemptView { phase: Phase::Finished, received, ..a },
                    StepView::Done(o),
                ),
                ResponseView::Awaiting(_, _) => (
                    AttemptView { received, ..a },
                    StepView::Perform(IoView::Read(a.timeout_ms)),
                ),
            }
        },
        Event::EndOfStream => attempt_finish(a, OutcomeView::NoData),
        Event::ReadTimeout => attempt_finish(a, OutcomeView::Timeout),
        Event::ReadFailed => attempt_finish(a, OutcomeView::ReadFailed),
        Event::Slept => (a, StepView::Perform(attempt_pending(a))),
    }
}

/// One attempt at one command, with no retry of its own.
pub struct CommandAttempt {
    command: Vec<u8>,
    timeout_ms: u64,
    phase: Phase,
    classifier: ResponseClassifier,
}

impl View for CommandAttempt {
    type V = AttemptView;

    closed spec fn view(&self) -> AttemptView {
        AttemptView {
            command: self.command@,
            timeout_ms: self.timeout_ms,
            phase: self.phase,
            received: self.classifier.received(),
        }
    }
}

impl CommandAttempt {
    pub closed spec fn wf(&self) -> bool {
        &&& self.phase != Phase::Finished ==> self.classifier.wf()
        &&& (self.phase == Phase::Writing || self.phase == Phase::Flushing)
            ==> self.classifier.received() == Seq::<u8>::empty()
    }

    /// Starts an attempt; the first operation writes the command.
    pub fn start(command: Vec<u8>, timeout_ms: u64) -> (r: (CommandAttempt, Io))
        ensures
            r.0.wf(),
            r.0@ == attempt_begin(command@, timeout_ms),
            r.1@ == IoView::Write(command@),
    {
        let copy = command.clone();
        assert(copy@ =~= command@);
        let io = Io::Write(copy);
        (CommandAttempt { command, timeout_ms, phase: Phase::Writing, classifier: ResponseClassifier::new() }, io)
    }

    /// Takes the result of the pending operation and decides what follows.
    pub fn handle(&mut self, ev: Event) -> (r: Step<Outcome>)
        requires
            old(self).wf(),
            old(self)@.phase != Phase::Finished,
            answers(attempt_pending(old(self)@), ev),
        ensures
            final(self).wf(),
            (final(self)@, r@) == attempt_step(old(self)@, ev),
    {
        match ev {
            Event::Written => {
                self.phase = Phase::Flushing;
                Step::Perform(Io::Flush)
            },
            Event::WriteFailed => {
                self.phase = Phase::Finished;
                Step::Done(Outcome::WriteFailed)
            },
            Event::Flushed => {
                self.phase = Phase::Reading;
                Step::Perform(Io::Read { timeout_ms: self.timeout_ms })
            },
            Event::FlushFailed => {
                self.phase = Phase::Finished;
                Step::Done(Outcome::FlushFailed)
            },
            Event::Byte(b) => {
                match self.classifier.feed(b) {
                    Some(o) => {
                        self.phase = Phase::Finished;
                        Step::Done(o)
                    },
                    None => Step::Perform(Io::Read { timeout_ms: self.timeout_ms }),
                }
            },
            Event::EndOfStream => {
                self.phase = Phase::Finished;
                Step::Done(Outcome::NoData)
            },
            Event::ReadTimeout => {
                self.phase = Phase::Finished;
                Step::Done(Outcome::Timeout)
            },
            Event::ReadFailed => {
                self.phase = Phase::Finished;
                Step::Done(Outcome::ReadFailed)
            },
            Event::Slept => {
                proof {
                    assert(false);
                }
                Step::Perform(Io::Flush)
            },
        }
    }
}

} // verus!
