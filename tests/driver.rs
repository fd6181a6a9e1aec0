use std::collections::VecDeque;

use pico_lte_ppp::executor::{CommandAttempt, Event, Io, Step};
use pico_lte_ppp::init::{init_command, InitResult, InitSequencer, COMMAND_TIMEOUT_MS, SETTLE_MS};
use pico_lte_ppp::response::Outcome;
use pico_lte_ppp::retry::{RetryResult, RetryingCommand, DEFAULT_MAX_ATTEMPTS};

/// A transport that answers each written command with bytes chosen by
/// `reply`, queued after whatever is still unread.
struct Scripted<F: FnMut(&[u8]) -> Vec<u8>> {
    reply: F,
    queue: VecDeque<u8>,
    written: Vec<Vec<u8>>,
    sleeps: Vec<u64>,
    reads: usize,
}

impl<F: FnMut(&[u8]) -> Vec<u8>> Scripted<F> {
    fn new(reply: F) -> Self {
        Scripted { reply, queue: VecDeque::new(), written: Vec::new(), sleeps: Vec::new(), reads: 0 }
    }

    fn perform(&mut self, io: &Io) -> Event {
        let ev = match io {
            Io::Write(cmd) => {
                self.written.push(cmd.clone());
                let r = (self.reply)(cmd);
                self.queue.extend(r);
                Event::Written
            }
            Io::Flush => Event::Flushed,
            Io::Read { timeout_ms } => {
                assert_eq!(*timeout_ms, COMMAND_TIMEOUT_MS);
                self.reads += 1;
                match self.queue.pop_front() {
                    Some(b) => Event::Byte(b),
                    None => Event::EndOfStream,
                }
            }
            Io::Sleep { ms } => {
                self.sleeps.push(*ms);
                Event::Slept
            }
        };
        assert!(io.answered_by(ev));
        ev
    }
}

fn attempt_with<F: FnMut(&[u8]) -> Vec<u8>>(t: &mut Scripted<F>, cmd: &[u8]) -> Outcome {
    let (mut a, io) = CommandAttempt::start(cmd.to_vec(), COMMAND_TIMEOUT_MS);
    let mut step = Step::Perform(io);
    loop {
        match step {
            Step::Perform(io) => {
                let ev = t.perform(&io);
                step = a.handle(ev);
            }
            Step::Done(o) => return o,
        }
    }
}

fn retry_with<F: FnMut(&[u8]) -> Vec<u8>>(t: &mut Scripted<F>, cmd: &[u8], max: u64) -> RetryResult {
    let (mut r, mut step) = RetryingCommand::start(cmd.to_vec(), COMMAND_TIMEOUT_MS, max);
    loop {
        match step {
            Step::Perform(io) => {
                let ev = t.perform(&io);
                step = r.handle(ev);
            }
            Step::Done(res) => return res,
        }
    }
}

fn init_with<F: FnMut(&[u8]) -> Vec<u8>>(t: &mut Scripted<F>, wake_limit: Option<u64>) -> InitResult {
    let (mut s, mut step) = InitSequencer::start(b"povo.jp".to_vec(), wake_limit);
    loop {
        match step {
            Step::Perform(io) => {
                let ev = t.perform(&io);
                step = s.handle(ev);
            }
            Step::Done(res) => return res,
        }
    }
}

fn fails_then_ok(k: usize) -> impl FnMut(&[u8]) -> Vec<u8> {
    let mut n = 0;
    move |_| {
        n += 1;
        if n <= k { b"\r\nERROR\r\n".to_vec() } else { b"\r\nOK\r\n".to_vec() }
    }
}

#[test]
fn attempt_returns_ok_response() {
    let mut t = Scripted::new(|_| b"AT\r\r\nOK\r\n".to_vec());
    assert_eq!(attempt_with(&mut t, b"AT\r"), Outcome::Success(b"OK".to_vec()));
    assert_eq!(t.written, vec![b"AT\r".to_vec()]);
}

#[test]
fn attempt_stops_after_error_line() {
    let mut t = Scripted::new(|_| b"\r\nERROR\r\n\r\nOK\r\n".to_vec());
    assert_eq!(attempt_with(&mut t, b"AT\r"), Outcome::ModemError(b"ERROR".to_vec()));
    assert_eq!(t.queue.len(), 6);
    assert_eq!(t.reads, 9);
}

#[test]
fn attempt_skips_unsolicited_line() {
    let mut t = Scripted::new(|_| b"\r\n+CSQ: 15,99\r\n\r\nOK\r\n".to_vec());
    assert_eq!(attempt_with(&mut t, b"AT+CSQ\r"), Outcome::Success(b"OK".to_vec()));
}

#[test]
fn attempt_with_partial_frame_is_no_data() {
    let mut t = Scripted::new(|_| b"\r\n partial".to_vec());
    assert_eq!(attempt_with(&mut t, b"AT\r"), Outcome::NoData);
}

#[test]
fn attempt_write_failure_reads_nothing() {
    let (mut a, _) = CommandAttempt::start(b"AT\r".to_vec(), 5);
    assert_eq!(a.handle(Event::WriteFailed), Step::Done(Outcome::WriteFailed));
}

#[test]
fn attempt_flush_failure() {
    let (mut a, _) = CommandAttempt::start(b"AT\r".to_vec(), 5);
    assert_eq!(a.handle(Event::Written), Step::Perform(Io::Flush));
    assert_eq!(a.handle(Event::FlushFailed), Step::Done(Outcome::FlushFailed));
}

#[test]
fn attempt_read_timeout_and_error() {
    let (mut a, io) = CommandAttempt::start(b"AT\r".to_vec(), 7);
    assert_eq!(io, Io::Write(b"AT\r".to_vec()));
    a.handle(Event::Written);
    assert_eq!(a.handle(Event::Flushed), Step::Perform(Io::Read { timeout_ms: 7 }));
    assert_eq!(a.handle(Event::Byte(b'\r')), Step::Perform(Io::Read { timeout_ms: 7 }));
    assert_eq!(a.handle(Event::ReadTimeout), Step::Done(Outcome::Timeout));
    let (mut b, _) = CommandAttempt::start(b"AT\r".to_vec(), 7);
    b.handle(Event::Written);
    b.handle(Event::Flushed);
    assert_eq!(b.handle(Event::ReadFailed), Step::Done(Outcome::ReadFailed));
}

#[test]
fn attempt_non_text_byte() {
    let mut t = Scripted::new(|_| b"\r\n\xc3\xa9\r\n".to_vec());
    assert_eq!(attempt_with(&mut t, b"AT\r"), Outcome::NotText);
}

#[test]
fn attempt_empty_frame_is_no_data() {
    let mut t = Scripted::new(|_| b"\r\n\r\n\r\nOK\r\n".to_vec());
    assert_eq!(attempt_with(&mut t, b"AT\r"), Outcome::NoData);
    assert_eq!(t.queue.len(), 6);
}

#[test]
fn retry_succeeds_within_budget() {
    for k in 0..DEFAULT_MAX_ATTEMPTS as usize {
        let mut t = Scripted::new(fails_then_ok(k));
        let r = retry_with(&mut t, b"ATE0\r", DEFAULT_MAX_ATTEMPTS);
        assert_eq!(r, RetryResult::Response(b"OK".to_vec()));
        assert_eq!(t.written.len(), k + 1);
    }
}

#[test]
fn retry_exhausted_beyond_budget() {
    for k in DEFAULT_MAX_ATTEMPTS as usize..8 {
        let mut t = Scripted::new(fails_then_ok(k));
        let r = retry_with(&mut t, b"ATE0\r", DEFAULT_MAX_ATTEMPTS);
        assert_eq!(r, RetryResult::RetryExhausted(b"ATE0\r".to_vec()));
        assert_eq!(t.written.len(), DEFAULT_MAX_ATTEMPTS as usize);
    }
}

#[test]
fn retry_with_zero_bound_sends_nothing() {
    let (_, step) = RetryingCommand::start(b"AT\r".to_vec(), 10, 0);
    assert_eq!(step, Step::Done(RetryResult::RetryExhausted(b"AT\r".to_vec())));
}

#[test]
fn retry_accepts_connect_as_success() {
    let mut t = Scripted::new(|_| b"\r\nCONNECT 150\r\n".to_vec());
    let r = retry_with(&mut t, b"ATD*99##\r", 3);
    assert_eq!(r, RetryResult::Response(b"CONNECT 150".to_vec()));
}

#[test]
fn context_command_embeds_apn() {
    assert_eq!(init_command(3, b"povo.jp"), b"AT+CGDCONT=1,\"IP\",\"povo.jp\"\r".to_vec());
    assert_eq!(init_command(1, b""), b"AT+CSQ\r".to_vec());
    assert_eq!(init_command(2, b""), b"ATE0\r".to_vec());
    assert_eq!(init_command(4, b""), b"ATD*99##\r".to_vec());
}

fn modem(cmd: &[u8]) -> Vec<u8> {
    if cmd.starts_with(b"ATD") {
        b"\r\nCONNECT\r\n".to_vec()
    } else if cmd.starts_with(b"AT+CGDCONT") {
        b"\r\nOK\r\n".to_vec()
    } else {
        let mut r = cmd.to_vec();
        r.extend_from_slice(b"\r\nOK\r\n");
        r
    }
}

#[test]
fn sequence_completes_end_to_end() {
    let mut t = Scripted::new(modem);
    assert_eq!(init_with(&mut t, None), InitResult::Ready);
    assert_eq!(
        t.written,
        vec![
            b"AT\r".to_vec(),
            b"AT+CSQ\r".to_vec(),
            b"ATE0\r".to_vec(),
            b"AT+CGDCONT=1,\"IP\",\"povo.jp\"\r".to_vec(),
            b"ATD*99##\r".to_vec(),
        ]
    );
    assert_eq!(t.sleeps, vec![SETTLE_MS; 5]);
}

#[test]
fn sequence_stops_at_failing_context_step() {
    let mut t = Scripted::new(|cmd: &[u8]| {
        if cmd.starts_with(b"AT+CGDCONT") { b"\r\nERROR\r\n".to_vec() } else { b"\r\nOK\r\n".to_vec() }
    });
    let expected = b"AT+CGDCONT=1,\"IP\",\"povo.jp\"\r".to_vec();
    assert_eq!(init_with(&mut t, None), InitResult::RetryExhausted(expected.clone()));
    assert_eq!(t.written.iter().filter(|c| **c == expected).count(), DEFAULT_MAX_ATTEMPTS as usize);
    assert!(!t.written.iter().any(|c| c.starts_with(b"ATD")));
}

#[test]
fn sequence_waits_for_modem_to_wake() {
    let mut n = 0;
    let mut t = Scripted::new(move |cmd: &[u8]| {
        n += 1;
        if n <= 3 { Vec::new() } else { modem(cmd) }
    });
    assert_eq!(init_with(&mut t, None), InitResult::Ready);
    assert_eq!(t.written.iter().filter(|c| c.as_slice() == b"AT\r").count(), 4);
}

#[test]
fn bounded_wake_gives_up() {
    let mut t = Scripted::new(|_| Vec::new());
    assert_eq!(init_with(&mut t, Some(3)), InitResult::WakeExhausted);
    assert_eq!(t.written.len(), 3);
    let (_, step) = InitSequencer::start(b"apn".to_vec(), Some(0));
    assert_eq!(step, Step::Done(InitResult::WakeExhausted));
}

#[test]
fn retry_keeps_last_failure() {
    let (mut r, _) = RetryingCommand::start(b"AT\r".to_vec(), 9, 2);
    assert_eq!(r.last_failure(), &None);
    r.handle(Event::Written);
    r.handle(Event::Flushed);
    assert_eq!(r.handle(Event::ReadTimeout), Step::Perform(Io::Write(b"AT\r".to_vec())));
    assert_eq!(r.last_failure(), &Some(Outcome::Timeout));
    r.handle(Event::WriteFailed);
    assert_eq!(r.last_failure(), &Some(Outcome::WriteFailed));
}
