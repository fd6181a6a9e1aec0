use vstd::prelude::*;
use crate::framer::{
    feed_view, frame, frames, is_line_text, is_text_byte, scan, FeedView, FrameState, Feed, LineFramer, ScanView, CR, LF,
};

verus! {

/// How one command attempt ended, as a mathematical value.
pub ghost enum OutcomeView {
    Success(Seq<u8>),
    Prompt(Seq<u8>),
    ModemError(Seq<u8>),
    NoData,
    Timeout,
    WriteFailed,
    FlushFailed,
    ReadFailed,
    NotText,
}

/// How one command attempt ended.
#[derive(Clone, Debug, PartialEq, Eq)]
pub enum Outcome {
    /// The modem answered `OK`.
    Success(Vec<u8>),
    /// The modem answered a line containing `CONNECT`: it enters data mode.
    Prompt(Vec<u8>),
    /// The modem answered a line containing `ERROR`.
    ModemError(Vec<u8>),
    /// No response could be had: the stream ended before a complete
    /// frame, or an empty line arrived.
    NoData,
    /// A read did not complete within its deadline.
    Timeout,
    /// Writing the command failed.
    WriteFailed,
    /// Flushing the command failed.
    FlushFailed,
    /// The transport reported a read error.
    ReadFailed,
    /// A frame held a byte that is not one-byte UTF-8.
    NotText,
}

impl View for Outcome {
    type V = OutcomeView;

    open spec fn view(&self) -> OutcomeView {
        match self {
            Outcome::Success(t) => OutcomeView::Success(t@),
            Outcome::Prompt(t) => OutcomeView::Prompt(t@),
            Outcome::ModemError(t) => OutcomeView::ModemError(t@),
            Outcome::NoData => OutcomeView::NoData,
            Outcome::Timeout => OutcomeView::Timeout,
            Outcome::WriteFailed => OutcomeView::WriteFailed,
            Outcome::FlushFailed => OutcomeView::FlushFailed,
            Outcome::ReadFailed => OutcomeView::ReadFailed,
            Outcome::NotText => OutcomeView::NotText,
        }
    }
}

/// Success and prompt are the outcomes a command is sent for.
pub open spec fn is_success(o: OutcomeView) -> bool {
    o is Success || o is Prompt
}

impl Outcome {
    pub fn is_success(&self) -> (r: bool)
        ensures
            r == is_success(self@),
    {
        match self {
            Outcome::Success(_) | Outcome::Prompt(_) => true,
            _ => false,
        }
    }
}

/// `OK`
pub open spec fn ok_text() -> Seq<u8> {
    seq![0x4fu8, 0x4bu8]
}

/// `CONNECT`
pub open spec fn connect_text() -> Seq<u8> {
    seq![0x43u8, 0x4fu8, 0x4eu8, 0x4eu8, 0x45u8, 0x43u8, 0x54u8]
}

/// `ERROR`
pub open spec fn error_text() -> Seq<u8> {
    seq![0x45u8, 0x52u8, 0x52u8, 0x4fu8, 0x52u8]
}

/// `pat` occurs in `hay` as a contiguous run.
pub open spec fn contains(hay: Seq<u8>, pat: Seq<u8>) -> bool {
    exists|i: int| 0 <= i && i + pat.len() <= hay.len() && #[trigger] hay.subrange(i, i + pat.len()) == pat
}

/// What a framed line means to the classifier: `None` for a line to skip
/// (an echo, an unsolicited status line).
pub open spec fn line_verdict(t: Seq<u8>) -> Option<OutcomeView> {
    if t.len() == 0 {
        Some(OutcomeView::NoData)
    } else if t == ok_text() {
        Some(OutcomeView::Success(t))
    } else if contains(t, connect_text()) {
        Some(OutcomeView::Prompt(t))
    } else if contains(t, error_text()) {
        Some(OutcomeView::ModemError(t))
    } else {
        None
    }
}

/// The classifier's reading of the bytes that followed a command, one after
/// another: still waiting inside some frame, or decided. Once decided, later
/// bytes are never read.
pub ghost enum ResponseView {
    Awaiting(FrameState, Seq<u8>),
    Decided(OutcomeView),
}

pub open spec fn respond(bytes: Seq<u8>) -> ResponseView
    decreases bytes.len(),
{
    if bytes.len() == 0 {
        ResponseView::Awaiting(FrameState::AwaitCR, Seq::empty())
    } else {
        match respond(bytes.drop_last()) {
            ResponseView::Awaiting(s, line) => match feed_view(s, line, bytes.last()) {
                FeedView::Continue(s2, line2) => ResponseView::Awaiting(s2, line2),
                FeedView::NotText => ResponseView::Decided(OutcomeView::NotText),
                FeedView::Complete(t) => match line_verdict(t) {
                    Some(o) => ResponseView::Decided(o),
                    None => ResponseView::Awaiting(FrameState::AwaitCR, Seq::empty()),
                },
            },
            done => done,
        }
    }
}

/// Whether `pat` occurs in `hay`.
pub fn contains_bytes(hay: &[u8], pat: &[u8]) -> (r: bool)
    ensures
        r == contains(hay@, pat@),
{
    if pat.len() > hay.len() {
        return false;
    }
    let n = hay.len();
    let last = n - pat.len();
    let mut i: usize = 0;
    while i <= last
        invariant
            last + pat@.len() == hay@.len(),
            n == hay@.len(),
            i <= last + 1,
            forall|j: int| 0 <= j < i ==> #[trigger] hay@.subrange(j, j + pat@.len()) != pat@,
        decreases last + 1 - i,
    {
        let mut k: usize = 0;
        while k < pat.len() && hay[i + k] == pat[k]
            invariant
                i <= last,
                last + pat@.len() == hay@.len(),
                n == hay@.len(),
                0 <= k <= pat@.len(),
                forall|m: int| 0 <= m < k ==> hay@[i + m] == pat@[m],
            decreases pat@.len() - k,
        {
            k = k + 1;
        }
        if k == pat.len() {
            assert(hay@.subrange(i as int, i + pat@.len()) =~= pat@);
            return true;
        }
        assert(hay@.subrange(i as int, i + pat@.len())[k as int] != pat@[k as int]);
        i = i + 1;
    }
    proof {
        assert forall|j: int| 0 <= j && j + pat@.len() <= hay@.len() implies #[trigger] hay@.subrange(
            j,
            j + pat@.len(),
        ) != pat@ by {
            assert(j < i);
        }
    }
    false
}

/// Classifies one framed line: `None` means skip it and read the next.
pub fn classify_line(line: Vec<u8>) -> (r: Option<Outcome>)
    ensures
        match line_verdict(line@) {
            Some(o) => r matches Some(x) && x@ == o,
            None => r is None,
        },
{
    let ok: Vec<u8> = vec![0x4f, 0x4b];
    let connect: Vec<u8> = vec![0x43, 0x4f, 0x4e, 0x4e, 0x45, 0x43, 0x54];
    let error: Vec<u8> = vec![0x45, 0x52, 0x52, 0x4f, 0x52];
    assert(ok@ =~= ok_text());
    assert(connect@ =~= connect_text());
    assert(error@ =~= error_text());
    if line.len() == 0 {
        Some(Outcome::NoData)
    } else if line.len() == 2 && line[0] == ok[0] && line[1] == ok[1] {
        assert(line@ =~= ok_text());
        Some(Outcome::Success(line))
    } else if contains_bytes(line.as_slice(), connect.as_slice()) {
        Some(Outcome::Prompt(line))
    } else if contains_bytes(line.as_slice(), error.as_slice()) {
        Some(Outcome::ModemError(line))
    } else {
        assert(line@ != ok_text() ==> line@.len() != 2 || line@[0] != ok_text()[0] || line@[1] != ok_text()[1]);
        None
    }
}

/// Reads the modem's response to a command byte by byte until a terminal
/// line: `OK`, a line containing `CONNECT`, a line containing `ERROR`, or an
/// empty frame. Other lines are skipped.
pub struct ResponseClassifier {
    framer: LineFramer,
    received: Ghost<Seq<u8>>,
}

impl ResponseClassifier {
    /// The bytes fed so far.
    pub closed spec fn received(&self) -> Seq<u8> {
        self.received@
    }

    /// The classifier is undecided and its framer agrees with the bytes fed.
    pub closed spec fn wf(&self) -> bool {
        respond(self.received@) == ResponseView::Awaiting(self.framer.state, self.framer.line@)
    }

    pub fn new() -> (r: Self)
        ensures
            r.wf(),
            r.received() == Seq::<u8>::empty(),
    {
        ResponseClassifier { framer: LineFramer::new(), received: Ghost(Seq::empty()) }
    }

    /// Feeds one byte; `Some` once the response is decided, after which the
    /// classifier is spent.
    pub fn feed(&mut self, b: u8) -> (r: Option<Outcome>)
        requires
            old(self).wf(),
        ensures
            final(self).received() == old(self).received().push(b),
            match respond(old(self).received().push(b)) {
                ResponseView::Decided(o) => r matches Some(x) && x@ == o,
                ResponseView::Awaiting(_, _) => r is None && final(self).wf(),
            },
    {
        let ghost before = self.received@;
        self.received = Ghost(before.push(b));
        proof {
            assert(self.received@.drop_last() =~= before);
        }
        match self.framer.feed(b) {
            Feed::Pending => None,
            Feed::NotText => Some(Outcome::NotText),
            Feed::Line(t) => {
                let verdict = classify_line(t);
                if verdict.is_none() {
                    self.framer = LineFramer::new();
                }
                verdict
            },
        }
    }
}

/// Once the response is decided, bytes after it change nothing.
pub proof fn lemma_respond_settled(a: Seq<u8>, rest: Seq<u8>)
    requires
        respond(a) is Decided,
    ensures
        respond(a + rest) == respond(a),
    decreases rest.len(),
{
    if rest.len() == 0 {
        assert(a + rest =~= a);
    } else {
        lemma_respond_settled(a, rest.drop_last());
        assert((a + rest).drop_last() =~= a + rest.drop_last());
    }
}

/// While no frame has completed, the classifier's framer is the framer's.
pub proof fn lemma_respond_scanning(bytes: Seq<u8>)
    requires
        scan(bytes) is Scanning,
    ensures
        respond(bytes) == ResponseView::Awaiting(
            scan(bytes)->Scanning_0,
            scan(bytes)->Scanning_1,
        ),
    decreases bytes.len(),
{
    if bytes.len() > 0 {
        lemma_respond_scanning(bytes.drop_last());
    }
}

/// A stream that ends inside the first frame leaves the classifier waiting:
/// the end of the stream then yields no data, not an error.
pub proof fn lemma_partial_response_pending(t: Seq<u8>, k: int)
    requires
        is_line_text(t),
        0 <= k < frame(t).len(),
    ensures
        respond(frame(t).take(k)) is Awaiting,
{
    crate::framer::lemma_partial_frame_pending(t, k);
    lemma_respond_scanning(frame(t).take(k));
}

proof fn lemma_respond_collecting(p: Seq<u8>, t: Seq<u8>, k: int)
    requires
        respond(p) == ResponseView::Awaiting(FrameState::AwaitCR, Seq::<u8>::empty()),
        is_line_text(t),
        0 <= k <= t.len(),
    ensures
        respond(p + seq![CR, LF] + t.take(k)) == ResponseView::Awaiting(FrameState::Collecting, t.take(k)),
    decreases k,
{
    if k == 0 {
        let empty = Seq::<u8>::empty();
        assert((p + seq![CR]).drop_last() =~= p);
        assert((p + seq![CR]).last() == CR);
        assert(respond(p + seq![CR]) == ResponseView::Awaiting(FrameState::AwaitLF, empty));
        assert((p + seq![CR, LF]).drop_last() =~= p + seq![CR]);
        assert((p + seq![CR, LF]).last() == LF);
        assert(t.take(0) =~= empty);
        assert(p + seq![CR, LF] + t.take(0) =~= p + seq![CR, LF]);
    } else {
        lemma_respond_collecting(p, t, k - 1);
        assert((p + seq![CR, LF] + t.take(k)).drop_last() =~= p + seq![CR, LF] + t.take(k - 1));
        assert(t.take(k - 1).push(t[k - 1]) =~= t.take(k));
        assert(is_text_byte(t[k - 1]));
    }
}

/// A frame read from a fresh line start is classified by its text alone: a
/// terminal line decides the response, any other line is skipped.
pub proof fn lemma_respond_frame(p: Seq<u8>, t: Seq<u8>)
    requires
        respond(p) == ResponseView::Awaiting(FrameState::AwaitCR, Seq::<u8>::empty()),
        is_line_text(t),
    ensures
        respond(p + frame(t)) == match line_verdict(t) {
            Some(o) => ResponseView::Decided(o),
            None => ResponseView::Awaiting(FrameState::AwaitCR, Seq::<u8>::empty()),
        },
{
    let open = p + seq![CR, LF] + t;
    lemma_respond_collecting(p, t, t.len() as int);
    assert(t.take(t.len() as int) =~= t);
    assert((open + seq![CR]).drop_last() =~= open);
    assert((open + seq![CR]).last() == CR);
    assert(respond(open + seq![CR]) == ResponseView::Awaiting(FrameState::AwaitFinalLF, t));
    assert(p + frame(t) =~= open + seq![CR, LF]);
    assert((open + seq![CR, LF]).drop_last() =~= open + seq![CR]);
    assert((open + seq![CR, LF]).last() == LF);
}

proof fn lemma_respond_start()
    ensures
        respond(Seq::<u8>::empty()) == ResponseView::Awaiting(FrameState::AwaitCR, Seq::<u8>::empty()),
{
}

proof fn lemma_ok_verdict()
    ensures
        is_line_text(ok_text()),
        line_verdict(ok_text()) == Some(OutcomeView::Success(ok_text())),
{
}

/// A line that the classifier skips: not empty, not `OK`, and holding
/// neither `CONNECT` nor `ERROR`.
pub open spec fn is_skipped_line(u: Seq<u8>) -> bool {
    is_line_text(u) && line_verdict(u) is None
}

proof fn lemma_noise_skipped(p: Seq<u8>, noise: Seq<u8>)
    requires
        respond(p) == ResponseView::Awaiting(FrameState::AwaitCR, Seq::<u8>::empty()),
        forall|i: int| 0 <= i < noise.len() ==> #[trigger] noise[i] != CR,
    ensures
        respond(p + noise) == ResponseView::Awaiting(FrameState::AwaitCR, Seq::<u8>::empty()),
    decreases noise.len(),
{
    if noise.len() == 0 {
        assert(p + noise =~= p);
    } else {
        lemma_noise_skipped(p, noise.drop_last());
        assert((p + noise).drop_last() =~= p + noise.drop_last());
        assert((p + noise).last() == noise[noise.len() - 1]);
    }
}

proof fn lemma_skipped_frames(p: Seq<u8>, us: Seq<Seq<u8>>)
    requires
        respond(p) == ResponseView::Awaiting(FrameState::AwaitCR, Seq::<u8>::empty()),
        forall|i: int| 0 <= i < us.len() ==> is_skipped_line(#[trigger] us[i]),
    ensures
        respond(p + frames(us)) == ResponseView::Awaiting(FrameState::AwaitCR, Seq::<u8>::empty()),
    decreases us.len(),
{
    if us.len() == 0 {
        assert(p + frames(us) =~= p);
    } else {
        assert(is_skipped_line(us[0]));
        lemma_respond_frame(p, us[0]);
        assert forall|i: int| 0 <= i < us.skip(1).len() implies is_skipped_line(#[trigger] us.skip(1)[i]) by {
            assert(us.skip(1)[i] == us[i + 1]);
        }
        lemma_skipped_frames(p + frame(us[0]), us.skip(1));
        assert(p + frames(us) =~= p + frame(us[0]) + frames(us.skip(1)));
    }
}

/// Bytes without `CR` before the frame `CR LF OK CR LF` (an echo, line
/// noise) are skipped: the response is a success with the text `OK`, and
/// nothing after the frame is read.
pub proof fn lemma_ok_after_noise(noise: Seq<u8>, rest: Seq<u8>)
    requires
        forall|i: int| 0 <= i < noise.len() ==> #[trigger] noise[i] != CR,
    ensures
        respond(noise + frame(ok_text()) + rest) == ResponseView::Decided(OutcomeView::Success(ok_text())),
{
    lemma_respond_start();
    lemma_ok_verdict();
    lemma_noise_skipped(Seq::empty(), noise);
    assert(Seq::<u8>::empty() + noise =~= noise);
    lemma_respond_frame(noise, ok_text());
    lemma_respond_settled(noise + frame(ok_text()), rest);
}

/// After any skipped lines, a line with `ERROR` (and no `CONNECT`, and not
/// `OK`) is a modem error, and nothing queued after it is read.
pub proof fn lemma_error_line_stops(us: Seq<Seq<u8>>, e: Seq<u8>, rest: Seq<u8>)
    requires
        forall|i: int| 0 <= i < us.len() ==> is_skipped_line(#[trigger] us[i]),
        is_line_text(e),
        e.len() > 0,
        e != ok_text(),
        contains(e, error_text()),
        !contains(e, connect_text()),
    ensures
        respond(frames(us) + frame(e) + rest) == ResponseView::Decided(OutcomeView::ModemError(e)),
{
    lemma_respond_start();
    lemma_skipped_frames(Seq::empty(), us);
    assert(Seq::<u8>::empty() + frames(us) =~= frames(us));
    assert(line_verdict(e) == Some(OutcomeView::ModemError(e)));
    lemma_respond_frame(frames(us), e);
    lemma_respond_settled(frames(us) + frame(e), rest);
}

/// Skipped lines (echoes, unsolicited status lines) followed by `OK` give a
/// success with the text `OK`: none of them turns the result into an error,
/// and nothing after the `OK` frame is read.
pub proof fn lemma_ok_after_skipped_lines(us: Seq<Seq<u8>>, rest: Seq<u8>)
    requires
        forall|i: int| 0 <= i < us.len() ==> is_skipped_line(#[trigger] us[i]),
    ensures
        respond(frames(us) + frame(ok_text()) + rest) == ResponseView::Decided(
            OutcomeView::Success(ok_text()),
        ),
{
    lemma_respond_start();
    lemma_ok_verdict();
    lemma_skipped_frames(Seq::empty(), us);
    assert(Seq::<u8>::empty() + frames(us) =~= frames(us));
    lemma_respond_frame(frames(us), ok_text());
    lemma_respond_settled(frames(us) + frame(ok_text()), rest);
}

/// An empty line ends the response with no data; nothing after it is read.
pub proof fn lemma_empty_line_no_data(rest: Seq<u8>)
    ensures
        respond(frame(Seq::empty()) + rest) == ResponseView::Decided(OutcomeView::NoData),
{
    lemma_respond_start();
    lemma_respond_frame(Seq::empty(), Seq::empty());
    assert(Seq::<u8>::empty() + frame(Seq::empty()) =~= frame(Seq::empty()));
    lemma_respond_settled(frame(Seq::empty()), rest);
}

} // verus!
