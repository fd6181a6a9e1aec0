use vstd::prelude::*;

verus! {

pub const CR: u8 = 13;

pub const LF: u8 = 10;

/// Where the framer stands inside one `CR LF <text> CR LF` frame.
#[derive(Clone, Copy, Debug, PartialEq, Eq, Structural)]
pub enum FrameState {
    /// Skipping bytes until the opening `CR`.
    AwaitCR,
    /// Seen the opening `CR`; waiting for its `LF`.
    AwaitLF,
    /// Inside the frame, collecting text until the closing `CR`.
    Collecting,
    /// Seen the closing `CR`; waiting for its `LF`.
    AwaitFinalLF,
}

/// The state after reading `b` in state `s`, completion aside.
pub open spec fn next_state(s: FrameState, b: u8) -> FrameState {
    match s {
        FrameState::AwaitCR => if b == CR { FrameState::AwaitLF } else { FrameState::AwaitCR },
        FrameState::AwaitLF => if b == LF { FrameState::Collecting } else { FrameState::AwaitLF },
        FrameState::Collecting => if b == CR { FrameState::AwaitFinalLF } else { FrameState::Collecting },
        FrameState::AwaitFinalLF => FrameState::AwaitFinalLF,
    }
}

/// A byte that may stand in a line's text: one-byte UTF-8, not `CR`.
pub open spec fn is_text_byte(b: u8) -> bool {
    b < 0x80 && b != CR
}

/// What one byte does to a framer in state `s` holding `line`.
pub ghost enum FeedView {
    /// Still inside the frame, in this state with this text.
    Continue(FrameState, Seq<u8>),
    /// The closing `LF` arrived: the frame's text.
    Complete(Seq<u8>),
    /// A byte of the text is not one-byte UTF-8.
    NotText,
}

pub open spec fn feed_view(s: FrameState, line: Seq<u8>, b: u8) -> FeedView {
    if s == FrameState::AwaitFinalLF && b == LF {
        FeedView::Complete(line)
    } else if s == FrameState::Collecting && b != CR && b >= 0x80 {
        FeedView::NotText
    } else if s == FrameState::Collecting && b != CR {
        FeedView::Continue(FrameState::Collecting, line.push(b))
    } else {
        FeedView::Continue(next_state(s, b), line)
    }
}

/// The framer's reading of a byte stream, one byte after another from a
/// fresh start; once a frame is complete (or refused) later bytes do not
/// change it. The count is the number of bytes used up to that point.
pub ghost enum ScanView {
    Scanning(FrameState, Seq<u8>),
    Framed(Seq<u8>, nat),
    Refused(nat),
}

pub open spec fn scan(bytes: Seq<u8>) -> ScanView
    decreases bytes.len(),
{
    if bytes.len() == 0 {
        ScanView::Scanning(FrameState::AwaitCR, Seq::empty())
    } else {
        match scan(bytes.drop_last()) {
            ScanView::Scanning(s, line) => match feed_view(s, line, bytes.last()) {
                FeedView::Continue(s2, line2) => ScanView::Scanning(s2, line2),
                FeedView::Complete(text) => ScanView::Framed(text, bytes.len()),
                FeedView::NotText => ScanView::Refused(bytes.len()),
            },
            done => done,
        }
    }
}

/// The pure transition function of the framer's state.
pub fn transition(s: FrameState, b: u8) -> (r: FrameState)
    ensures
        r == next_state(s, b),
{
    match s {
        FrameState::AwaitCR => if b == CR { FrameState::AwaitLF } else { FrameState::AwaitCR },
        FrameState::AwaitLF => if b == LF { FrameState::Collecting } else { FrameState::AwaitLF },
        FrameState::Collecting => if b == CR { FrameState::AwaitFinalLF } else { FrameState::Collecting },
        FrameState::AwaitFinalLF => FrameState::AwaitFinalLF,
    }
}

/// What feeding one byte to a [`LineFramer`] gave.
#[derive(Clone, Debug, PartialEq, Eq)]
pub enum Feed {
    /// The frame is not complete yet.
    Pending,
    /// The closing `CR LF` arrived: the frame's text, delimiters stripped.
    Line(Vec<u8>),
    /// A byte of the text is not one-byte UTF-8.
    NotText,
}

/// Assembles one `CR LF <text> CR LF` frame from bytes fed one at a time.
#[derive(Debug)]
pub struct LineFramer {
    pub state: FrameState,
    pub line: Vec<u8>,
}

impl LineFramer {
    pub fn new() -> (r: Self)
        ensures
            r.state == FrameState::AwaitCR,
            r.line@ == Seq::<u8>::empty(),
    {
        LineFramer { state: FrameState::AwaitCR, line: Vec::new() }
    }

    /// Feeds one byte. After `Line` or `NotText` the framer is spent: start
    /// a new one for the next frame.
    pub fn feed(&mut self, b: u8) -> (r: Feed)
        ensures
            match feed_view(old(self).state, old(self).line@, b) {
                FeedView::Continue(s, line) => r == Feed::Pending && final(self).state == s
                    && final(self).line@ == line,
                FeedView::Complete(text) => r matches Feed::Line(t) && t@ == text,
                FeedView::NotText => r == Feed::NotText,
            },
    {
        if self.state == FrameState::AwaitFinalLF && b == LF {
            let mut text = Vec::new();
            std::mem::swap(&mut text, &mut self.line);
            Feed::Line(text)
        } else if self.state == FrameState::Collecting && b != CR && b >= 0x80 {
            Feed::NotText
        } else {
            if self.state == FrameState::Collecting && b != CR {
                self.line.push(b);
            }
            self.state = transition(self.state, b);
            Feed::Pending
        }
    }
}

/// The result of reading one line from a buffered byte stream.
#[derive(Clone, Debug, PartialEq, Eq)]
pub enum LineRead {
    /// A complete frame's text.
    Line(Vec<u8>),
    /// The stream ended before a complete frame; partial text is dropped.
    NoData,
    /// A byte of the text is not one-byte UTF-8.
    NotText,
}

/// Reads one frame from the start of `bytes`, which stand for everything the
/// source yields before it reports end of stream. Returns the result and the
/// number of bytes consumed.
pub fn read_line(bytes: &[u8]) -> (r: (LineRead, usize))
    ensures
        match scan(bytes@) {
            ScanView::Framed(text, n) => r.0 matches LineRead::Line(t) && t@ == text && r.1 == n,
            ScanView::Refused(n) => r.0 == LineRead::NotText && r.1 == n,
            ScanView::Scanning(_, _) => r.0 == LineRead::NoData && r.1 == bytes@.len(),
        },
{
    let mut framer = LineFramer::new();
    let mut i: usize = 0;
    while i < bytes.len()
        invariant
            0 <= i <= bytes@.len(),
            scan(bytes@.take(i as int)) == ScanView::Scanning(framer.state, framer.line@),
        decreases bytes@.len() - i,
    {
        proof {
            assert(bytes@.take(i + 1int).drop_last() =~= bytes@.take(i as int));
        }
        let b = bytes[i];
        match framer.feed(b) {
            Feed::Pending => {},
            Feed::Line(t) => {
                proof {
                    lemma_scan_settled(bytes@.take(i + 1int), bytes@.skip(i + 1int));
                    assert(bytes@.take(i + 1int) + bytes@.skip(i + 1int) =~= bytes@);
                }
                return (LineRead::Line(t), i + 1);
            },
            Feed::NotText => {
                proof {
                    lemma_scan_settled(bytes@.take(i + 1int), bytes@.skip(i + 1int));
                    assert(bytes@.take(i + 1int) + bytes@.skip(i + 1int) =~= bytes@);
                }
                return (LineRead::NotText, i + 1);
            },
        }
        i = i + 1;
    }
    assert(bytes@.take(i as int) =~= bytes@);
    (LineRead::NoData, i)
}

/// Once a frame is complete or refused, bytes after it change nothing.
pub proof fn lemma_scan_settled(a: Seq<u8>, rest: Seq<u8>)
    requires
        !(scan(a) is Scanning),
    ensures
        scan(a + rest) == scan(a),
    decreases rest.len(),
{
    if rest.len() == 0 {
        assert(a + rest =~= a);
    } else {
        lemma_scan_settled(a, rest.drop_last());
        assert((a + rest).drop_last() =~= a + rest.drop_last());
    }
}

/// A text that can travel in one frame: one-byte UTF-8, no `CR`.
pub open spec fn is_line_text(t: Seq<u8>) -> bool {
    forall|i: int| 0 <= i < t.len() ==> is_text_byte(#[trigger] t[i])
}

/// The frame `CR LF <t> CR LF`.
pub open spec fn frame(t: Seq<u8>) -> Seq<u8> {
    seq![CR, LF] + t + seq![CR, LF]
}

/// The frames of `texts`, one after another.
pub open spec fn frames(texts: Seq<Seq<u8>>) -> Seq<u8>
    decreases texts.len(),
{
    if texts.len() == 0 {
        Seq::empty()
    } else {
        frame(texts[0]) + frames(texts.skip(1))
    }
}

/// The texts of the lines read one after another from `bytes`, each read
/// starting where the previous one stopped, until one yields no line.
pub open spec fn lines_of(bytes: Seq<u8>) -> Seq<Seq<u8>>
    decreases bytes.len(),
{
    match scan(bytes) {
        ScanView::Framed(text, n) => if 0 < n <= bytes.len() {
            seq![text] + lines_of(bytes.skip(n as int))
        } else {
            Seq::empty()
        },
        _ => Seq::empty(),
    }
}

proof fn lemma_scan_opening()
    ensures
        scan(seq![CR]) == ScanView::Scanning(FrameState::AwaitLF, Seq::<u8>::empty()),
        scan(seq![CR, LF]) == ScanView::Scanning(FrameState::Collecting, Seq::<u8>::empty()),
{
    let empty = Seq::<u8>::empty();
    assert(scan(empty) == ScanView::Scanning(FrameState::AwaitCR, empty));
    assert(seq![CR].drop_last() =~= empty);
    assert(seq![CR].last() == CR);
    assert(scan(seq![CR]) == ScanView::Scanning(FrameState::AwaitLF, empty));
    assert(seq![CR, LF].drop_last() =~= seq![CR]);
    assert(seq![CR, LF].last() == LF);
}

/// Inside a frame, the framer holds exactly the text read so far.
proof fn lemma_scan_collecting(t: Seq<u8>, k: int)
    requires
        is_line_text(t),
        0 <= k <= t.len(),
    ensures
        scan(seq![CR, LF] + t.take(k)) == ScanView::Scanning(FrameState::Collecting, t.take(k)),
    decreases k,
{
    if k == 0 {
        lemma_scan_opening();
        assert(seq![CR, LF] + t.take(0) =~= seq![CR, LF]);
        assert(t.take(0) =~= Seq::<u8>::empty());
    } else {
        lemma_scan_collecting(t, k - 1);
        assert((seq![CR, LF] + t.take(k)).drop_last() =~= seq![CR, LF] + t.take(k - 1));
        assert(t.take(k - 1).push(t[k - 1]) =~= t.take(k));
        assert(is_text_byte(t[k - 1]));
    }
}

/// A frame is read back as its text, whatever follows it.
pub proof fn lemma_scan_frame(t: Seq<u8>, rest: Seq<u8>)
    requires
        is_line_text(t),
    ensures
        scan(frame(t) + rest) == ScanView::Framed(t, frame(t).len()),
{
    let open = seq![CR, LF] + t;
    lemma_scan_collecting(t, t.len() as int);
    assert(t.take(t.len() as int) =~= t);
    assert(open =~= seq![CR, LF] + t.take(t.len() as int));
    assert((open + seq![CR]).drop_last() =~= open);
    assert((open + seq![CR]).last() == CR);
    assert(scan(open + seq![CR]) == ScanView::Scanning(FrameState::AwaitFinalLF, t));
    assert(frame(t).drop_last() =~= open + seq![CR]);
    assert(frame(t).last() == LF);
    assert(scan(frame(t)) == ScanView::Framed(t, frame(t).len()));
    lemma_scan_settled(frame(t), rest);
}

/// Every proper prefix of a frame is still being scanned: a stream that ends
/// there yields no line and no error.
pub proof fn lemma_partial_frame_pending(t: Seq<u8>, k: int)
    requires
        is_line_text(t),
        0 <= k < frame(t).len(),
    ensures
        scan(frame(t).take(k)) is Scanning,
{
    if k == 0 {
        assert(frame(t).take(0) =~= Seq::<u8>::empty());
    } else if k == 1 {
        lemma_scan_opening();
        assert(frame(t).take(1) =~= seq![CR]);
    } else if k <= t.len() + 2 {
        lemma_scan_collecting(t, k - 2);
        assert(frame(t).take(k) =~= seq![CR, LF] + t.take(k - 2));
    } else {
        lemma_scan_collecting(t, t.len() as int);
        assert(t.take(t.len() as int) =~= t);
        assert(frame(t).take(k).drop_last() =~= seq![CR, LF] + t);
    }
}

/// A stream made of complete frames is read back as their texts, in order,
/// each with its delimiters stripped once.
pub proof fn lemma_frames_read_back(texts: Seq<Seq<u8>>)
    requires
        forall|i: int| 0 <= i < texts.len() ==> is_line_text(#[trigger] texts[i]),
    ensures
        lines_of(frames(texts)) == texts,
    decreases texts.len(),
{
    if texts.len() == 0 {
        assert(scan(Seq::<u8>::empty()) is Scanning);
        assert(lines_of(frames(texts)) =~= texts);
    } else {
        let t = texts[0];
        let rest = frames(texts.skip(1));
        assert(is_line_text(t));
        lemma_scan_frame(t, rest);
        assert((frame(t) + rest).skip(frame(t).len() as int) =~= rest);
        assert forall|i: int| 0 <= i < texts.skip(1).len() implies is_line_text(
            #[trigger] texts.skip(1)[i],
        ) by {
            assert(texts.skip(1)[i] == texts[i + 1]);
        }
        lemma_frames_read_back(texts.skip(1));
        assert(seq![t] + texts.skip(1) =~= texts);
    }
}

} // verus!
