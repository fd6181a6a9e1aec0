use pico_lte_ppp::framer::{read_line, transition, Feed, FrameState, LineFramer, LineRead};
use pico_lte_ppp::response::{classify_line, contains_bytes, Outcome, ResponseClassifier};

fn read_all_lines(mut bytes: &[u8]) -> Vec<Vec<u8>> {
    let mut lines = Vec::new();
    loop {
        let (r, used) = read_line(bytes);
        match r {
            LineRead::Line(t) => lines.push(t),
            _ => return lines,
        }
        bytes = &bytes[used..];
    }
}

#[test]
fn complete_frames_are_read_back_in_order() {
    let stream = b"\r\nfirst\r\n\r\n+CSQ: 15,99\r\n\r\nOK\r\n";
    let lines = read_all_lines(stream);
    assert_eq!(lines, vec![b"first".to_vec(), b"+CSQ: 15,99".to_vec(), b"OK".to_vec()]);
}

#[test]
fn frame_read_reports_bytes_used() {
    let (r, used) = read_line(b"\r\nOK\r\nrest");
    assert_eq!(r, LineRead::Line(b"OK".to_vec()));
    assert_eq!(used, 6);
}

#[test]
fn partial_frame_yields_no_data() {
    let (r, used) = read_line(b"\r\n partial");
    assert_eq!(r, LineRead::NoData);
    assert_eq!(used, 10);
}

#[test]
fn empty_stream_yields_no_data() {
    assert_eq!(read_line(b""), (LineRead::NoData, 0));
}

#[test]
fn leading_echo_noise_is_skipped() {
    let (r, _) = read_line(b"AT+CSQ\r\r\n+CSQ: 20,0\r\n");
    assert_eq!(r, LineRead::Line(b"+CSQ: 20,0".to_vec()));
}

#[test]
fn stray_byte_after_closing_cr_is_dropped() {
    let (r, used) = read_line(b"\r\nAB\rX\n");
    assert_eq!(r, LineRead::Line(b"AB".to_vec()));
    assert_eq!(used, 7);
}

#[test]
fn non_text_byte_is_refused() {
    let (r, used) = read_line(b"\r\nO\xffK\r\n");
    assert_eq!(r, LineRead::NotText);
    assert_eq!(used, 4);
}

#[test]
fn empty_frame_is_an_empty_line() {
    assert_eq!(read_line(b"\r\n\r\n"), (LineRead::Line(Vec::new()), 4));
}

#[test]
fn transition_table() {
    assert_eq!(transition(FrameState::AwaitCR, b'x'), FrameState::AwaitCR);
    assert_eq!(transition(FrameState::AwaitCR, b'\r'), FrameState::AwaitLF);
    assert_eq!(transition(FrameState::AwaitLF, b'x'), FrameState::AwaitLF);
    assert_eq!(transition(FrameState::AwaitLF, b'\n'), FrameState::Collecting);
    assert_eq!(transition(FrameState::Collecting, b'x'), FrameState::Collecting);
    assert_eq!(transition(FrameState::Collecting, b'\r'), FrameState::AwaitFinalLF);
    assert_eq!(transition(FrameState::AwaitFinalLF, b'x'), FrameState::AwaitFinalLF);
}

#[test]
fn framer_feeds_one_byte_at_a_time() {
    let mut f = LineFramer::new();
    for b in b"\r\nOK\r".iter() {
        assert_eq!(f.feed(*b), Feed::Pending);
    }
    assert_eq!(f.feed(b'\n'), Feed::Line(b"OK".to_vec()));
}

#[test]
fn substring_search() {
    assert!(contains_bytes(b"NO CARRIER CONNECT 150", b"CONNECT"));
    assert!(contains_bytes(b"ERROR", b"ERROR"));
    assert!(!contains_bytes(b"ERRO", b"ERROR"));
    assert!(contains_bytes(b"abc", b""));
    assert!(!contains_bytes(b"", b"a"));
}

#[test]
fn line_classification() {
    assert_eq!(classify_line(b"OK".to_vec()), Some(Outcome::Success(b"OK".to_vec())));
    assert_eq!(classify_line(b"CONNECT 150".to_vec()), Some(Outcome::Prompt(b"CONNECT 150".to_vec())));
    assert_eq!(classify_line(b"+CME ERROR: 10".to_vec()), Some(Outcome::ModemError(b"+CME ERROR: 10".to_vec())));
    assert_eq!(classify_line(Vec::new()), Some(Outcome::NoData));
    assert_eq!(classify_line(b"OK ".to_vec()), None);
    assert_eq!(classify_line(b"+CSQ: 15,99".to_vec()), None);
}

fn classify_stream(bytes: &[u8]) -> (Option<Outcome>, usize) {
    let mut c = ResponseClassifier::new();
    for (i, b) in bytes.iter().enumerate() {
        if let Some(o) = c.feed(*b) {
            return (Some(o), i + 1);
        }
    }
    (None, bytes.len())
}

#[test]
fn forged_ok_line_is_success() {
    assert_eq!(classify_stream(b"\r\nOK\r\n"), (Some(Outcome::Success(b"OK".to_vec())), 6));
}

#[test]
fn error_line_stops_the_classifier() {
    let stream = b"\r\nERROR\r\n\r\nOK\r\n";
    let (o, used) = classify_stream(stream);
    assert_eq!(o, Some(Outcome::ModemError(b"ERROR".to_vec())));
    assert_eq!(used, 9);
}

#[test]
fn unsolicited_line_before_ok_is_skipped() {
    let (o, used) = classify_stream(b"\r\n+CSQ: 15,99\r\n\r\nOK\r\n");
    assert_eq!(o, Some(Outcome::Success(b"OK".to_vec())));
    assert_eq!(used, 21);
}

#[test]
fn connect_line_is_a_prompt() {
    let (o, _) = classify_stream(b"\r\nCONNECT 150\r\n");
    assert_eq!(o, Some(Outcome::Prompt(b"CONNECT 150".to_vec())));
}

#[test]
fn classifier_waits_on_partial_frame() {
    assert_eq!(classify_stream(b"\r\nO"), (None, 3));
}

#[test]
fn empty_line_ends_response_with_no_data() {
    assert_eq!(classify_stream(b"\r\n\r\n\r\nOK\r\n"), (Some(Outcome::NoData), 4));
}

#[test]
fn echo_noise_before_ok_is_skipped() {
    assert_eq!(classify_stream(b"AT+CSQ\r\nOK\r\nERROR"), (Some(Outcome::Success(b"OK".to_vec())), 12));
}

#[test]
fn error_line_after_unsolicited_lines_stops() {
    let stream = b"\r\n+CREG: 1\r\n\r\n+CSQ: 15,99\r\n\r\n+CME ERROR: 3\r\n\r\nOK\r\n";
    let (o, used) = classify_stream(stream);
    assert_eq!(o, Some(Outcome::ModemError(b"+CME ERROR: 3".to_vec())));
    assert_eq!(used, stream.len() - 6);
}
