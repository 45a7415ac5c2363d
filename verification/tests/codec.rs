use hamelin::codec::{write_line, LineCodec, LineRead, LineWrite};
use hamelin::transport::MemTransport;

fn expect_line(r: LineRead) -> String {
    match r {
        LineRead::Line(s) => s,
        other => panic!("expected a line, got {:?}", other),
    }
}

#[test]
fn round_trip_two_lines() {
    let mut out = MemTransport::open(Vec::new(), 64, 64);
    assert_eq!(write_line(&mut out, "hello"), LineWrite::Done);
    assert_eq!(write_line(&mut out, "world"), LineWrite::Done);
    let wire = out.sent().clone();
    assert_eq!(wire.as_slice(), b"hello\nworld\n");

    let mut t = MemTransport::closed(wire, 64, 64);
    let mut c = LineCodec::new();
    assert_eq!(expect_line(c.read_line(&mut t)), "hello");
    assert_eq!(expect_line(c.read_line(&mut t)), "world");
    assert_eq!(c.read_line(&mut t), LineRead::Eof);
}

#[test]
fn round_trip_multibyte_utf8() {
    let mut out = MemTransport::open(Vec::new(), 64, 64);
    assert_eq!(write_line(&mut out, "héllo \u{2713} café"), LineWrite::Done);
    let mut t = MemTransport::open(out.sent().clone(), 64, 64);
    let mut c = LineCodec::new();
    assert_eq!(expect_line(c.read_line(&mut t)), "héllo \u{2713} café");
}

#[test]
fn empty_line_is_a_record() {
    let mut t = MemTransport::open(b"\n\na\n".to_vec(), 64, 64);
    let mut c = LineCodec::new();
    assert_eq!(expect_line(c.read_line(&mut t)), "");
    assert_eq!(expect_line(c.read_line(&mut t)), "");
    assert_eq!(expect_line(c.read_line(&mut t)), "a");
}

#[test]
fn empty_open_transport_would_block() {
    let mut t = MemTransport::open(Vec::new(), 64, 64);
    let mut c = LineCodec::new();
    assert_eq!(c.read_line(&mut t), LineRead::WouldBlock);
    assert_eq!(c.read_line(&mut t), LineRead::WouldBlock);
}

#[test]
fn drained_closed_transport_is_eof() {
    let mut t = MemTransport::closed(Vec::new(), 64, 64);
    let mut c = LineCodec::new();
    assert_eq!(c.read_line(&mut t), LineRead::Eof);
}

#[test]
fn eot_only_line_is_eof() {
    let mut t = MemTransport::open(vec![4u8], 64, 64);
    let mut c = LineCodec::new();
    // The first read pulls the EOT byte into the buffer without
    // finding a newline; every read after that reports the end.
    assert_eq!(c.read_line(&mut t), LineRead::WouldBlock);
    assert_eq!(c.read_line(&mut t), LineRead::Eof);
    assert_eq!(c.read_line(&mut t), LineRead::Eof);
}

#[test]
fn newline_wins_over_later_eot() {
    let mut t = MemTransport::open(b"ok\n\x04".to_vec(), 64, 64);
    let mut c = LineCodec::new();
    assert_eq!(expect_line(c.read_line(&mut t)), "ok");
    assert_eq!(c.read_line(&mut t), LineRead::Eof);
}

#[test]
fn one_chunk_many_delimiters() {
    // A single read delivers "a\nb\nc\n"; each read_line call then
    // returns one line, in order.
    let mut t = MemTransport::open(b"a\nb\nc\n".to_vec(), 64, 64);
    let mut c = LineCodec::new();
    assert_eq!(expect_line(c.read_line(&mut t)), "a");
    assert_eq!(expect_line(c.read_line(&mut t)), "b");
    assert_eq!(expect_line(c.read_line(&mut t)), "c");
    assert_eq!(c.read_line(&mut t), LineRead::WouldBlock);
}

#[test]
fn long_line_across_small_reads() {
    let mut t = MemTransport::open(b"a long record\n".to_vec(), 4, 64);
    let mut c = LineCodec::new();
    let mut polls = 0usize;
    loop {
        match c.read_line(&mut t) {
            LineRead::Line(s) => {
                assert_eq!(s, "a long record");
                break;
            }
            LineRead::WouldBlock => {
                polls += 1;
                assert!(polls < 20, "codec made no progress");
            }
            other => panic!("unexpected {:?}", other),
        }
    }
}

#[test]
fn invalid_utf8_is_reported_and_buffer_survives() {
    // 0xff can never start a UTF-8 scalar.  The broken record is
    // consumed and reported; the next record is intact.
    let mut t = MemTransport::open(b"\xffbad\nok\n".to_vec(), 64, 64);
    let mut c = LineCodec::new();
    assert_eq!(c.read_line(&mut t), LineRead::Encoding);
    assert_eq!(expect_line(c.read_line(&mut t)), "ok");
}

#[test]
fn write_retries_partial_writes() {
    // The transport takes at most three bytes per write; the codec
    // still puts the whole framed record on the wire in one call.
    let mut t = MemTransport::open(Vec::new(), 64, 3);
    assert_eq!(write_line(&mut t, "hello world"), LineWrite::Done);
    assert_eq!(t.sent().as_slice(), b"hello world\n");
}

#[test]
fn write_to_closed_peer_reports_eof() {
    let mut t = MemTransport::closed(Vec::new(), 16, 16);
    assert_eq!(write_line(&mut t, "hello"), LineWrite::Eof);
    assert!(t.sent().is_empty());
}

#[test]
fn write_that_jams_midway_reports_the_stall() {
    // The peer takes four bytes and then nothing more: the codec
    // retries for a while and then gives up with a proper prefix on
    // the wire.
    let mut t = MemTransport::throttled(Vec::new(), 16, 4, 4);
    assert_eq!(write_line(&mut t, "hello"), LineWrite::Stalled);
    assert_eq!(t.sent().as_slice(), b"hell");
}

#[test]
fn write_on_stalled_transport_would_block() {
    let mut t = MemTransport::open(Vec::new(), 64, 0);
    assert_eq!(write_line(&mut t, "hello"), LineWrite::WouldBlock);
    assert!(t.sent().is_empty());
}

#[test]
fn echo_session_over_transports() {
    // The peer sends two lines; the pump feeds them to an echoing
    // child and returns the child's output.  The peer reads back
    // exactly what it sent.
    let mut peer = MemTransport::closed(b"hello\nworld\n".to_vec(), 8, 8);
    let mut child_stdin = MemTransport::open(Vec::new(), 8, 8);
    let mut inbound = LineCodec::new();
    loop {
        match inbound.read_line(&mut peer) {
            LineRead::Line(s) => {
                assert_eq!(write_line(&mut child_stdin, &s), LineWrite::Done);
            }
            LineRead::WouldBlock => continue,
            LineRead::Eof => break,
            other => panic!("unexpected {:?}", other),
        }
    }
    assert_eq!(child_stdin.sent().as_slice(), b"hello\nworld\n");

    // The child echoes stdin to stdout.
    let mut child_stdout = MemTransport::closed(child_stdin.sent().clone(), 8, 8);
    let mut back = MemTransport::open(Vec::new(), 8, 8);
    let mut outbound = LineCodec::new();
    loop {
        match outbound.read_line(&mut child_stdout) {
            LineRead::Line(s) => {
                assert_eq!(write_line(&mut back, &s), LineWrite::Done);
            }
            LineRead::WouldBlock => continue,
            LineRead::Eof => break,
            other => panic!("unexpected {:?}", other),
        }
    }
    assert_eq!(back.sent().as_slice(), b"hello\nworld\n");
}
