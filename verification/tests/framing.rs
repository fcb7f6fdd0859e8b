use notify_lsp_proxy::framing::{frame, header_length, read_message, ReadOutcome};

fn body_of(outcome: ReadOutcome) -> (Vec<u8>, usize) {
    match outcome {
        ReadOutcome::Message { body, used } => (body, used),
        _ => panic!("no message"),
    }
}

#[test]
fn frames_a_body() {
    assert_eq!(frame(b"{}"), b"Content-Length: 2\r\n\r\n{}".to_vec());
}

#[test]
fn frames_an_empty_body() {
    assert_eq!(frame(b""), b"Content-Length: 0\r\n\r\n".to_vec());
}

#[test]
fn counts_bytes_in_decimal() {
    let body = vec![b'x'; 1234];
    let message = frame(&body);
    assert!(message.starts_with(b"Content-Length: 1234\r\n\r\nx"));
    assert_eq!(message.len(), 24 + 1234);
    assert_eq!(frame("é".as_bytes()), "Content-Length: 2\r\n\r\né".as_bytes().to_vec());
}

#[test]
fn reads_back_what_was_framed() {
    for length in [0usize, 1, 9, 10, 11, 99, 100, 4096] {
        let body = vec![0xffu8; length];
        let mut stream = frame(&body);
        let framed = stream.len();
        stream.extend_from_slice(b"Content-Length: 1\r\n\r\nz");
        let (read, used) = body_of(read_message(&stream, false));
        assert_eq!(read, body);
        assert_eq!(used, framed);
        let (next, _) = body_of(read_message(&stream[used..], true));
        assert_eq!(next, b"z".to_vec());
    }
}

#[test]
fn waits_until_the_message_is_whole() {
    let stream = frame(b"hello");
    for n in 0..stream.len() {
        assert!(matches!(read_message(&stream[..n], false), ReadOutcome::NeedMore));
    }
    let (body, used) = body_of(read_message(&stream, false));
    assert_eq!(body, b"hello".to_vec());
    assert_eq!(used, stream.len());
}

#[test]
fn later_bytes_change_nothing() {
    let mut stream = frame(b"one");
    let before = body_of(read_message(&stream, false));
    stream.extend_from_slice(b"\xff\xfe garbage");
    assert_eq!(body_of(read_message(&stream, false)), before);
    assert_eq!(body_of(read_message(&stream, true)), before);
}

#[test]
fn ends_where_the_stream_ends() {
    assert!(matches!(read_message(b"", true), ReadOutcome::End { .. }));
    assert!(matches!(read_message(b"", false), ReadOutcome::NeedMore));
    assert!(matches!(read_message(b"Content-Length: 5\r\n", true), ReadOutcome::End { .. }));
    assert!(matches!(read_message(b"Content-Length: 5", true), ReadOutcome::End { .. }));
}

#[test]
fn ends_at_a_header_without_length() {
    assert!(matches!(read_message(b"\r\nrest", false), ReadOutcome::End { .. }));
    assert!(matches!(read_message(b"Content-Type: x\r\n\r\n{}", false), ReadOutcome::End { .. }));
    assert!(matches!(read_message(b"Content-Length: many\r\n\r\n{}", false), ReadOutcome::End { .. }));
    assert!(matches!(read_message(b"content-length: 2\r\n\r\n{}", false), ReadOutcome::End { .. }));
    assert!(matches!(read_message(b" Content-Length: 2\r\n\r\n{}", false), ReadOutcome::End { .. }));
    assert!(matches!(
        read_message(b"Content-Length: 99999999999999999999999\r\n\r\n", false),
        ReadOutcome::End { .. }
    ));
}

#[test]
fn a_truncated_body_is_an_error() {
    assert!(matches!(
        read_message(b"Content-Length: 5\r\n\r\nabc", true),
        ReadOutcome::Truncated
    ));
    assert!(matches!(
        read_message(b"Content-Length: 5\r\n\r\nabc", false),
        ReadOutcome::NeedMore
    ));
}

#[test]
fn a_header_that_is_not_text_is_an_error() {
    assert!(matches!(
        read_message(b"Content-Length: 2\r\nX: \xff\r\n\r\n{}", false),
        ReadOutcome::NotText
    ));
    assert!(matches!(read_message(b"\xff", true), ReadOutcome::NotText));
    assert!(matches!(read_message(b"\xff", false), ReadOutcome::NeedMore));
}

#[test]
fn the_last_length_counts() {
    let stream = b"Content-Length: 1\r\nContent-Length: 3\r\nContent-Length: no\r\n\r\nabcdef";
    let (body, used) = body_of(read_message(stream, false));
    assert_eq!(body, b"abc".to_vec());
    assert_eq!(used, stream.len() - 3);
}

#[test]
fn header_lines_are_read_loosely() {
    for header in [
        "Content-Length: 2\n\n",
        "Content-Length:2\r\r\n\r\n",
        "Content-Length:\t +2 \u{a0}\u{3000}\r\n\r\n",
        "Content-Length: 0002\r\nX-Ünknown: ß\r\n\n",
    ] {
        let stream = format!("{header}{{}}");
        let (body, used) = body_of(read_message(stream.as_bytes(), false));
        assert_eq!(body, b"{}".to_vec());
        assert_eq!(used, stream.len());
    }
}

#[test]
fn an_unfinished_empty_line_ends_the_header() {
    let (body, used) = body_of(read_message(b"Content-Length: 0\r\n\r", true));
    assert_eq!(body, Vec::<u8>::new());
    assert_eq!(used, 20);
}

#[test]
fn lengths_in_header_lines() {
    let length = |line: &str| {
        let chars: Vec<char> = line.chars().collect();
        header_length(&chars)
    };
    assert_eq!(length("Content-Length: 17"), Some(17));
    assert_eq!(length("Content-Length:+17"), Some(17));
    assert_eq!(length("Content-Length: -17"), None);
    assert_eq!(length("Content-Length:"), None);
    assert_eq!(length("Content-Lengt"), None);
    assert_eq!(length("Content-Length: 1 7"), None);
}

#[test]
fn what_follows_a_header_without_length_stays_unread() {
    let input = b"content-length: 2\r\n\r\n{}";
    for at_end in [false, true] {
        match read_message(input, at_end) {
            ReadOutcome::End { used } => assert_eq!(&input[used..], b"{}"),
            _ => panic!("not at the end"),
        }
    }
    assert!(matches!(read_message(b"", true), ReadOutcome::End { used: 0 }));
    assert!(matches!(read_message(b"Content-Length: 2\r\n", true), ReadOutcome::End { used: 19 }));
}
