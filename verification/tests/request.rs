use bytes::BytesMut;
use gofer::request::{RequestDecoder, RequestError};

#[test]
fn full_line() {
    let mut decoder = RequestDecoder::with_max_length(100);
    let mut buf = BytesMut::from("foo bar\r\nbaz");
    assert_eq!(decoder.decode(&mut buf).unwrap().unwrap().selector, "foo bar");
    assert_eq!(&buf, &b"baz"[..]);
    assert!(decoder.is_finished());
}

#[test]
fn partial_line() {
    let mut decoder = RequestDecoder::with_max_length(100);
    let mut buf = BytesMut::from("foo");
    assert!(decoder.decode(&mut buf).unwrap().is_none());
    assert_eq!(buf, "foo");
    assert!(!decoder.is_finished());
}

#[test]
fn too_long() {
    let mut decoder = RequestDecoder::with_max_length(3);
    let mut buf = BytesMut::from("foobar");
    match decoder.decode(&mut buf) {
        Err(RequestError::TooLong) => (),
        other => panic!("unexpected result {:?}", other),
    }
    assert!(decoder.is_finished());
}

#[test]
fn empty() {
    let mut decoder = RequestDecoder::with_max_length(100);
    let mut buf = BytesMut::from("");
    assert!(decoder.decode(&mut buf).unwrap().is_none());
}

#[test]
fn empty_reader() {
    let mut decoder = RequestDecoder::with_max_length(100);
    let mut buf = BytesMut::from("");
    match decoder.decode_eof(&mut buf) {
        Err(RequestError::InvalidSelector(reason)) => assert_eq!(reason, "missing terminator"),
        other => panic!("{:?}", other),
    }
}

fn expect_invalid(input: &str) {
    let mut decoder = RequestDecoder::with_max_length(100);
    let mut buf = BytesMut::from(input);
    match decoder.decode(&mut buf) {
        Err(RequestError::InvalidSelector(_)) => (),
        other => panic!("unexpected result {:?}", other),
    }
    assert_eq!(buf, input);
    assert!(!decoder.is_finished());
}

#[test]
fn bad_chars() {
    expect_invalid("abcd\ref");
    expect_invalid("abc\rdef");
    expect_invalid("abc\ndef\r\n");
    expect_invalid("abc\0def\r\n");
    expect_invalid("abc\tdef\r\n");

    // A CR at the end of what has arrived may still become a line end, so it
    // is an error only once the stream has ended.
    let mut decoder = RequestDecoder::with_max_length(100);
    let mut buf = BytesMut::from("abc\r");
    assert!(decoder.decode(&mut buf).unwrap().is_none());
    match decoder.decode_eof(&mut buf) {
        Err(RequestError::InvalidSelector(_)) => (),
        other => panic!("unexpected result {:?}", other),
    }
}

#[test]
fn clean_selector_is_consumed_with_its_line_end() {
    let mut decoder = RequestDecoder::with_max_length(1024);
    let mut buf = BytesMut::from("/docs/a b.txt\r\n");
    let request = decoder.decode(&mut buf).unwrap().unwrap();
    assert_eq!(request.selector, "/docs/a b.txt");
    assert_eq!(buf.len(), 0);
    assert!(decoder.is_finished());
}

#[test]
fn selector_of_exactly_the_limit_is_accepted() {
    let mut decoder = RequestDecoder::with_max_length(3);
    let mut buf = BytesMut::from("abc\r\nrest");
    assert_eq!(decoder.decode(&mut buf).unwrap().unwrap().selector, "abc");
    assert_eq!(buf, "rest");
}

#[test]
fn selector_one_over_the_limit_is_too_long() {
    let mut decoder = RequestDecoder::with_max_length(3);
    let mut buf = BytesMut::from("abcd\r\n");
    match decoder.decode(&mut buf) {
        Err(RequestError::TooLong) => (),
        other => panic!("unexpected result {:?}", other),
    }
    assert_eq!(buf, "abcd\r\n");
}

#[test]
fn buffer_at_the_limit_without_line_end_asks_for_more() {
    let mut decoder = RequestDecoder::with_max_length(3);
    let mut buf = BytesMut::from("abc");
    assert!(decoder.decode(&mut buf).unwrap().is_none());
    assert!(!decoder.is_finished());
    buf.extend_from_slice(b"\r\n");
    assert_eq!(decoder.decode(&mut buf).unwrap().unwrap().selector, "abc");
}

#[test]
fn buffer_over_the_limit_with_half_a_line_end_is_too_long() {
    let mut decoder = RequestDecoder::with_max_length(3);
    let mut buf = BytesMut::from("abc\r");
    match decoder.decode(&mut buf) {
        Err(RequestError::TooLong) => (),
        other => panic!("unexpected result {:?}", other),
    }
    assert!(decoder.is_finished());
    assert_eq!(buf, "abc\r");
}

#[test]
fn empty_selector_is_a_request() {
    let mut decoder = RequestDecoder::with_max_length(100);
    let mut buf = BytesMut::from("\r\n");
    assert_eq!(decoder.decode(&mut buf).unwrap().unwrap().selector, "");
    assert_eq!(buf.len(), 0);
}

#[test]
fn forbidden_byte_wins_over_length() {
    let mut decoder = RequestDecoder::with_max_length(3);
    let mut buf = BytesMut::from("a\tbcdef");
    match decoder.decode(&mut buf) {
        Err(RequestError::InvalidSelector(_)) => (),
        other => panic!("unexpected result {:?}", other),
    }
}

#[test]
fn invalid_selector_message_names_buffer_and_offset() {
    let mut decoder = RequestDecoder::with_max_length(100);
    let mut buf = BytesMut::from("ab\tc");
    match decoder.decode(&mut buf) {
        Err(RequestError::InvalidSelector(reason)) => {
            assert_eq!(reason, "selector \"ab\\tc\" contains invalid characters at 1");
        }
        other => panic!("unexpected result {:?}", other),
    }
}

#[test]
fn selector_that_is_not_utf8_is_rejected_and_consumed() {
    let mut decoder = RequestDecoder::with_max_length(100);
    let mut buf = BytesMut::from(&b"\xff\xfe\r\nnext"[..]);
    match decoder.decode(&mut buf) {
        Err(RequestError::Utf8(_)) => (),
        other => panic!("unexpected result {:?}", other),
    }
    assert_eq!(buf, "next");
    assert!(decoder.is_finished());
}

#[test]
fn line_end_split_over_two_reads() {
    let mut decoder = RequestDecoder::with_max_length(100);
    let mut buf = BytesMut::from("/a\r");
    assert!(decoder.decode(&mut buf).unwrap().is_none());
    assert_eq!(buf, "/a\r");
    buf.extend_from_slice(b"\n");
    assert_eq!(decoder.decode(&mut buf).unwrap().unwrap().selector, "/a");
}

#[test]
fn stream_end_with_complete_line_gives_the_request() {
    let mut decoder = RequestDecoder::with_max_length(100);
    let mut buf = BytesMut::from("/a\r\n");
    assert_eq!(decoder.decode_eof(&mut buf).unwrap().unwrap().selector, "/a");
}
