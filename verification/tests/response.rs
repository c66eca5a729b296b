use correctness_bench::response::{
    parse_response, read_head, Head, HeaderLine, ParseOutcome, ParsedResponse, ReadBuffer, ReadStep,
    READ_BUF_BYTES,
};

fn complete(bytes: &[u8]) -> ParsedResponse {
    match parse_response(bytes) {
        ParseOutcome::Complete(p) => p,
        other => panic!("not complete: {other:?}"),
    }
}

#[test]
fn a_whole_response_is_read() {
    let bytes = b"HTTP/1.1 200 OK\r\nContent-Length: 5\r\nContent-Type:  Application/JSON; x \r\n\r\nhello";
    let p = complete(bytes);
    assert_eq!(p.msg_len, bytes.len());
    assert_eq!(p.status, 200);
    assert_eq!(p.content_length, 5);
    assert_eq!(p.content_type_lc.as_deref(), Some("application/json; x"));
    assert_eq!(p.retry_after_ms, None);
}

#[test]
fn retry_after_is_read_in_milliseconds() {
    let p = complete(b"HTTP/1.1 429 Too Many Requests\r\nretry-after: 1\r\ncontent-length: 0\r\n\r\n");
    assert_eq!((p.status, p.retry_after_ms), (429, Some(1000)));
    let p = complete(b"HTTP/1.1 429 X\r\nRetry-After: soon\r\n\r\n");
    assert_eq!(p.retry_after_ms, None);
    let p = complete(b"HTTP/1.1 429 X\r\nRetry-After: 18446744073709551615\r\n\r\n");
    assert_eq!(p.retry_after_ms, Some(u64::MAX));
}

#[test]
fn a_body_still_on_its_way_needs_more() {
    assert!(matches!(
        parse_response(b"HTTP/1.1 200 OK\r\nContent-Length: 5\r\n\r\nhell"),
        ParseOutcome::NeedMore
    ));
    assert!(matches!(parse_response(b"HTTP/1.1 200 OK\r\nCont"), ParseOutcome::NeedMore));
    assert!(matches!(parse_response(b""), ParseOutcome::NeedMore));
    assert!(matches!(
        parse_response(b"HTTP/1.1 200 OK\r\nContent-Length: 18446744073709551615\r\n\r\n"),
        ParseOutcome::NeedMore
    ));
}

#[test]
fn what_is_no_response_is_bad() {
    assert!(matches!(parse_response(b"hello there\r\n\r\n"), ParseOutcome::Bad));
    let mut many = b"HTTP/1.1 200 OK\r\n".to_vec();
    for i in 0..33 {
        many.extend_from_slice(format!("h{i}: v\r\n").as_bytes());
    }
    many.extend_from_slice(b"\r\n");
    assert!(matches!(parse_response(&many), ParseOutcome::Bad));
}

#[test]
fn a_length_that_is_no_number_is_none() {
    let p = complete(b"HTTP/1.1 200 OK\r\nContent-Length: five\r\n\r\nhello");
    assert_eq!(p.content_length, 0);
    // The last readable one counts.
    let p = complete(b"HTTP/1.1 200 OK\r\nContent-Length: 1\r\ncontent-length: 2\r\n\r\nab");
    assert_eq!(p.content_length, 2);
    let p = complete(b"HTTP/1.1 200 OK\r\nContent-Length: 1\r\ncontent-length: \xff\r\n\r\nab");
    assert_eq!(p.content_length, 1);
}

#[test]
fn a_head_without_a_code_has_status_zero() {
    let head = Head::Complete {
        end: 10,
        code: None,
        headers: vec![HeaderLine { name: "Content-Length".into(), value: b"3".to_vec() }],
    };
    match read_head(&head, 13) {
        ParseOutcome::Complete(p) => assert_eq!((p.status, p.msg_len), (0, 13)),
        other => panic!("{other:?}"),
    }
    assert!(matches!(read_head(&head, 12), ParseOutcome::NeedMore));
    assert!(matches!(read_head(&Head::Partial, 5), ParseOutcome::NeedMore));
    assert!(matches!(read_head(&Head::Bad, 5), ParseOutcome::Bad));
}

#[test]
fn pipelined_bytes_stay_in_the_buffer() {
    let mut b = ReadBuffer::new();
    b.fill(b"HTTP/1.1 200 OK\r\ncontent-length: 2\r\n\r\nabHTTP/1.1 500 X\r\n");
    match b.next_read(0, 10) {
        ReadStep::Done(p) => {
            assert_eq!(p.status, 200);
            b.consume(p.msg_len);
        }
        other => panic!("{other:?}"),
    }
    assert_eq!(b.slice(0, b.len()), b"HTTP/1.1 500 X\r\n");
    b.fill(b"\r\n");
    match b.next_read(0, 10) {
        ReadStep::Done(p) => assert_eq!((p.status, p.msg_len), (500, 18)),
        other => panic!("{other:?}"),
    }
}

#[test]
fn reading_goes_on_until_the_deadline_or_the_buffer_is_full() {
    let mut b = ReadBuffer::new();
    match b.next_read(3, 10) {
        ReadStep::Read { room, within_us } => assert_eq!((room, within_us), (READ_BUF_BYTES, 7)),
        other => panic!("{other:?}"),
    }
    assert!(matches!(b.next_read(10, 10), ReadStep::TimedOut));
    b.fill(b"HTTP/1.1 200 OK\r\ncontent-length: 999999\r\n\r\n");
    let room = READ_BUF_BYTES - b.len();
    b.fill(&vec![b'x'; room]);
    assert!(matches!(b.next_read(3, 10), ReadStep::Failed));
    let mut b = ReadBuffer::new();
    b.fill(b"nonsense\r\n\r\n");
    assert!(matches!(b.next_read(3, 10), ReadStep::Failed));
}
