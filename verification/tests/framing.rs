use oauth_loopback::framing::{
    find_declared_length, find_header_end, find_length_field, request_complete, ReadStep,
    RequestReader, CHUNK_SIZE, MAX_REQUEST_BYTES,
};

/// The declared length as a reader of text lines finds it.
fn length_by_lines(head: &str) -> Option<usize> {
    let line = head.lines().find(|l| l.to_lowercase().starts_with("content-length:"))?;
    line.split(':').nth(1).unwrap_or("0").trim().parse::<usize>().ok()
}

#[test]
fn the_limits() {
    assert_eq!(CHUNK_SIZE, 4096);
    assert_eq!(MAX_REQUEST_BYTES, 65536);
}

#[test]
fn header_end_is_the_first_blank_line() {
    assert_eq!(find_header_end(b"GET / HTTP/1.1\r\nHost: x\r\n\r\n"), Some(23));
    assert_eq!(find_header_end(b"GET / HTTP/1.1\r\n\r\nbody\r\n\r\n"), Some(14));
    assert_eq!(find_header_end(b"GET / HTTP/1.1\r\nHost: x\r\n"), None);
    assert_eq!(find_header_end(b"GET / HTTP/1.1\n\n"), None);
    assert_eq!(find_header_end(b""), None);
    assert_eq!(find_header_end(b"\r\n\r\n"), Some(0));
}

#[test]
fn length_field_is_the_first_line_with_the_name() {
    assert_eq!(find_length_field(b"POST / HTTP/1.1\r\nContent-Length: 5"), Some(17));
    assert_eq!(find_length_field(b"content-length: 5"), Some(0));
    assert_eq!(find_length_field(b"A: b\nCONTENT-LENGTH:1\r\nContent-Length: 2"), Some(5));
    assert_eq!(find_length_field(b"POST / HTTP/1.1\r\nHost: x"), None);
    assert_eq!(find_length_field(b"X-Content-Length: 5"), None);
    assert_eq!(find_length_field(b" Content-Length: 5"), None);
    assert_eq!(find_length_field(b"Host: Content-Length: 5"), None);
    assert_eq!(find_length_field(b"Content-Length"), None);
    assert_eq!(find_length_field(b"Content-Length : 5"), None);
    assert_eq!(find_length_field(b""), None);
    assert_eq!(find_length_field(b"a\n"), None);
    assert_eq!(find_length_field(b"a\rContent-Length: 5"), None);
}

#[test]
fn declared_length_reads_the_value() {
    assert_eq!(find_declared_length(b"POST / HTTP/1.1\r\nContent-Length: 13"), Some(13));
    assert_eq!(find_declared_length(b"POST / HTTP/1.1\r\nContent-Length: 13\r\nHost: x"), Some(13));
    assert_eq!(find_declared_length(b"content-LENGTH:   7  \r\nA: b"), Some(7));
    assert_eq!(find_declared_length(b"Content-Length:0"), Some(0));
    assert_eq!(find_declared_length(b"Content-Length: +7"), Some(7));
    assert_eq!(find_declared_length(b"Content-Length:\t42\t\r"), Some(42));
    assert_eq!(find_declared_length("Content-Length:\u{a0}9\u{3000}".as_bytes()), Some(9));
}

#[test]
fn declared_length_ends_at_a_second_colon() {
    assert_eq!(find_declared_length(b"Content-Length: 5:junk"), Some(5));
    assert_eq!(find_declared_length(b"Content-Length: 5 :6"), Some(5));
    assert_eq!(find_declared_length(b"Content-Length::5"), None);
}

#[test]
fn a_malformed_length_declares_nothing() {
    assert_eq!(find_declared_length(b"Content-Length: abc"), None);
    assert_eq!(find_declared_length(b"Content-Length:"), None);
    assert_eq!(find_declared_length(b"Content-Length: "), None);
    assert_eq!(find_declared_length(b"Content-Length: -1"), None);
    assert_eq!(find_declared_length(b"Content-Length: 1 2"), None);
    assert_eq!(find_declared_length(b"Content-Length: 12a"), None);
    assert_eq!(find_declared_length(b"Content-Length: 99999999999999999999999999"), None);
    assert_eq!(find_declared_length(b"Host: x"), None);
    assert_eq!(find_declared_length(b""), None);
}

#[test]
fn only_the_first_length_field_counts() {
    assert_eq!(find_declared_length(b"Content-Length: 3\r\nContent-Length: 4"), Some(3));
    assert_eq!(find_declared_length(b"Content-Length: x\r\nContent-Length: 4"), None);
}

#[test]
fn declared_length_agrees_with_a_reader_of_lines() {
    let samples = [
        "POST /callback HTTP/1.1\r\nHost: 127.0.0.1\r\nContent-Length: 13",
        "POST / HTTP/1.1\r\ncontent-length: 7\r\nContent-Length: 8",
        "Content-Length: 5:junk",
        "Content-Length:\u{a0}9\u{3000}\r\nA: b",
        "Content-Length: \r\nA: 1",
        "Content-Length\r\n: 1",
        "CONTENT-LENGTH:+12\r",
        "A: b\nContent-Length: 6\n",
        "A: b\rContent-Length: 6",
        "A: b\r\n Content-Length: 6",
        "Content-Length: 6\r",
        "Content-Length: 6\r\r\nB: c",
        "C\u{f6}ntent-Length: 1\r\nContent-Length: 2",
        "\u{212a}ontent-Length: 1",
        "Content-Length: 18446744073709551616",
        "",
        "\n",
        "Content-Length:",
    ];
    for s in samples {
        assert_eq!(find_declared_length(s.as_bytes()), length_by_lines(s), "{:?}", s);
    }
}

#[test]
fn a_request_without_a_blank_line_is_not_whole() {
    assert!(!request_complete(b""));
    assert!(!request_complete(b"GET / HTTP/1.1\r\n"));
    assert!(!request_complete(b"GET / HTTP/1.1\r\nHost: x\r\n\r"));
    assert!(!request_complete(b"POST / HTTP/1.1\r\nContent-Length: 0\r\n"));
}

#[test]
fn a_request_without_a_length_is_whole_at_the_blank_line() {
    assert!(request_complete(b"GET / HTTP/1.1\r\n\r\n"));
    assert!(request_complete(b"GET / HTTP/1.1\r\nHost: x\r\n\r\n"));
    assert!(request_complete(b"POST / HTTP/1.1\r\nContent-Length: abc\r\n\r\n"));
    assert!(request_complete(b"\r\n\r\n"));
}

#[test]
fn a_request_with_a_length_waits_for_its_body() {
    let head = b"POST /callback HTTP/1.1\r\nContent-Length: 13\r\n\r\n";
    let mut buf = head.to_vec();
    assert!(!request_complete(&buf));
    buf.extend_from_slice(b"{\"uid\":\"abc\"");
    assert!(!request_complete(&buf));
    buf.push(b'}');
    assert!(request_complete(&buf));
    buf.extend_from_slice(b"more");
    assert!(request_complete(&buf));
    assert!(request_complete(b"POST / HTTP/1.1\r\nContent-Length: 0\r\n\r\n"));
    assert!(!request_complete(b"POST / HTTP/1.1\r\nContent-Length: 1\r\n\r\n"));
}

#[test]
fn a_length_after_the_blank_line_is_body() {
    assert!(request_complete(b"POST / HTTP/1.1\r\n\r\nContent-Length: 50\r\n\r\n"));
}

#[test]
fn a_length_beyond_any_buffer_is_never_met() {
    let max = format!("POST / HTTP/1.1\r\nContent-Length: {}\r\n\r\nabc", usize::MAX);
    assert!(!request_complete(max.as_bytes()));
}

#[test]
fn the_reader_gathers_until_the_request_is_whole() {
    let mut reader = RequestReader::new();
    assert_eq!(reader.feed(Some(b"POST /callback HTT")), ReadStep::More);
    assert_eq!(reader.feed(Some(b"P/1.1\r\nContent-Length: 13\r\n\r")), ReadStep::More);
    assert_eq!(reader.feed(Some(b"\n{\"uid\"")), ReadStep::More);
    assert_eq!(reader.feed(Some(b":\"abc\"}")), ReadStep::Done);
    assert_eq!(
        reader.finish(),
        b"POST /callback HTTP/1.1\r\nContent-Length: 13\r\n\r\n{\"uid\":\"abc\"}".to_vec()
    );
}

#[test]
fn the_reader_stops_at_the_blank_line_without_a_length() {
    let mut reader = RequestReader::new();
    assert_eq!(reader.feed(Some(b"GET /login HTTP/1.1\r\nHost: x\r\n")), ReadStep::More);
    assert_eq!(reader.feed(Some(b"\r\n")), ReadStep::Done);
    assert_eq!(reader.finish(), b"GET /login HTTP/1.1\r\nHost: x\r\n\r\n".to_vec());
}

#[test]
fn the_reader_stops_when_the_peer_closes() {
    let mut reader = RequestReader::new();
    assert_eq!(reader.feed(Some(b"GET / HT")), ReadStep::More);
    assert_eq!(reader.feed(Some(b"")), ReadStep::Done);
    assert_eq!(reader.finish(), b"GET / HT".to_vec());
    let mut empty = RequestReader::new();
    assert_eq!(empty.feed(Some(b"")), ReadStep::Done);
    assert_eq!(empty.finish(), Vec::<u8>::new());
}

#[test]
fn the_reader_stops_when_a_read_fails() {
    let mut reader = RequestReader::new();
    assert_eq!(reader.feed(Some(b"POST / HTTP/1.1\r\nContent-Length: 9\r\n\r\nab")), ReadStep::More);
    assert_eq!(reader.feed(None), ReadStep::Done);
    assert_eq!(reader.finish(), b"POST / HTTP/1.1\r\nContent-Length: 9\r\n\r\nab".to_vec());
}

#[test]
fn the_reader_stops_above_the_ceiling() {
    let chunk = vec![b'a'; CHUNK_SIZE];
    let mut reader = RequestReader::new();
    for _ in 0..MAX_REQUEST_BYTES / CHUNK_SIZE {
        assert_eq!(reader.feed(Some(&chunk)), ReadStep::More);
    }
    assert_eq!(reader.buf.len(), MAX_REQUEST_BYTES);
    assert_eq!(reader.feed(Some(b"a")), ReadStep::Done);
    assert_eq!(reader.finish().len(), MAX_REQUEST_BYTES + 1);
}

#[test]
fn the_ceiling_also_ends_a_body_that_never_comes() {
    let mut reader = RequestReader::new();
    assert_eq!(
        reader.feed(Some(b"POST /callback HTTP/1.1\r\nContent-Length: 1000000\r\n\r\n")),
        ReadStep::More
    );
    let chunk = vec![b'x'; CHUNK_SIZE];
    let mut reads = 0;
    loop {
        reads += 1;
        if reader.feed(Some(&chunk)) == ReadStep::Done {
            break;
        }
        assert!(reads < 100);
    }
    assert_eq!(reads, 16);
    assert!(reader.buf.len() > MAX_REQUEST_BYTES);
    assert!(reader.buf.len() <= MAX_REQUEST_BYTES + CHUNK_SIZE);
}
