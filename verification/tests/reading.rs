use std::io::{Error, ErrorKind, Read, Result, Write};

use oauth_loopback::framing::{ReadStep, RequestReader, CHUNK_SIZE, MAX_REQUEST_BYTES};
use oauth_loopback::session::{Session, MAX_CONNECTIONS};

/// A stream that gives what it was told to give, read by read.
struct Script {
    reads: Vec<Option<Vec<u8>>>,
    next: usize,
    written: Vec<u8>,
}

impl Script {
    fn new(reads: Vec<Option<Vec<u8>>>) -> Script {
        Script { reads, next: 0, written: Vec::new() }
    }
}

impl Read for Script {
    fn read(&mut self, buf: &mut [u8]) -> Result<usize> {
        let at = self.next;
        self.next += 1;
        match self.reads.get(at) {
            Some(Some(bytes)) => {
                buf[..bytes.len()].copy_from_slice(bytes);
                Ok(bytes.len())
            }
            Some(None) => Err(Error::new(ErrorKind::ConnectionReset, "reset")),
            None => Ok(0),
        }
    }
}

impl Write for Script {
    fn write(&mut self, buf: &[u8]) -> Result<usize> {
        self.written.extend_from_slice(buf);
        Ok(buf.len())
    }

    fn flush(&mut self) -> Result<()> {
        Ok(())
    }
}

fn read_request<R: Read>(stream: &mut R) -> Vec<u8> {
    let mut reader = RequestReader::new();
    let mut chunk = [0u8; CHUNK_SIZE];
    loop {
        let read = stream.read(&mut chunk).ok().and_then(|n| chunk.get(..n));
        if reader.feed(read) == ReadStep::Done {
            break;
        }
    }
    reader.finish()
}

#[test]
fn a_request_in_pieces_is_read_whole_and_no_further() {
    let mut stream = Script::new(vec![
        Some(b"POST /callback HTTP/1.1\r\nConte".to_vec()),
        Some(b"nt-Length: 13\r\n\r\n{\"uid\":".to_vec()),
        Some(b"\"abc\"}".to_vec()),
        Some(b"never read".to_vec()),
    ]);
    let raw = read_request(&mut stream);
    assert_eq!(raw, b"POST /callback HTTP/1.1\r\nContent-Length: 13\r\n\r\n{\"uid\":\"abc\"}".to_vec());
    assert_eq!(stream.next, 3);
}

#[test]
fn a_closed_or_failing_stream_ends_the_read() {
    let mut closed = Script::new(vec![Some(b"GET / HTTP/1.1\r\n".to_vec())]);
    assert_eq!(read_request(&mut closed), b"GET / HTTP/1.1\r\n".to_vec());
    assert_eq!(closed.next, 2);
    let mut failing = Script::new(vec![Some(b"GET /".to_vec()), None, Some(b" HTTP/1.1".to_vec())]);
    assert_eq!(read_request(&mut failing), b"GET /".to_vec());
    assert_eq!(failing.next, 2);
}

#[test]
fn an_endless_stream_is_cut_off_above_the_ceiling() {
    let reads = (0..64).map(|_| Some(vec![b'x'; CHUNK_SIZE])).collect();
    let mut stream = Script::new(reads);
    let raw = read_request(&mut stream);
    assert_eq!(raw.len(), MAX_REQUEST_BYTES + CHUNK_SIZE);
    assert_eq!(stream.next, 17);
}

#[test]
fn a_session_over_scripted_connections() {
    let mut session = Session::new(b"<title>Sign in</title>".to_vec(), MAX_CONNECTIONS);
    let mut forwarded: Vec<String> = Vec::new();
    let mut served = 0;
    let scripts: Vec<Option<Vec<Option<Vec<u8>>>>> = vec![
        Some(vec![Some(b"GET /login?mode=popup HTTP/1.1\r\nHost: x\r\n\r\n".to_vec())]),
        Some(vec![Some(b"GET /favicon.ico HTTP/1.1\r\n\r\n".to_vec())]),
        None,
        Some(vec![Some(b"OPTIONS /callback HTTP/1.1\r\n\r\n".to_vec())]),
        Some(vec![
            Some(b"POST /callback HTTP/1.1\r\nContent-Length: 13\r\n\r\n".to_vec()),
            Some(b"{\"uid\":\"abc\"}".to_vec()),
        ]),
        Some(vec![Some(b"GET / HTTP/1.1\r\n\r\n".to_vec())]),
    ];
    let mut frames: Vec<String> = Vec::new();
    for script in scripts {
        if !session.is_listening() {
            break;
        }
        match script {
            Some(reads) => {
                let mut stream = Script::new(reads);
                let raw = read_request(&mut stream);
                if let Some(reply) = session.serve(&raw) {
                    let _ = stream.write_all(&reply.frame);
                    let _ = stream.flush();
                    if let Some(payload) = reply.payload {
                        forwarded.push(payload);
                    }
                }
                served += 1;
                frames.push(String::from_utf8(stream.written).unwrap());
            }
            None => session.accept_failed(),
        }
    }
    assert_eq!(served, 4);
    assert_eq!(forwarded, vec!["{\"uid\":\"abc\"}".to_string()]);
    assert!(frames[0].starts_with("HTTP/1.1 200 OK\r\nContent-Type: text/html"));
    assert!(frames[0].ends_with("<title>Sign in</title>"));
    assert!(frames[1].starts_with("HTTP/1.1 204 No Content\r\n"));
    assert!(frames[2].starts_with("HTTP/1.1 204 No Content\r\n"));
    assert!(frames[3].starts_with("HTTP/1.1 200 OK\r\nContent-Type: application/json"));
    assert!(frames[3].ends_with("{\"ok\":true}"));
    assert!(!session.is_listening());
}
