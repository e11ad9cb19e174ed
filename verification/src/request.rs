//! What a request asks for.
//!
//! Only four things are read from a request: the first two words of its first
//! line, the method and the path; the header block; and the body, the bytes
//! after the blank line, which are never looked into.

use vstd::prelude::*;
use vstd::slice::*;
use vstd::string::*;
use crate::framing::{declared_length, find_header_end, header_end, is_complete, separator};
use crate::space::{after_word, end_of_word, skip_space, word_at};
use crate::text::{copy_range, find_byte, index_of, lemma_first_occurrence, text, LINE_FEED};

verus! {

/// The first line of `raw`: the bytes before its first line feed.
pub open spec fn request_line(raw: Seq<u8>) -> Seq<u8> {
    raw.subrange(0, index_of(raw, 0, LINE_FEED))
}

/// The method: the first word of the first line.  Empty where that line holds
/// no word.
pub open spec fn method_of(raw: Seq<u8>) -> Seq<u8> {
    word_at(request_line(raw), 0)
}

/// The path: the second word of the first line, or `/` where that line holds
/// no second word.
pub open spec fn path_of(raw: Seq<u8>) -> Seq<u8> {
    let line = request_line(raw);
    let word = word_at(line, after_word(line, 0));
    if word.len() == 0 {
        text("/")
    } else {
        word
    }
}

/// The header block: the bytes before the first blank line, or all of `raw`
/// where it holds no blank line.
pub open spec fn head_of(raw: Seq<u8>) -> Seq<u8> {
    match header_end(raw) {
        Some(end) => raw.subrange(0, end),
        None => raw,
    }
}

/// The body: the bytes after the first blank line, or nothing where `raw`
/// holds no blank line.
pub open spec fn body_of(raw: Seq<u8>) -> Seq<u8> {
    match header_end(raw) {
        Some(end) => raw.subrange(end + separator().len(), raw.len() as int),
        None => Seq::empty(),
    }
}

/// A whole request holds the body that it declares: where its header block
/// declares a length, at least that many bytes follow the blank line.
pub proof fn whole_request_holds_its_body(raw: Seq<u8>)
    requires
        is_complete(raw),
    ensures
        header_end(raw) is Some,
        match declared_length(head_of(raw)) {
            Some(n) => body_of(raw).len() >= n,
            None => true,
        },
{
    lemma_first_occurrence(raw, separator());
}

/// A request, taken apart.
#[derive(Clone, Debug, PartialEq, Eq)]
pub struct Request {
    pub method: Vec<u8>,
    pub path: Vec<u8>,
    pub head: Vec<u8>,
    pub body: Vec<u8>,
}

impl Request {
    /// Takes the bytes of a request apart.  Every byte string is a request:
    /// what is missing is empty, and a missing path is `/`.
    pub fn parse(raw: &[u8]) -> (request: Request)
        ensures
            request.method@ == method_of(raw@),
            request.path@ == path_of(raw@),
            request.head@ == head_of(raw@),
            request.body@ == body_of(raw@),
    {
        let line = slice_subrange(raw, 0, find_byte(raw, 0, LINE_FEED));
        let method_start = skip_space(line, 0);
        let method_end = end_of_word(line, method_start);
        let method = copy_range(line, method_start, method_end);
        let path_start = skip_space(line, method_end);
        let path_end = end_of_word(line, path_start);
        let path = if path_start == path_end {
            copy_range("/".as_bytes(), 0, "/".as_bytes().len())
        } else {
            copy_range(line, path_start, path_end)
        };
        assert(text("/").subrange(0, text("/").len() as int) == text("/"));
        let (head, body) = match find_header_end(raw) {
            Some(end) => {
                proof {
                    lemma_first_occurrence(raw@, separator());
                }
                let blank = "\r\n\r\n".as_bytes().len();
                (copy_range(raw, 0, end), copy_range(raw, end + blank, raw.len()))
            },
            None => {
                assert(raw@.subrange(0, raw@.len() as int) == raw@);
                (copy_range(raw, 0, raw.len()), Vec::new())
            },
        };
        Request { method, path, head, body }
    }
}

} // verus!
