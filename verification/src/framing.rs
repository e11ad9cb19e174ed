//! Where a request ends.
//!
//! A request is read from the stream chunk by chunk.  After each chunk the
//! bytes gathered so far decide whether to read on: the request is whole once
//! the blank line that ends the header block has arrived together with as
//! many body bytes as a `Content-Length` field declares.  A ceiling on the
//! gathered bytes ends the reading of a request that never becomes whole.

use vstd::prelude::*;
use vstd::slice::*;
use vstd::string::*;
use crate::number::{parse, parse_length};
use crate::space::{trim, trimmed};
use crate::text::{
    append, find, find_byte, find_either, first_occurrence, index_of_either,
    lemma_first_occurrence, lemma_index_of_either, spelled_at, spells_at, text, COLON, LINE_FEED,
};

verus! {

/// The size of the buffer that one read of the stream fills.
pub const CHUNK_SIZE: usize = 4096;

/// Once more bytes than this are gathered, reading stops whatever they hold.
pub const MAX_REQUEST_BYTES: usize = 65536;

/// The blank line between the header block and the body.
pub open spec fn separator() -> Seq<u8> {
    text("\r\n\r\n")
}

/// The name of the field that declares the length of the body, in small
/// letters and with its colon.
pub open spec fn length_name() -> Seq<u8> {
    text("content-length:")
}

/// Where the header block of `buf` ends: the index of the first blank line.
pub open spec fn header_end(buf: Seq<u8>) -> Option<int> {
    first_occurrence(buf, separator())
}

/// A line begins at index `at`: at the start, or just after a line feed.
pub open spec fn begins_line(s: Seq<u8>, at: int) -> bool {
    0 <= at <= s.len() && (at == 0 || s[at - 1] == LINE_FEED)
}

/// A line that begins at `at` starts with the length field's name, in
/// capitals or small letters.
pub open spec fn is_length_field(head: Seq<u8>, at: int) -> bool {
    begins_line(head, at) && spells_at(head, at, length_name())
}

/// `at` is the first line of `head` that starts with the length field's name.
pub open spec fn is_first_length_field(head: Seq<u8>, at: int) -> bool {
    &&& is_length_field(head, at)
    &&& forall|j: int| 0 <= j < at ==> !is_length_field(head, j)
}

/// Where the first line of `head` that starts with the length field's name
/// begins, if there is such a line.
pub open spec fn length_field(head: Seq<u8>) -> Option<int> {
    if exists|i: int| is_length_field(head, i) {
        Some(choose|i: int| is_first_length_field(head, i))
    } else {
        None
    }
}

/// The value of the length field that begins at `at`: what stands between
/// the name and the next colon or the end of the line, without the white
/// space around it.
pub open spec fn length_value(head: Seq<u8>, at: int) -> Seq<u8> {
    let from = at + length_name().len();
    trimmed(head.subrange(from, index_of_either(head, from, COLON, LINE_FEED)))
}

/// The body length that the header block `head` declares.  Only the first
/// length field counts; where its value is no number, no length is declared.
pub open spec fn declared_length(head: Seq<u8>) -> Option<nat> {
    match length_field(head) {
        Some(at) => parse_length(length_value(head, at)),
        None => None,
    }
}

/// The request in `buf` is whole: its header block has ended, and the body
/// bytes that it declares, if it declares any, have arrived.
pub open spec fn is_complete(buf: Seq<u8>) -> bool {
    match header_end(buf) {
        Some(end) => match declared_length(buf.subrange(0, end)) {
            Some(n) => buf.len() >= end + separator().len() + n,
            None => true,
        },
        None => false,
    }
}

/// Reading ends with `buf`: the request is whole, or the ceiling is passed.
pub open spec fn read_ends(buf: Seq<u8>) -> bool {
    is_complete(buf) || buf.len() > MAX_REQUEST_BYTES
}

proof fn lemma_least_length_field(head: Seq<u8>, at: int)
    requires
        is_length_field(head, at),
    ensures
        exists|m: int| is_first_length_field(head, m),
    decreases at,
{
    if exists|j: int| 0 <= j < at && is_length_field(head, j) {
        let j = choose|j: int| 0 <= j < at && is_length_field(head, j);
        lemma_least_length_field(head, j);
    } else {
        assert(is_first_length_field(head, at));
    }
}

/// What `length_field` returns: the one index that is a first length field,
/// or nothing where no line starts with the name.
pub proof fn lemma_length_field(head: Seq<u8>)
    ensures
        match length_field(head) {
            Some(at) => is_first_length_field(head, at),
            None => forall|j: int| !is_length_field(head, j),
        },
{
    if exists|i: int| is_length_field(head, i) {
        let i = choose|i: int| is_length_field(head, i);
        lemma_least_length_field(head, i);
    }
}

/// A first length field is the length field.
pub proof fn lemma_length_field_is(head: Seq<u8>, at: int)
    requires
        is_first_length_field(head, at),
    ensures
        length_field(head) == Some(at),
{
    let c = choose|i: int| is_first_length_field(head, i);
    assert(is_first_length_field(head, c));
}

/// The index of the blank line that ends the header block.
pub fn find_header_end(buf: &[u8]) -> (r: Option<usize>)
    ensures
        match r {
            Some(end) => header_end(buf@) == Some(end as int),
            None => header_end(buf@) == None::<int>,
        },
{
    find(buf, "\r\n\r\n".as_bytes())
}

/// The index of the first line that starts with the length field's name.
pub fn find_length_field(head: &[u8]) -> (r: Option<usize>)
    ensures
        match r {
            Some(at) => length_field(head@) == Some(at as int),
            None => length_field(head@) == None::<int>,
        },
{
    let name = "content-length:".as_bytes();
    let mut at: usize = 0;
    loop
        invariant
            name@ == length_name(),
            at <= head.len(),
            begins_line(head@, at as int),
            forall|j: int| 0 <= j < at ==> !is_length_field(head@, j),
        decreases head.len() - at,
    {
        if spelled_at(head, at, name) {
            proof {
                lemma_length_field_is(head@, at as int);
            }
            return Some(at);
        }
        let line_feed = find_byte(head, at, LINE_FEED);
        proof {
            lemma_index_of_either(head@, at as int, LINE_FEED, LINE_FEED);
        }
        if line_feed >= head.len() {
            assert forall|j: int| !is_length_field(head@, j) by {
                if at < j <= head.len() {
                    assert(head@[j - 1] != 10);
                }
            }
            return None;
        }
        assert forall|j: int| 0 <= j < line_feed + 1 implies !is_length_field(head@, j) by {
            if at < j {
                assert(head@[j - 1] != 10);
            }
        }
        at = line_feed + 1;
    }
}

/// The body length that the header block `head` declares.
pub fn find_declared_length(head: &[u8]) -> (r: Option<usize>)
    ensures
        match r {
            Some(n) => declared_length(head@) == Some(n as nat),
            None => declared_length(head@) == None::<nat>,
        },
{
    match find_length_field(head) {
        Some(at) => {
            let name = "content-length:".as_bytes();
            proof {
                lemma_length_field(head@);
                assert(spells_at(head@, at as int, name@));
                assert(at + name.len() <= head.len());
                lemma_index_of_either(head@, at + name@.len(), COLON, LINE_FEED);
            }
            let from = at + name.len();
            let to = find_either(head, from, COLON, LINE_FEED);
            parse(trim(slice_subrange(head, from, to)))
        },
        None => None,
    }
}

/// Whether the request in `buf` is whole.
pub fn request_complete(buf: &[u8]) -> (r: bool)
    ensures
        r == is_complete(buf@),
{
    match find_header_end(buf) {
        Some(end) => {
            proof {
                lemma_first_occurrence(buf@, separator());
            }
            match find_declared_length(slice_subrange(buf, 0, end)) {
                Some(n) => {
                    let blank = "\r\n\r\n".as_bytes().len();
                    buf.len() - end - blank >= n
                },
                None => true,
            }
        },
        None => false,
    }
}

/// What to do after a read.
#[derive(Clone, Copy, Debug, PartialEq, Eq, Structural)]
pub enum ReadStep {
    /// Read another chunk.
    More,
    /// Stop reading: what has been gathered is the request.
    Done,
}

/// The bytes gathered once a read has given `read`, where `before` were
/// gathered before it.  A failed read, `None`, adds nothing.
pub open spec fn gathered_after(before: Seq<u8>, read: Option<Seq<u8>>) -> Seq<u8> {
    match read {
        Some(chunk) => before + chunk,
        None => before,
    }
}

/// What to do once a read has given `read`.  Reading ends with a failed
/// read, with an empty one (the peer has closed), with a whole request, and
/// above the ceiling.
pub open spec fn step_after(before: Seq<u8>, read: Option<Seq<u8>>) -> ReadStep {
    match read {
        Some(chunk) => if chunk.len() == 0 || read_ends(before + chunk) {
            ReadStep::Done
        } else {
            ReadStep::More
        },
        None => ReadStep::Done,
    }
}

/// The bytes gathered from the chunks `chunks`, in their order.
pub open spec fn gathered(chunks: Seq<Seq<u8>>) -> Seq<u8>
    decreases chunks.len(),
{
    if chunks.len() == 0 {
        Seq::empty()
    } else {
        gathered(chunks.drop_last()) + chunks.last()
    }
}

/// After each of the chunks `chunks`, read one after the other into an empty
/// reader, reading goes on.
pub open spec fn reads_on(chunks: Seq<Seq<u8>>) -> bool {
    forall|k: int|
        0 <= k < chunks.len() ==> #[trigger] step_after(
            gathered(chunks.take(k)),
            Some(chunks[k]),
        ) == ReadStep::More
}

/// Reading a request ends.  While reading goes on every chunk adds a byte
/// and the bytes gathered stay within the ceiling, so reading cannot go on
/// for more chunks than the ceiling counts bytes.
pub proof fn reading_ends(chunks: Seq<Seq<u8>>)
    requires
        reads_on(chunks),
    ensures
        chunks.len() <= gathered(chunks).len() <= MAX_REQUEST_BYTES,
    decreases chunks.len(),
{
    if chunks.len() > 0 {
        let before = chunks.drop_last();
        let last = chunks.len() - 1;
        assert forall|k: int| 0 <= k < before.len() implies #[trigger] step_after(
            gathered(before.take(k)),
            Some(before[k]),
        ) == ReadStep::More by {
            assert(before.take(k) == chunks.take(k));
            assert(step_after(gathered(chunks.take(k)), Some(chunks[k])) == ReadStep::More);
        }
        reading_ends(before);
        assert(chunks.take(last) == before);
        assert(step_after(gathered(chunks.take(last)), Some(chunks[last])) == ReadStep::More);
    }
}

/// The bytes of one request as they are gathered from the stream.
#[derive(Clone, Debug, PartialEq, Eq)]
pub struct RequestReader {
    pub buf: Vec<u8>,
}

/// What a read gave, as a value of mathematics.
pub open spec fn read_view(read: Option<&[u8]>) -> Option<Seq<u8>> {
    match read {
        Some(chunk) => Some(chunk@),
        None => None,
    }
}

impl RequestReader {
    /// A reader that has gathered nothing.
    pub fn new() -> (r: RequestReader)
        ensures
            r.buf@ == Seq::<u8>::empty(),
    {
        RequestReader { buf: Vec::new() }
    }

    /// Takes the outcome of one read of the stream: the bytes that it gave
    /// (none where the peer has closed), or `None` where it failed.  The bytes
    /// are added to those gathered, and the answer says whether to read on.
    pub fn feed(&mut self, read: Option<&[u8]>) -> (step: ReadStep)
        ensures
            final(self).buf@ == gathered_after(old(self).buf@, read_view(read)),
            step == step_after(old(self).buf@, read_view(read)),
    {
        match read {
            Some(chunk) => {
                if chunk.len() == 0 {
                    assert(self.buf@ + chunk@ == self.buf@);
                    return ReadStep::Done;
                }
                append(&mut self.buf, chunk);
                if self.buf.len() > MAX_REQUEST_BYTES || request_complete(self.buf.as_slice()) {
                    ReadStep::Done
                } else {
                    ReadStep::More
                }
            },
            None => ReadStep::Done,
        }
    }

    /// The bytes gathered: the request.
    pub fn finish(self) -> (request: Vec<u8>)
        ensures
            request@ == self.buf@,
    {
        self.buf
    }
}

} // verus!
