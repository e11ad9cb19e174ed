//! Responses and their bytes on the wire.
//!
//! Every response closes the connection, allows any origin, and declares the
//! length of its body in bytes.

use vstd::prelude::*;
use vstd::string::*;
use crate::framing::{begins_line, separator};
use crate::number::{decimal, push_decimal};
use crate::route::Route;
use crate::text::{append, copy_range, occurs_at, text, LINE_FEED};

verus! {

/// The status of a response.
#[derive(Clone, Copy, Debug, PartialEq, Eq, Structural)]
pub enum Status {
    /// `200 OK`.
    Success,
    /// `204 No Content`.
    NoContent,
}

/// The kind of content of a response.
#[derive(Clone, Copy, Debug, PartialEq, Eq, Structural)]
pub enum ContentType {
    /// `text/html`.
    Html,
    /// `application/json`.
    Json,
    /// `text/plain`.
    Plain,
}

impl Status {
    /// The status code and reason, as the status line holds them.
    pub open spec fn text(self) -> Seq<u8> {
        match self {
            Status::Success => text("200 OK"),
            Status::NoContent => text("204 No Content"),
        }
    }

    /// The status code and reason.
    pub fn as_str(&self) -> (s: &'static str)
        ensures
            text(s) == self.text(),
    {
        match self {
            Status::Success => "200 OK",
            Status::NoContent => "204 No Content",
        }
    }
}

impl ContentType {
    /// The media type, as the `Content-Type` field holds it.
    pub open spec fn text(self) -> Seq<u8> {
        match self {
            ContentType::Html => text("text/html"),
            ContentType::Json => text("application/json"),
            ContentType::Plain => text("text/plain"),
        }
    }

    /// The media type.
    pub fn as_str(&self) -> (s: &'static str)
        ensures
            text(s) == self.text(),
    {
        match self {
            ContentType::Html => "text/html",
            ContentType::Json => "application/json",
            ContentType::Plain => "text/plain",
        }
    }
}

/// The body that acknowledges a callback.
pub open spec fn acknowledgement() -> Seq<u8> {
    text("{\"ok\":true}")
}

/// A response.
#[derive(Clone, Debug, PartialEq, Eq)]
pub struct Response {
    pub status: Status,
    pub content_type: ContentType,
    pub body: Vec<u8>,
}

/// A response as a value of mathematics.
pub struct ResponseView {
    pub status: Status,
    pub content_type: ContentType,
    pub body: Seq<u8>,
}

impl View for Response {
    type V = ResponseView;

    open spec fn view(&self) -> ResponseView {
        ResponseView { status: self.status, content_type: self.content_type, body: self.body@ }
    }
}

/// A header line on the wire: its text and the line break.
pub open spec fn line(s: Seq<u8>) -> Seq<u8> {
    s + text("\r\n")
}

impl ResponseView {
    /// The status line, without its line break.
    pub open spec fn status_line(self) -> Seq<u8> {
        text("HTTP/1.1 ") + self.status.text()
    }

    /// The field that names the content type and its character set.
    pub open spec fn content_type_field(self) -> Seq<u8> {
        text("Content-Type: ") + self.content_type.text() + text("; charset=utf-8")
    }

    /// The field that declares the length of the body in bytes.
    pub open spec fn content_length_field(self) -> Seq<u8> {
        text("Content-Length: ") + decimal(self.body.len())
    }

    /// Everything before the body: the status line, the fields, and the
    /// blank line.
    pub open spec fn head(self) -> Seq<u8> {
        line(self.status_line()) + line(self.content_type_field()) + line(
            self.content_length_field(),
        ) + line(text("Connection: close")) + line(text("Access-Control-Allow-Origin: *")) + line(
            text("Access-Control-Allow-Methods: POST, GET, OPTIONS"),
        ) + line(text("Access-Control-Allow-Headers: Content-Type")) + text("\r\n")
    }

    /// The bytes of the response on the wire.
    pub open spec fn frame(self) -> Seq<u8> {
        self.head() + self.body
    }
}

/// The response that a route gets; `page` is the login page.
pub open spec fn response_for(route: Route, page: Seq<u8>) -> ResponseView {
    match route {
        Route::Preflight => ResponseView {
            status: Status::NoContent,
            content_type: ContentType::Plain,
            body: Seq::empty(),
        },
        Route::Callback => ResponseView {
            status: Status::Success,
            content_type: ContentType::Json,
            body: acknowledgement(),
        },
        Route::Favicon => ResponseView {
            status: Status::NoContent,
            content_type: ContentType::Plain,
            body: Seq::empty(),
        },
        Route::Page => ResponseView {
            status: Status::Success,
            content_type: ContentType::Html,
            body: page,
        },
    }
}

fn append_line(out: &mut Vec<u8>, s: &str)
    ensures
        final(out)@ == old(out)@ + line(text(s)),
{
    append(out, s.as_bytes());
    append(out, "\r\n".as_bytes());
    assert(out@ == old(out)@ + line(text(s)));
}

impl Response {
    /// The response that a route gets; `page` is the login page.
    pub fn for_route(route: Route, page: &[u8]) -> (response: Response)
        ensures
            response@ == response_for(route, page@),
    {
        match route {
            Route::Preflight | Route::Favicon => Response {
                status: Status::NoContent,
                content_type: ContentType::Plain,
                body: Vec::new(),
            },
            Route::Callback => {
                let ack = "{\"ok\":true}".as_bytes();
                assert(ack@.subrange(0, ack@.len() as int) == ack@);
                Response {
                    status: Status::Success,
                    content_type: ContentType::Json,
                    body: copy_range(ack, 0, ack.len()),
                }
            },
            Route::Page => {
                assert(page@.subrange(0, page@.len() as int) == page@);
                Response {
                    status: Status::Success,
                    content_type: ContentType::Html,
                    body: copy_range(page, 0, page.len()),
                }
            },
        }
    }

    /// The bytes of the response on the wire.
    pub fn encode(&self) -> (out: Vec<u8>)
        ensures
            out@ == self@.frame(),
    {
        let mut out: Vec<u8> = Vec::new();
        append(&mut out, "HTTP/1.1 ".as_bytes());
        append(&mut out, self.status.as_str().as_bytes());
        append(&mut out, "\r\n".as_bytes());
        assert(out@ == line(self@.status_line()));
        append(&mut out, "Content-Type: ".as_bytes());
        append(&mut out, self.content_type.as_str().as_bytes());
        append(&mut out, "; charset=utf-8".as_bytes());
        append(&mut out, "\r\n".as_bytes());
        assert(out@ == line(self@.status_line()) + line(self@.content_type_field()));
        append(&mut out, "Content-Length: ".as_bytes());
        push_decimal(&mut out, self.body.len());
        append(&mut out, "\r\n".as_bytes());
        assert(out@ == line(self@.status_line()) + line(self@.content_type_field()) + line(
            self@.content_length_field(),
        ));
        append_line(&mut out, "Connection: close");
        append_line(&mut out, "Access-Control-Allow-Origin: *");
        append_line(&mut out, "Access-Control-Allow-Methods: POST, GET, OPTIONS");
        append_line(&mut out, "Access-Control-Allow-Headers: Content-Type");
        append(&mut out, "\r\n".as_bytes());
        assert(out@ == self@.head());
        append(&mut out, self.body.as_slice());
        out
    }
}

/// The header block `head` holds the field `field` on a line of its own.
pub open spec fn has_field(head: Seq<u8>, field: Seq<u8>) -> bool {
    exists|at: int| begins_line(head, at) && occurs_at(head, line(field), at)
}

/// The line break is a carriage return and a line feed; the blank line that
/// ends a header block is two of them.
pub proof fn lemma_breaks()
    ensures
        text("\r\n") == seq![13u8, 10u8],
        separator() == seq![13u8, 10u8, 13u8, 10u8],
{
    reveal_strlit("\r\n");
    reveal_strlit("\r\n\r\n");
    broadcast use is_ascii_spec_bytes;
    assert(is_ascii("\r\n"));
    assert(is_ascii("\r\n\r\n"));
    assert(text("\r\n") =~= seq![13u8, 10u8]);
    assert(separator() =~= seq![13u8, 10u8, 13u8, 10u8]);
}

/// A field that is added to whole lines stands on a line of its own.
proof fn lemma_field_added(before: Seq<u8>, field: Seq<u8>)
    requires
        before.len() == 0 || before.last() == LINE_FEED,
    ensures
        has_field(before + line(field), field),
        (before + line(field)).last() == LINE_FEED,
{
    lemma_breaks();
    let head = before + line(field);
    let at = before.len() as int;
    assert(head.subrange(at, at + line(field).len()) == line(field));
    assert(begins_line(head, at) && occurs_at(head, line(field), at));
}

/// A field stays where it is when more is added after it.
proof fn lemma_field_stays(head: Seq<u8>, field: Seq<u8>, more: Seq<u8>)
    requires
        has_field(head, field),
    ensures
        has_field(head + more, field),
{
    let at = choose|at: int| begins_line(head, at) && occurs_at(head, line(field), at);
    let longer = head + more;
    assert(longer.subrange(at, at + line(field).len()) == head.subrange(
        at,
        at + line(field).len(),
    ));
    assert(begins_line(longer, at) && occurs_at(longer, line(field), at));
}

/// Every response closes the connection and carries the three fields that
/// allow a page of any origin to post to the listener.
pub proof fn every_response_allows_any_origin(r: ResponseView)
    ensures
        has_field(r.head(), text("Connection: close")),
        has_field(r.head(), text("Access-Control-Allow-Origin: *")),
        has_field(r.head(), text("Access-Control-Allow-Methods: POST, GET, OPTIONS")),
        has_field(r.head(), text("Access-Control-Allow-Headers: Content-Type")),
{
    let blank = text("\r\n");
    let close = text("Connection: close");
    let origin = text("Access-Control-Allow-Origin: *");
    let methods = text("Access-Control-Allow-Methods: POST, GET, OPTIONS");
    let headers = text("Access-Control-Allow-Headers: Content-Type");
    let h1 = line(r.status_line());
    let h2 = h1 + line(r.content_type_field());
    let h3 = h2 + line(r.content_length_field());
    let h4 = h3 + line(close);
    let h5 = h4 + line(origin);
    let h6 = h5 + line(methods);
    let h7 = h6 + line(headers);
    lemma_field_added(Seq::empty(), r.status_line());
    assert(Seq::<u8>::empty() + line(r.status_line()) == h1);
    lemma_field_added(h1, r.content_type_field());
    lemma_field_added(h2, r.content_length_field());
    lemma_field_added(h3, close);
    lemma_field_added(h4, origin);
    lemma_field_added(h5, methods);
    lemma_field_added(h6, headers);
    lemma_field_stays(h4, close, line(origin));
    lemma_field_stays(h5, close, line(methods));
    lemma_field_stays(h6, close, line(headers));
    lemma_field_stays(h7, close, blank);
    lemma_field_stays(h5, origin, line(methods));
    lemma_field_stays(h6, origin, line(headers));
    lemma_field_stays(h7, origin, blank);
    lemma_field_stays(h6, methods, line(headers));
    lemma_field_stays(h7, methods, blank);
    lemma_field_stays(h7, headers, blank);
    assert(r.head() == h7 + blank);
}

} // verus!
