//! One listening session: a bounded number of connections, ended early by
//! the callback.
//!
//! The session is a state machine.  Its state is the number of connections
//! that it may still accept; at zero it has stopped.  Every attempt to
//! accept a connection, failed or not, takes one from that number, and the
//! callback takes all that is left.  The caller owns the socket: it accepts
//! while the session listens, hands each request to [`Session::serve`],
//! writes the reply's frame, and only then forwards the reply's payload.

use vstd::prelude::*;
use vstd::string::*;
use vstd::utf8::{encode_utf8, valid_utf8};
use crate::request::{body_of, method_of, path_of, Request};
use crate::response::{
    every_response_allows_any_origin, has_field, response_for, ContentType, Response, Status,
};
use crate::route::{route, route_of, Route};
use crate::text::text;

verus! {

/// The number of connections that a session accepts unless told otherwise.
pub const MAX_CONNECTIONS: usize = 20;

/// The name of the event under which the callback's payload is forwarded.
pub const CALLBACK_EVENT: &'static str = "oauth-callback";

/// The text that lossy UTF-8 decoding makes of `bytes`.
pub uninterp spec fn lossy_text(bytes: Seq<u8>) -> Seq<char>;

/// `String::from_utf8_lossy`, made into an owned string.  The text is a
/// function of the bytes alone.  Where the bytes are valid UTF-8 nothing is
/// replaced: the string holds exactly those bytes.
#[verifier::external_body]
fn decode_lossy(bytes: &[u8]) -> (s: String)
    ensures
        s@ == lossy_text(bytes@),
        valid_utf8(bytes@) ==> encode_utf8(s@) == bytes@,
{
    String::from_utf8_lossy(bytes).into_owned()
}

/// What comes of one attempt to accept a connection.
pub enum Arrival {
    /// The attempt failed.
    Failed,
    /// A connection was accepted and these bytes were read from it.
    Request(Seq<u8>),
}

/// The route of a request.
pub open spec fn route_of_request(raw: Seq<u8>) -> Route {
    route_of(method_of(raw), path_of(raw))
}

/// What is forwarded to the host for a request: the body of a callback as
/// text, and nothing for any other request.
pub open spec fn payload_of(raw: Seq<u8>) -> Option<Seq<char>> {
    if route_of_request(raw) == Route::Callback {
        Some(lossy_text(body_of(raw)))
    } else {
        None
    }
}

/// The arrival is a callback request.
pub open spec fn is_callback(arrival: Arrival) -> bool {
    arrival matches Arrival::Request(raw) && route_of_request(raw) == Route::Callback
}

/// The connections that may still be accepted after `arrival`, where
/// `remaining` could be accepted before it.  A callback takes them all, any
/// other arrival takes one, and nothing is taken from a session that has
/// stopped.
pub open spec fn remaining_after(remaining: nat, arrival: Arrival) -> nat {
    if remaining == 0 || is_callback(arrival) {
        0
    } else {
        (remaining - 1) as nat
    }
}

/// The connections that may still be accepted after all of `arrivals`, in
/// their order.
pub open spec fn remaining_after_all(remaining: nat, arrivals: Seq<Arrival>) -> nat
    decreases arrivals.len(),
{
    if arrivals.len() == 0 {
        remaining
    } else {
        remaining_after(remaining_after_all(remaining, arrivals.drop_last()), arrivals.last())
    }
}

/// A payload is forwarded for `arrival`: it is a callback, and it arrives
/// while the session listens.
pub open spec fn forwards(remaining: nat, arrival: Arrival) -> bool {
    remaining > 0 && is_callback(arrival)
}

/// The number of payloads forwarded over all of `arrivals`, in their order.
pub open spec fn forwarded(remaining: nat, arrivals: Seq<Arrival>) -> nat
    decreases arrivals.len(),
{
    if arrivals.len() == 0 {
        0
    } else {
        let before = arrivals.drop_last();
        let one: nat = if forwards(remaining_after_all(remaining, before), arrivals.last()) {
            1
        } else {
            0
        };
        forwarded(remaining, before) + one
    }
}

/// A session forwards at most one payload, and has stopped once it has.
pub proof fn at_most_one_payload(remaining: nat, arrivals: Seq<Arrival>)
    ensures
        forwarded(remaining, arrivals) <= 1,
        forwarded(remaining, arrivals) == 1 ==> remaining_after_all(remaining, arrivals) == 0,
    decreases arrivals.len(),
{
    if arrivals.len() > 0 {
        at_most_one_payload(remaining, arrivals.drop_last());
    }
}

/// A session never accepts more connections than it was given: each arrival
/// takes at least one, and once as many have arrived as could be accepted
/// the session has stopped.
pub proof fn session_is_bounded(remaining: nat, arrivals: Seq<Arrival>)
    ensures
        remaining_after_all(remaining, arrivals) + arrivals.len() <= remaining
            || remaining_after_all(remaining, arrivals) == 0,
        arrivals.len() >= remaining ==> remaining_after_all(remaining, arrivals) == 0,
    decreases arrivals.len(),
{
    if arrivals.len() > 0 {
        session_is_bounded(remaining, arrivals.drop_last());
    }
}

/// Nothing but a callback ends a session early: while no callback arrives,
/// each arrival takes exactly one connection.
pub proof fn only_a_callback_ends_early(remaining: nat, arrivals: Seq<Arrival>)
    requires
        forall|i: int| 0 <= i < arrivals.len() ==> !is_callback(#[trigger] arrivals[i]),
        arrivals.len() <= remaining,
    ensures
        remaining_after_all(remaining, arrivals) == remaining - arrivals.len(),
    decreases arrivals.len(),
{
    if arrivals.len() > 0 {
        let before = arrivals.drop_last();
        assert forall|i: int| 0 <= i < before.len() implies !is_callback(#[trigger] before[i]) by {
            assert(before[i] == arrivals[i]);
        }
        only_a_callback_ends_early(remaining, before);
        assert(!is_callback(arrivals[arrivals.len() - 1]));
    }
}

/// A preflight, whatever path it names, is answered with no content and an
/// empty body under the three fields that allow any origin; nothing is
/// forwarded for it, and it takes one connection like any other request, so
/// that the session goes on where more than one was left.
pub proof fn preflight_is_answered_and_passed(remaining: nat, raw: Seq<u8>, page: Seq<u8>)
    requires
        method_of(raw) == text("OPTIONS"),
        remaining > 0,
    ensures
        response_for(route_of_request(raw), page).status == Status::NoContent,
        response_for(route_of_request(raw), page).content_type == ContentType::Plain,
        response_for(route_of_request(raw), page).body == Seq::<u8>::empty(),
        has_field(
            response_for(route_of_request(raw), page).head(),
            text("Access-Control-Allow-Origin: *"),
        ),
        has_field(
            response_for(route_of_request(raw), page).head(),
            text("Access-Control-Allow-Methods: POST, GET, OPTIONS"),
        ),
        has_field(
            response_for(route_of_request(raw), page).head(),
            text("Access-Control-Allow-Headers: Content-Type"),
        ),
        payload_of(raw) == None::<Seq<char>>,
        remaining_after(remaining, Arrival::Request(raw)) == remaining - 1,
{
    every_response_allows_any_origin(response_for(route_of_request(raw), page));
}

/// A callback ends the session at once.
pub proof fn a_callback_ends_the_session(remaining: nat, raw: Seq<u8>)
    requires
        route_of_request(raw) == Route::Callback,
    ensures
        remaining_after(remaining, Arrival::Request(raw)) == 0,
{
}

/// The answer to one request.
#[derive(Clone, Debug, PartialEq, Eq)]
pub struct Reply {
    /// The bytes to write to the connection.
    pub frame: Vec<u8>,
    /// What to forward to the host once the frame is written.
    pub payload: Option<String>,
}

/// A listening session.
#[derive(Clone, Debug, PartialEq, Eq)]
pub struct Session {
    /// The connections that may still be accepted.
    pub remaining: usize,
    /// The login page.
    pub page: Vec<u8>,
}

impl Session {
    /// A session that serves `page` and accepts up to `limit` connections.
    pub fn new(page: Vec<u8>, limit: usize) -> (session: Session)
        ensures
            session.remaining == limit,
            session.page@ == page@,
    {
        Session { remaining: limit, page }
    }

    /// Whether another connection may be accepted.
    pub fn is_listening(&self) -> (listening: bool)
        ensures
            listening == (self.remaining > 0),
    {
        self.remaining > 0
    }

    /// An attempt to accept a connection has failed.
    pub fn accept_failed(&mut self)
        ensures
            final(self).remaining == remaining_after(old(self).remaining as nat, Arrival::Failed),
            final(self).page == old(self).page,
    {
        if self.remaining > 0 {
            self.remaining = self.remaining - 1;
        }
    }

    /// A connection was accepted and `raw` was read from it.  A session that
    /// listens answers every request; one that has stopped answers none.
    pub fn serve(&mut self, raw: &[u8]) -> (reply: Option<Reply>)
        ensures
            final(self).remaining == remaining_after(
                old(self).remaining as nat,
                Arrival::Request(raw@),
            ),
            final(self).page == old(self).page,
            match reply {
                Some(reply) => {
                    &&& old(self).remaining > 0
                    &&& reply.frame@ == response_for(
                        route_of_request(raw@),
                        old(self).page@,
                    ).frame()
                    &&& match reply.payload {
                        Some(text) => {
                            &&& payload_of(raw@) == Some(text@)
                            &&& valid_utf8(body_of(raw@)) ==> encode_utf8(text@) == body_of(raw@)
                        },
                        None => payload_of(raw@) == None::<Seq<char>>,
                    }
                },
                None => old(self).remaining == 0,
            },
    {
        if self.remaining == 0 {
            return None;
        }
        let request = Request::parse(raw);
        let route = route(request.method.as_slice(), request.path.as_slice());
        let frame = Response::for_route(route, self.page.as_slice()).encode();
        let payload = match route {
            Route::Callback => {
                self.remaining = 0;
                Some(decode_lossy(request.body.as_slice()))
            },
            _ => {
                self.remaining = self.remaining - 1;
                None
            },
        };
        Some(Reply { frame, payload })
    }
}

} // verus!
