//! A self-terminating loopback HTTP listener for a browser-based sign-in
//! flow, as pure logic: request framing and parsing, routing, response
//! encoding and the bounded accept-loop state machine.  Sockets, threads and
//! the host's event channel belong to the caller.

pub mod text;
pub mod space;
pub mod number;
pub mod framing;
pub mod request;
pub mod route;
pub mod response;
pub mod session;
pub mod roundtrip;
