//! Which answer a request gets.

use vstd::prelude::*;
use vstd::string::*;
use crate::text::{equal, has_prefix, starts_with, text};

verus! {

/// The four answers of the listener.
#[derive(Clone, Copy, Debug, PartialEq, Eq, Structural)]
pub enum Route {
    /// A cross-origin preflight: answered with nothing.
    Preflight,
    /// The sign-in result: acknowledged and handed to the host.
    Callback,
    /// The browser's request for an icon: answered with nothing.
    Favicon,
    /// Anything else: answered with the login page.
    Page,
}

/// The route of a request, by method and path.  The first of these that
/// holds decides: the method is `OPTIONS`; the method is `POST` and the path
/// begins with `/callback`; the path is `/favicon.ico`.  Every other request
/// gets the login page.
pub open spec fn route_of(method: Seq<u8>, path: Seq<u8>) -> Route {
    if method == text("OPTIONS") {
        Route::Preflight
    } else if method == text("POST") && has_prefix(path, text("/callback")) {
        Route::Callback
    } else if path == text("/favicon.ico") {
        Route::Favicon
    } else {
        Route::Page
    }
}

/// The route of a request, by method and path.
pub fn route(method: &[u8], path: &[u8]) -> (r: Route)
    ensures
        r == route_of(method@, path@),
{
    if equal(method, "OPTIONS".as_bytes()) {
        Route::Preflight
    } else if equal(method, "POST".as_bytes()) && starts_with(path, "/callback".as_bytes()) {
        Route::Callback
    } else if equal(path, "/favicon.ico".as_bytes()) {
        Route::Favicon
    } else {
        Route::Page
    }
}

} // verus!
