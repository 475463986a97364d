//! The routing table: a fixed list of rules tried from the top, of which the
//! first that matches the path wins.

use vstd::prelude::*;
use vstd::string::StringSliceAdditionalSpecFns;
use crate::text::{bytes_eq, has_prefix, starts_with};

verus! {

/// The handler that a path is routed to, with its argument.
#[derive(Debug, Clone, PartialEq, Eq)]
pub enum Route {
    /// The path is `/`.
    Root,
    /// The path is `/user-agent`.
    UserAgent,
    /// The path starts with `/echo/`; the argument is the rest of it.
    Echo(Vec<u8>),
    /// The path starts with `/files/`; the argument is the rest of it.
    File(Vec<u8>),
    /// No rule matches.
    NotFound,
}

/// The mathematical value of a `Route`.
pub enum RouteView {
    Root,
    UserAgent,
    Echo(Seq<u8>),
    File(Seq<u8>),
    NotFound,
}

impl View for Route {
    type V = RouteView;

    open spec fn view(&self) -> RouteView {
        match self {
            Route::Root => RouteView::Root,
            Route::UserAgent => RouteView::UserAgent,
            Route::Echo(rest) => RouteView::Echo(rest@),
            Route::File(rest) => RouteView::File(rest@),
            Route::NotFound => RouteView::NotFound,
        }
    }
}

/// The route of a path. The rules are tried in this order; the path is
/// compared byte for byte, without decoding.
pub open spec fn route_of(path: Seq<u8>) -> RouteView {
    if path == "/".spec_bytes() {
        RouteView::Root
    } else if path == "/user-agent".spec_bytes() {
        RouteView::UserAgent
    } else if has_prefix(path, "/echo/".spec_bytes()) {
        RouteView::Echo(path.skip("/echo/".spec_bytes().len() as int))
    } else if has_prefix(path, "/files/".spec_bytes()) {
        RouteView::File(path.skip("/files/".spec_bytes().len() as int))
    } else {
        RouteView::NotFound
    }
}

/// Routes a path. Method and version play no part.
pub fn route(path: &[u8]) -> (r: Route)
    ensures
        r@ == route_of(path@),
{
    let n: usize = path.len();
    let echo: &[u8] = "/echo/".as_bytes();
    let files: &[u8] = "/files/".as_bytes();
    if bytes_eq(path, "/".as_bytes()) {
        Route::Root
    } else if bytes_eq(path, "/user-agent".as_bytes()) {
        Route::UserAgent
    } else if starts_with(path, echo) {
        Route::Echo(vstd::slice::slice_to_vec(vstd::slice::slice_subrange(path, echo.len(), n)))
    } else if starts_with(path, files) {
        Route::File(vstd::slice::slice_to_vec(vstd::slice::slice_subrange(path, files.len(), n)))
    } else {
        Route::NotFound
    }
}

} // verus!
