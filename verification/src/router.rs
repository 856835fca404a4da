//! Choosing the handler that answers a request.

use vstd::prelude::*;

use crate::http::{HttpRequest, Method, Resource};
use crate::text::{chars_of, split_by, split_chars, views};

verus! {

/// The handler that answers a request.
#[derive(Debug, PartialEq, Eq, Structural, Clone, Copy)]
pub enum Handler {
    /// Paths whose first segment is `api`.
    WebService,
    /// Any other path of a `GET` request.
    StaticPage,
    /// Requests with another method.
    PageNotFound,
}

/// The handler for a request of method `m` and path `path`: a `GET` goes to
/// the web service when the path's first segment (after the leading `/`) is
/// `api`, else to the static pages; any other method is not found.
pub open spec fn route_of(m: Method, path: Seq<char>) -> Handler {
    if m == Method::Get {
        if split_by(path, seq!['/'])[1] == seq!['a', 'p', 'i'] {
            Handler::WebService
        } else {
            Handler::StaticPage
        }
    } else {
        Handler::PageNotFound
    }
}

/// A request can be routed: a `GET` request's path has a `/`.
pub open spec fn routable(m: Method, path: Seq<char>) -> bool {
    m == Method::Get ==> split_by(path, seq!['/']).len() >= 2
}

/// Dispatches requests to handlers.
pub struct Router;

impl Router {
    /// The handler that answers `req`.
    pub fn route(req: &HttpRequest) -> (r: Handler)
        requires
            routable(req@.method, req@.resource),
        ensures
            r == route_of(req@.method, req@.resource),
    {
        match req.method {
            Method::Get => {
                let Resource::Path(p) = &req.resource;
                let path = chars_of(p.as_str());
                let slash = ['/'];
                assert(slash@ =~= seq!['/']);
                let segs = split_chars(path.as_slice(), &slash);
                assert(segs@[1]@ == views(segs@)[1]);
                let seg = segs[1].as_slice();
                if seg.len() == 3 && seg[0] == 'a' && seg[1] == 'p' && seg[2] == 'i' {
                    assert(seg@ =~= seq!['a', 'p', 'i']);
                    Handler::WebService
                } else {
                    Handler::StaticPage
                }
            },
            _ => Handler::PageNotFound,
        }
    }

    /// Whether `req` can be routed: a `GET` request's path must contain a
    /// `/`.
    pub fn can_route(req: &HttpRequest) -> (r: bool)
        ensures
            r == routable(req@.method, req@.resource),
    {
        match req.method {
            Method::Get => {
                let Resource::Path(p) = &req.resource;
                let path = chars_of(p.as_str());
                let slash = ['/'];
                assert(slash@ =~= seq!['/']);
                let segs = split_chars(path.as_slice(), &slash);
                segs.len() >= 2
            },
            _ => true,
        }
    }
}

} // verus!
