//! Application assembly: verb-keyed route registration, the middleware
//! chain, and the raw-text request cycle.
//!
//! Middleware wraps dispatch in an onion: walking the registered list in
//! order, each applicable middleware receives the request and a
//! continuation standing for the rest of the chain, so middleware
//! registered earlier wraps more of the chain. An entry scoped to a path
//! prefix is skipped entirely for requests outside that prefix. The
//! innermost continuation is route dispatch.

use vstd::prelude::*;

use crate::http::{
    default_headers, parse_request, render_response, request_ok, Request, Response,
};
use crate::router::{find_route, route_added, Handler, Router};
use crate::text::{has_prefix, lines_of, str_has_prefix, tokens};

verus! {

/// The rest of the chain: middleware hands the request on by invoking
/// this once (or not at all, to short-circuit).
pub trait Continuation {
    fn invoke(&self, req: &mut Request) -> Response;
}

/// Cross-cutting logic wrapped around dispatch: it may mutate the
/// request, decide whether to invoke the rest of the chain, and rework
/// the response it hands back.
pub trait Middleware {
    fn call(&self, req: &mut Request, next: &dyn Continuation) -> Response;
}

/// A registered middleware together with its optional path-prefix
/// filter.
pub struct MiddlewareEntry<M> {
    pub prefix: Option<String>,
    pub middleware: M,
}

/// Whether an entry applies to a request path: it does when it carries
/// no filter, or when the path starts with the filter string.
pub open spec fn entry_applies<M>(e: MiddlewareEntry<M>, path: Seq<char>) -> bool {
    match e.prefix {
        Some(p) => has_prefix(path, p@),
        None => true,
    }
}

/// Whether no entry at or after `from` applies to the path.
pub open spec fn none_applies<M>(
    mws: Seq<MiddlewareEntry<M>>,
    from: int,
    path: Seq<char>,
) -> bool {
    forall|j: int| from <= j < mws.len() ==> !entry_applies(#[trigger] mws[j], path)
}

/// An application: a route table and an ordered middleware list.
pub struct App<H, M> {
    pub router: Router<H>,
    pub middlewares: Vec<MiddlewareEntry<M>>,
}

/// The chain from one position on: invoking it runs the remaining
/// middleware entries and, innermost, route dispatch.
pub struct Next<'a, H, M> {
    app: &'a App<H, M>,
    index: usize,
}

impl<H, M> App<H, M> {
    /// An application with no routes and no middleware.
    pub fn new() -> (r: App<H, M>)
        ensures
            r.router.routes@.len() == 0,
            r.middlewares@.len() == 0,
    {
        App { router: Router::new(), middlewares: Vec::new() }
    }

    /// Registers a handler for `GET` requests on `path`.
    pub fn get(&mut self, path: &str, handler: H)
        ensures
            route_added(old(self).router.routes@, final(self).router.routes@, "GET"@, path@, handler),
            final(self).middlewares == old(self).middlewares,
    {
        self.router.add_route("GET", path, handler);
    }

    /// Registers a handler for `POST` requests on `path`.
    pub fn post(&mut self, path: &str, handler: H)
        ensures
            route_added(old(self).router.routes@, final(self).router.routes@, "POST"@, path@, handler),
            final(self).middlewares == old(self).middlewares,
    {
        self.router.add_route("POST", path, handler);
    }

    /// Registers a handler for `PUT` requests on `path`.
    pub fn put(&mut self, path: &str, handler: H)
        ensures
            route_added(old(self).router.routes@, final(self).router.routes@, "PUT"@, path@, handler),
            final(self).middlewares == old(self).middlewares,
    {
        self.router.add_route("PUT", path, handler);
    }

    /// Registers a handler for `DELETE` requests on `path`.
    pub fn delete(&mut self, path: &str, handler: H)
        ensures
            route_added(
                old(self).router.routes@,
                final(self).router.routes@,
                "DELETE"@,
                path@,
                handler,
            ),
            final(self).middlewares == old(self).middlewares,
    {
        self.router.add_route("DELETE", path, handler);
    }

    /// Registers a handler for `PATCH` requests on `path`.
    pub fn patch(&mut self, path: &str, handler: H)
        ensures
            route_added(
                old(self).router.routes@,
                final(self).router.routes@,
                "PATCH"@,
                path@,
                handler,
            ),
            final(self).middlewares == old(self).middlewares,
    {
        self.router.add_route("PATCH", path, handler);
    }

    /// Registers a handler for `OPTIONS` requests on `path`.
    pub fn options(&mut self, path: &str, handler: H)
        ensures
            route_added(
                old(self).router.routes@,
                final(self).router.routes@,
                "OPTIONS"@,
                path@,
                handler,
            ),
            final(self).middlewares == old(self).middlewares,
    {
        self.router.add_route("OPTIONS", path, handler);
    }

    /// Registers a handler for `HEAD` requests on `path`.
    pub fn head(&mut self, path: &str, handler: H)
        ensures
            route_added(
                old(self).router.routes@,
                final(self).router.routes@,
                "HEAD"@,
                path@,
                handler,
            ),
            final(self).middlewares == old(self).middlewares,
    {
        self.router.add_route("HEAD", path, handler);
    }

    /// Appends a middleware that applies to every request.
    pub fn use_middleware(&mut self, middleware: M)
        ensures
            final(self).middlewares@.len() == old(self).middlewares@.len() + 1,
            forall|j: int|
                0 <= j < old(self).middlewares@.len() ==> final(self).middlewares@[j] == old(
                    self,
                ).middlewares@[j],
            final(self).middlewares@.last().prefix is None,
            final(self).middlewares@.last().middleware == middleware,
            final(self).router == old(self).router,
    {
        self.middlewares.push(MiddlewareEntry { prefix: None, middleware });
    }

    /// Appends a middleware, scoped to paths starting with `prefix`
    /// when one is given.
    pub fn work(&mut self, prefix: Option<String>, middleware: M)
        ensures
            final(self).middlewares@.len() == old(self).middlewares@.len() + 1,
            forall|j: int|
                0 <= j < old(self).middlewares@.len() ==> final(self).middlewares@[j] == old(
                    self,
                ).middlewares@[j],
            final(self).middlewares@.last().prefix == prefix,
            final(self).middlewares@.last().middleware == middleware,
            final(self).router == old(self).router,
    {
        self.middlewares.push(MiddlewareEntry { prefix, middleware });
    }
}

impl<H: Handler, M: Middleware> App<H, M> {
    fn run_from(&self, i: usize, request: &mut Request) -> (res: Response)
        ensures
            none_applies(self.middlewares@, i as int, old(request).path@) && find_route(
                self.router.routes@,
                old(request).method@,
                old(request).path@,
                0,
            ) is None ==> *final(request) == *old(request) && res.status_code == 404 && res.body@
                == "Not Found"@ && res.headers@ == default_headers(),
        decreases self.middlewares@.len() - i,
    {
        if i >= self.middlewares.len() {
            self.router.handle_request(request)
        } else {
            let applies = match &self.middlewares[i].prefix {
                Some(p) => str_has_prefix(request.path.as_str(), p.as_str()),
                None => true,
            };
            if applies {
                let next = Next { app: self, index: i + 1 };
                self.middlewares[i].middleware.call(request, &next)
            } else {
                self.run_from(i + 1, request)
            }
        }
    }

    /// Builds the middleware chain around route dispatch and runs it
    /// once on the request. A request no middleware applies to and no
    /// route matches comes back untouched with a plain 404 response.
    pub fn run_middlewares(&self, request: &mut Request) -> (res: Response)
        ensures
            none_applies(self.middlewares@, 0, old(request).path@) && find_route(
                self.router.routes@,
                old(request).method@,
                old(request).path@,
                0,
            ) is None ==> *final(request) == *old(request) && res.status_code == 404 && res.body@
                == "Not Found"@ && res.headers@ == default_headers(),
    {
        self.run_from(0, request)
    }

    /// One full request cycle on raw request text: parse, run the
    /// middleware chain around dispatch, and serialize the outcome.
    /// Text without a well-formed request line yields a plain 400
    /// response; a request nothing handles yields a plain 404 response.
    pub fn handle_raw(&self, raw: &str) -> (out: String)
        ensures
            !request_ok(raw@) ==> out@ == render_response(400, default_headers(), "Bad Request"@),
            request_ok(raw@) ==> ({
                let ts = tokens(lines_of(raw@)[0]);
                none_applies(self.middlewares@, 0, ts[1]) && find_route(
                    self.router.routes@,
                    ts[0],
                    ts[1],
                    0,
                ) is None ==> out@ == render_response(404, default_headers(), "Not Found"@)
            }),
    {
        match parse_request(raw) {
            Ok(mut request) => {
                let res = self.run_middlewares(&mut request);
                res.to_string()
            },
            Err(_) => Response::new(400, "Bad Request").to_string(),
        }
    }
}

impl<'a, H: Handler, M: Middleware> Continuation for Next<'a, H, M> {
    /// Runs the rest of the chain: the remaining middleware entries and,
    /// innermost, route dispatch.
    fn invoke(&self, req: &mut Request) -> Response {
        self.app.run_from(self.index, req)
    }
}

} // verus!
