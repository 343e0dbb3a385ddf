//! Route registration and matching.
//!
//! A route pairs a method and a `/`-delimited path pattern with a
//! handler. Pattern segments starting with `:` capture the request path
//! segment in that position under the name after the colon. Matching
//! walks the routes in registration order and the first one whose method
//! and pattern both fit wins; re-registering an identical method and
//! pattern replaces the handler in place, keeping the original position.

use vstd::prelude::*;

use crate::http::{default_headers, Request, Response};
use crate::strmap::{assoc_set, StringMap};
use crate::text::{split_chars, split_on_char, str_eq};

verus! {

/// Endpoint logic run once a route matches: it receives the request,
/// its path parameters filled in, and a fresh default response.
pub trait Handler {
    fn handle(&self, req: &mut Request, res: Response) -> Response;
}

/// A registered route.
pub struct Route<H> {
    pub method: String,
    pub pattern: String,
    pub handler: H,
}

/// The ordered route table.
pub struct Router<H> {
    pub routes: Vec<Route<H>>,
}

/// Whether pattern segment `p` accepts request segment `s`: a segment
/// starting with `:` accepts anything, any other must be equal to `s`.
pub open spec fn seg_matches(p: Seq<char>, s: Seq<char>) -> bool {
    (p.len() > 0 && p[0] == ':') || p == s
}

/// Whether the pattern `pat` matches the path: same number of `/`
/// separated segments, matching pairwise.
pub open spec fn pattern_matches(pat: Seq<char>, path: Seq<char>) -> bool {
    let ps = split_chars(pat, '/');
    let ss = split_chars(path, '/');
    ps.len() == ss.len() && (forall|i: int| 0 <= i < ps.len() ==> seg_matches(ps[i], ss[i]))
}

/// The parameter bindings drawn from the first `n` segment pairs: each
/// `:name` pattern segment binds `name` to the request segment in the
/// same position, later bindings of one name overwriting earlier ones.
pub open spec fn bindings(ps: Seq<Seq<char>>, ss: Seq<Seq<char>>, n: int) -> Seq<
    (Seq<char>, Seq<char>),
>
    decreases n,
{
    if n <= 0 {
        Seq::empty()
    } else {
        let prev = bindings(ps, ss, n - 1);
        if ps[n - 1].len() > 0 && ps[n - 1][0] == ':' {
            assoc_set(prev, ps[n - 1].skip(1), ss[n - 1])
        } else {
            prev
        }
    }
}

/// The parameter bindings a match of `pat` against `path` produces.
pub open spec fn path_params(pat: Seq<char>, path: Seq<char>) -> Seq<(Seq<char>, Seq<char>)> {
    bindings(split_chars(pat, '/'), split_chars(path, '/'), split_chars(pat, '/').len() as int)
}

/// The position at or after `i` of the first route registered under
/// exactly this method and pattern.
pub open spec fn route_index<H>(
    rs: Seq<Route<H>>,
    method: Seq<char>,
    pattern: Seq<char>,
    i: int,
) -> Option<int>
    decreases rs.len() - i,
{
    if i >= rs.len() {
        None
    } else if rs[i].method@ == method && rs[i].pattern@ == pattern {
        Some(i)
    } else {
        route_index(rs, method, pattern, i + 1)
    }
}

/// The position at or after `i` of the first route whose method equals
/// the request method and whose pattern matches the request path.
pub open spec fn find_route<H>(
    rs: Seq<Route<H>>,
    method: Seq<char>,
    path: Seq<char>,
    i: int,
) -> Option<int>
    decreases rs.len() - i,
{
    if i >= rs.len() {
        None
    } else if rs[i].method@ == method && pattern_matches(rs[i].pattern@, path) {
        Some(i)
    } else {
        find_route(rs, method, path, i + 1)
    }
}

/// First-registered-wins: a successful lookup names the earliest route,
/// at or after `from`, whose method equals the request method and whose
/// pattern matches the request path; a failed lookup means no route from
/// `from` on fits. Registration order is thus the only tie-break between
/// routes that could both match a request.
pub proof fn lemma_find_route_first<H>(
    rs: Seq<Route<H>>,
    method: Seq<char>,
    path: Seq<char>,
    from: int,
)
    requires
        0 <= from,
    ensures
        match find_route(rs, method, path, from) {
            Some(i) => from <= i < rs.len() && rs[i].method@ == method && pattern_matches(
                rs[i].pattern@,
                path,
            ) && (forall|j: int|
                from <= j < i ==> !((#[trigger] rs[j]).method@ == method && pattern_matches(
                    rs[j].pattern@,
                    path,
                ))),
            None => forall|j: int|
                from <= j < rs.len() ==> !((#[trigger] rs[j]).method@ == method
                    && pattern_matches(rs[j].pattern@, path)),
        },
    decreases rs.len() - from,
{
    if from < rs.len() && !(rs[from].method@ == method && pattern_matches(
        rs[from].pattern@,
        path,
    )) {
        lemma_find_route_first(rs, method, path, from + 1);
    }
}

/// How registration changes the table: an existing entry for the same
/// method and pattern has its handler replaced in place; otherwise the
/// new route is appended at the end.
pub open spec fn route_added<H>(
    old_rs: Seq<Route<H>>,
    new_rs: Seq<Route<H>>,
    method: Seq<char>,
    pattern: Seq<char>,
    h: H,
) -> bool {
    match route_index(old_rs, method, pattern, 0) {
        Some(i) => new_rs.len() == old_rs.len() && (forall|j: int|
            0 <= j < old_rs.len() && j != i ==> new_rs[j] == old_rs[j]) && new_rs[i].method@
            == method && new_rs[i].pattern@ == pattern && new_rs[i].handler == h,
        None => new_rs.len() == old_rs.len() + 1 && (forall|j: int|
            0 <= j < old_rs.len() ==> new_rs[j] == old_rs[j]) && new_rs.last().method@ == method
            && new_rs.last().pattern@ == pattern && new_rs.last().handler == h,
    }
}

impl<H> Router<H> {
    /// An empty route table.
    pub fn new() -> (r: Router<H>)
        ensures
            r.routes@.len() == 0,
    {
        Router { routes: Vec::new() }
    }

    fn key_index(&self, method: &str, pattern: &str) -> (r: Option<usize>)
        ensures
            match r {
                Some(i) => i < self.routes@.len() && route_index(
                    self.routes@,
                    method@,
                    pattern@,
                    0,
                ) == Some(i as int),
                None => route_index(self.routes@, method@, pattern@, 0) is None,
            },
    {
        let n = self.routes.len();
        let mut i: usize = 0;
        while i < n
            invariant
                i <= n,
                n == self.routes@.len(),
                route_index(self.routes@, method@, pattern@, 0) == route_index(
                    self.routes@,
                    method@,
                    pattern@,
                    i as int,
                ),
            decreases n - i,
        {
            if str_eq(self.routes[i].method.as_str(), method) && str_eq(
                self.routes[i].pattern.as_str(),
                pattern,
            ) {
                return Some(i);
            }
            i = i + 1;
        }
        None
    }

    /// Registers `handler` under the method and path pattern. The first
    /// registration of a key decides its position; registering the same
    /// key again replaces the handler.
    pub fn add_route(&mut self, method: &str, path: &str, handler: H)
        ensures
            route_added(old(self).routes@, final(self).routes@, method@, path@, handler),
    {
        match self.key_index(method, path) {
            Some(i) => {
                self.routes[i] = Route {
                    method: method.to_owned(),
                    pattern: path.to_owned(),
                    handler,
                };
            },
            None => {
                self.routes.push(
                    Route { method: method.to_owned(), pattern: path.to_owned(), handler },
                );
            },
        }
    }

    /// Matches a path pattern against a request path, yielding the
    /// parameter bindings exactly when every segment matches.
    pub fn match_path(&self, route_path: &str, request_path: &str) -> (r: Option<StringMap>)
        ensures
            r is Some <==> pattern_matches(route_path@, request_path@),
            match r {
                Some(m) => m@ == path_params(route_path@, request_path@),
                None => true,
            },
    {
        let ps = split_on_char(route_path, '/');
        let ss = split_on_char(request_path, '/');
        let ghost psv = split_chars(route_path@, '/');
        let ghost ssv = split_chars(request_path@, '/');
        let n = ps.len();
        if n != ss.len() {
            return None;
        }
        let mut params = StringMap::new();
        let mut i: usize = 0;
        while i < n
            invariant
                i <= n,
                n == psv.len() == ssv.len(),
                ps.deep_view() == psv,
                ss.deep_view() == ssv,
                forall|j: int| 0 <= j < i ==> seg_matches(psv[j], ssv[j]),
                params@ == bindings(psv, ssv, i as int),
            decreases n - i,
        {
            let pseg = ps[i];
            let sseg = ss[i];
            assert(pseg@ == psv[i as int] && sseg@ == ssv[i as int]);
            let plen = pseg.unicode_len();
            if plen > 0 && pseg.get_char(0) == ':' {
                let name = pseg.substring_char(1, plen);
                params.insert(name, sseg);
                proof {
                    assert(name@ =~= psv[i as int].skip(1));
                }
            } else {
                if !str_eq(pseg, sseg) {
                    assert(!seg_matches(psv[i as int], ssv[i as int]));
                    return None;
                }
            }
            i = i + 1;
        }
        Some(params)
    }

    /// Finds the first matching route in registration order and, when
    /// one exists, writes its parameter bindings into the request,
    /// replacing any prior contents and touching nothing else.
    pub fn match_route(&self, request: &mut Request) -> (found: Option<usize>)
        ensures
            match found {
                None => find_route(self.routes@, old(request).method@, old(request).path@, 0)
                    is None && *final(request) == *old(request),
                Some(i) => i < self.routes@.len() && find_route(
                    self.routes@,
                    old(request).method@,
                    old(request).path@,
                    0,
                ) == Some(i as int) && final(request).method == old(request).method
                    && final(request).path == old(request).path
                    && final(request).headers == old(request).headers
                    && final(request).body == old(request).body
                    && final(request).params@ == path_params(
                    self.routes@[i as int].pattern@,
                    old(request).path@,
                ),
            },
    {
        let n = self.routes.len();
        let mut i: usize = 0;
        while i < n
            invariant
                i <= n,
                n == self.routes@.len(),
                request == old(request),
                find_route(self.routes@, request.method@, request.path@, 0) == find_route(
                    self.routes@,
                    request.method@,
                    request.path@,
                    i as int,
                ),
            decreases n - i,
        {
            if str_eq(self.routes[i].method.as_str(), request.method.as_str()) {
                match self.match_path(self.routes[i].pattern.as_str(), request.path.as_str()) {
                    Some(params) => {
                        request.params = params;
                        return Some(i);
                    },
                    None => {},
                }
            }
            i = i + 1;
        }
        None
    }
}

impl<H: Handler> Router<H> {
    /// Dispatches a request: the first matching route's handler runs on
    /// the parameter-populated request and a fresh default response;
    /// with no matching route the request is left alone and the answer
    /// is a plain 404 response.
    pub fn handle_request(&self, request: &mut Request) -> (res: Response)
        ensures
            find_route(self.routes@, old(request).method@, old(request).path@, 0) is None
                ==> *final(request) == *old(request) && res.status_code == 404 && res.body@
                == "Not Found"@ && res.headers@ == default_headers(),
    {
        match self.match_route(request) {
            Some(i) => {
                let start = Response::new(200, "");
                self.routes[i].handler.handle(request, start)
            },
            None => Response::new(404, "Not Found"),
        }
    }
}

} // verus!
