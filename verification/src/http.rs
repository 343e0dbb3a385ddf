//! The request/response message model and the wire-format parser and
//! serializer.
//!
//! Requests are parsed from raw text: a request line of exactly three
//! whitespace-separated tokens (the third starting with `HTTP/`), then
//! header lines up to the first blank line, then the body. Responses are
//! built by chained mutation operations and serialized back to wire
//! format with headers in insertion order.

use vstd::prelude::*;

use crate::strmap::{assoc_get, assoc_set, StringMap};
use crate::text::{
    dec_rep, find_char, has_prefix, index_of_char, lemma_find_from_props, lines_of, push_decimal,
    split_lines, split_whitespace_vec, str_has_prefix, strip_crlf, tokens, trim_str, trimmed,
    without_crlf,
};
use vstd::slice::slice_index_get;

verus! {

/// A parsed HTTP request.
pub struct Request {
    pub method: String,
    pub path: String,
    pub headers: StringMap,
    pub body: String,
    pub params: StringMap,
}

/// An HTTP response under construction.
pub struct Response {
    pub status_code: u16,
    pub headers: StringMap,
    pub body: String,
}

/// The headers every fresh response starts with.
pub open spec fn default_headers() -> Seq<(Seq<char>, Seq<char>)> {
    seq![("Content-Type"@, "text/plain"@)]
}

/// The serialized form of the headers `hs`, one `Key: Value` line each,
/// in order.
pub open spec fn render_headers(hs: Seq<(Seq<char>, Seq<char>)>) -> Seq<char>
    decreases hs.len(),
{
    if hs.len() == 0 {
        Seq::empty()
    } else {
        render_headers(hs.drop_last()) + hs.last().0 + ": "@ + hs.last().1 + "\r\n"@
    }
}

/// The serialized form of a response: status line, header lines, a blank
/// line, then the raw body.
pub open spec fn render_response(
    status: int,
    hs: Seq<(Seq<char>, Seq<char>)>,
    body: Seq<char>,
) -> Seq<char> {
    "HTTP/1.1 "@ + dec_rep(status) + " OK\r\n"@ + render_headers(hs) + "\r\n"@ + body
}

impl Response {
    /// A response with the given status and body and the default
    /// `Content-Type: text/plain` header.
    pub fn new(status_code: u16, body: &str) -> (r: Response)
        ensures
            r.status_code == status_code,
            r.headers@ == default_headers(),
            r.body@ == body@,
    {
        let mut headers = StringMap::new();
        headers.insert("Content-Type", "text/plain");
        proof {
            assert(headers@ =~= default_headers());
        }
        Response { status_code, headers, body: body.to_owned() }
    }

    /// Sets the header `key` to `value`, with carriage returns and line
    /// feeds stripped from the value so no header line can be injected.
    pub fn header(self, key: &str, value: &str) -> (r: Response)
        ensures
            r.status_code == self.status_code,
            r.body == self.body,
            r.headers@ == assoc_set(self.headers@, key@, without_crlf(value@)),
    {
        let mut r = self;
        let clean = strip_crlf(value);
        r.headers.insert(key, clean.as_str());
        r
    }

    /// Replaces the body, leaving the headers alone.
    pub fn send(self, body: &str) -> (r: Response)
        ensures
            r.status_code == self.status_code,
            r.headers == self.headers,
            r.body@ == body@,
    {
        let mut r = self;
        r.body = body.to_owned();
        r
    }

    /// Replaces the body and marks it as JSON via the `Content-Type`
    /// header.
    pub fn json(self, body: &str) -> (r: Response)
        ensures
            r.status_code == self.status_code,
            r.headers@ == assoc_set(self.headers@, "Content-Type"@, "application/json"@),
            r.body@ == body@,
    {
        let mut r = self;
        r.headers.insert("Content-Type", "application/json");
        r.body = body.to_owned();
        r
    }

    /// Sets a `Set-Cookie` header built from the cookie name, value and
    /// options, with carriage returns and line feeds stripped.
    pub fn cookie(self, key: &str, value: &str, options: &str) -> (r: Response)
        ensures
            r.status_code == self.status_code,
            r.body == self.body,
            r.headers@ == assoc_set(
                self.headers@,
                "Set-Cookie"@,
                without_crlf(key@ + "="@ + value@ + "; "@ + options@),
            ),
    {
        let mut cookie_line = key.to_owned();
        cookie_line.append("=");
        cookie_line.append(value);
        cookie_line.append("; ");
        cookie_line.append(options);
        proof {
            assert(cookie_line@ =~= key@ + "="@ + value@ + "; "@ + options@);
        }
        let clean = strip_crlf(cookie_line.as_str());
        let mut r = self;
        r.headers.insert("Set-Cookie", clean.as_str());
        r
    }

    /// Sets a `Set-Cookie` header that expires the cookie at once.
    pub fn clear_cookie(self, key: &str) -> (r: Response)
        ensures
            r.status_code == self.status_code,
            r.body == self.body,
            r.headers@ == assoc_set(
                self.headers@,
                "Set-Cookie"@,
                without_crlf(key@ + "=; Max-Age=0"@),
            ),
    {
        let mut cookie_line = key.to_owned();
        cookie_line.append("=; Max-Age=0");
        proof {
            assert(cookie_line@ =~= key@ + "=; Max-Age=0"@);
        }
        let clean = strip_crlf(cookie_line.as_str());
        let mut r = self;
        r.headers.insert("Set-Cookie", clean.as_str());
        r
    }

    /// Serializes the response to wire format.
    pub fn to_string(&self) -> (r: String)
        ensures
            r@ == render_response(self.status_code as int, self.headers@, self.body@),
    {
        let mut out = String::new();
        out.append("HTTP/1.1 ");
        push_decimal(&mut out, self.status_code);
        out.append(" OK\r\n");
        let ghost head = "HTTP/1.1 "@ + dec_rep(self.status_code as int) + " OK\r\n"@;
        proof {
            assert(out@ =~= head + render_headers(self.headers@.take(0)));
        }
        let n = self.headers.len();
        let mut i: usize = 0;
        while i < n
            invariant
                i <= n,
                n == self.headers@.len(),
                out@ == head + render_headers(self.headers@.take(i as int)),
            decreases n - i,
        {
            out.append(self.headers.key_at(i).as_str());
            out.append(": ");
            out.append(self.headers.value_at(i).as_str());
            out.append("\r\n");
            proof {
                let hs = self.headers@;
                assert(hs.take(i + 1).drop_last() =~= hs.take(i as int));
                assert(hs.take(i + 1).last() == hs[i as int]);
                assert(out@ =~= head + render_headers(hs.take(i + 1)));
            }
            i = i + 1;
        }
        proof {
            assert(self.headers@.take(n as int) =~= self.headers@);
        }
        out.append("\r\n");
        out.append(self.body.as_str());
        proof {
            assert(out@ =~= render_response(self.status_code as int, self.headers@, self.body@));
        }
        out
    }
}

/// What a header candidate line yields: the trimmed parts on either side
/// of the first colon, if the line has one.
pub open spec fn header_parts(l: Seq<char>) -> Option<(Seq<char>, Seq<char>)> {
    match find_char(l, ':') {
        Some(j) => Some((trimmed(l.take(j)), trimmed(l.skip(j + 1)))),
        None => None,
    }
}

/// Whether a request line is well formed: exactly three whitespace
/// separated tokens, the third starting with `HTTP/`.
pub open spec fn request_line_ok(l: Seq<char>) -> bool {
    tokens(l).len() == 3 && has_prefix(tokens(l)[2], "HTTP/"@)
}

/// Whether raw request text is well formed: it has a first line and that
/// line is a well-formed request line.
pub open spec fn request_ok(s: Seq<char>) -> bool {
    lines_of(s).len() > 0 && request_line_ok(lines_of(s)[0])
}

/// The position of the first blank line at or after `i`, or the number
/// of lines if there is none.
pub open spec fn first_blank(ls: Seq<Seq<char>>, i: int) -> int
    decreases ls.len() - i,
{
    if i >= ls.len() {
        ls.len() as int
    } else if ls[i].len() == 0 {
        i
    } else {
        first_blank(ls, i + 1)
    }
}

/// The headers drawn from the first `n` lines: every line with a colon
/// contributes its trimmed key/value pair, later duplicate keys
/// overwriting earlier ones; lines without a colon are skipped.
pub open spec fn headers_of(ls: Seq<Seq<char>>, n: int) -> Seq<(Seq<char>, Seq<char>)>
    decreases n,
{
    if n <= 0 {
        Seq::empty()
    } else {
        let prev = headers_of(ls, n - 1);
        match header_parts(ls[n - 1]) {
            Some(p) => assoc_set(prev, p.0, p.1),
            None => prev,
        }
    }
}

/// The lines with positions in `[from, to)`, concatenated.
pub open spec fn concat_lines(ls: Seq<Seq<char>>, from: int, to: int) -> Seq<char>
    decreases to - from,
{
    if to <= from || to > ls.len() {
        Seq::empty()
    } else {
        concat_lines(ls, from, to - 1) + ls[to - 1]
    }
}

/// Splits a header candidate line on its first colon and trims both
/// parts; a line without a colon yields nothing and is skipped.
pub fn parse_header(line: &str) -> (r: Option<(String, String)>)
    ensures
        match r {
            Some(p) => header_parts(line@) == Some((p.0@, p.1@)),
            None => header_parts(line@) is None,
        },
{
    match index_of_char(line, ':') {
        Some(j) => {
            proof {
                lemma_find_from_props(line@, ':', 0, j as int);
            }
            let n = line.unicode_len();
            let key = trim_str(line.substring_char(0, j));
            let value = trim_str(line.substring_char(j + 1, n));
            proof {
                assert(line@.subrange(0, j as int) =~= line@.take(j as int));
                assert(line@.subrange(j as int + 1, n as int) =~= line@.skip(j as int + 1));
            }
            Some((key.to_owned(), value.to_owned()))
        },
        None => None,
    }
}

/// Tokenizes a request line into its method and path; a line without
/// exactly three tokens, or whose third token does not start with
/// `HTTP/`, is rejected.
pub fn parse_request_line<'a>(line: &'a str) -> (r: Result<(&'a str, &'a str), &'static str>)
    ensures
        match r {
            Ok(t) => request_line_ok(line@) && t.0@ == tokens(line@)[0] && t.1@ == tokens(
                line@,
            )[1],
            Err(e) => !request_line_ok(line@) && e@ == "Invalid request"@,
        },
{
    let parts = split_whitespace_vec(line);
    if parts.len() == 3 {
        if str_has_prefix(parts[2], "HTTP/") {
            return Ok((parts[0], parts[1]));
        }
    }
    Err("Invalid request")
}

/// Reads the header lines up to the first blank line into a map and
/// concatenates the lines after it into the body.
pub fn parse_headers_and_body(lines: &[&str]) -> (r: (StringMap, String))
    ensures
        r.0@ == headers_of(lines.deep_view(), first_blank(lines.deep_view(), 0)),
        r.1@ == concat_lines(
            lines.deep_view(),
            first_blank(lines.deep_view(), 0) + 1,
            lines.deep_view().len() as int,
        ),
{
    let ghost ls = lines.deep_view();
    let n = lines.len();
    let mut fb: usize = 0;
    while fb < n && !(*slice_index_get(lines, fb)).is_empty()
        invariant
            fb <= n,
            first_blank(ls, 0) == first_blank(ls, fb as int),
        decreases n - fb,
    {
        fb = fb + 1;
    }
    assert(first_blank(ls, 0) == fb as int);
    let mut headers = StringMap::new();
    let mut i: usize = 0;
    while i < fb
        invariant
            i <= fb <= n,
            n == ls.len(),
            headers@ == headers_of(ls, i as int),
        decreases fb - i,
    {
        let line = *slice_index_get(lines, i);
        match parse_header(line) {
            Some(pair) => {
                headers.insert(pair.0.as_str(), pair.1.as_str());
            },
            None => {},
        }
        i = i + 1;
    }
    let mut body = String::new();
    let mut j: usize = fb;
    proof {
        assert(body@ =~= concat_lines(ls, fb as int + 1, fb as int));
    }
    while j < n
        invariant
            fb <= j <= n,
            n == ls.len(),
            body@ == concat_lines(ls, fb as int + 1, j as int),
        decreases n - j,
    {
        if j > fb {
            let line = *slice_index_get(lines, j);
            body.append(line);
        }
        j = j + 1;
    }
    (headers, body)
}

/// Parses raw request text into a request. The text must have a well
/// formed request line; headers and body follow it, and the parameter
/// map always starts out empty.
pub fn parse_request(request: &str) -> (r: Result<Request, &'static str>)
    ensures
        match r {
            Ok(req) => ({
                let ls = lines_of(request@);
                let ts = tokens(ls[0]);
                let tail = ls.skip(1);
                request_ok(request@) && req.method@ == ts[0] && req.path@ == ts[1]
                    && req.headers@ == headers_of(tail, first_blank(tail, 0)) && req.body@
                    == concat_lines(tail, first_blank(tail, 0) + 1, tail.len() as int)
                    && req.params@ == Seq::<(Seq<char>, Seq<char>)>::empty()
            }),
            Err(e) => !request_ok(request@) && e@ == "Invalid request"@,
        },
{
    let all_lines = split_lines(request);
    let ghost ls = lines_of(request@);
    if all_lines.is_empty() {
        return Err("Invalid request");
    }
    let first = all_lines[0];
    assert(first@ == ls[0]);
    let (method, path) = match parse_request_line(first) {
        Ok(t) => t,
        Err(e) => {
            return Err(e);
        },
    };
    let total = all_lines.len();
    let mut rest: Vec<&str> = Vec::new();
    let mut i: usize = 1;
    proof {
        assert(rest.deep_view() =~= ls.subrange(1, 1));
    }
    while i < total
        invariant
            1 <= i <= total,
            total == ls.len(),
            rest.deep_view() == ls.subrange(1, i as int),
        decreases total - i,
    {
        let ghost old_dv = rest.deep_view();
        rest.push(all_lines[i]);
        proof {
            assert(rest.deep_view() =~= old_dv.push(ls[i as int]));
            assert(old_dv.push(ls[i as int]) =~= ls.subrange(1, i as int + 1));
        }
        i = i + 1;
    }
    let rest_slice = rest.as_slice();
    proof {
        assert(ls.subrange(1, total as int) =~= ls.skip(1));
        assert(rest_slice.deep_view() =~= rest.deep_view());
    }
    let (headers, body) = parse_headers_and_body(rest_slice);
    Ok(
        Request {
            method: method.to_owned(),
            path: path.to_owned(),
            headers,
            body,
            params: StringMap::new(),
        },
    )
}

impl Request {
    /// A request with the given method and path and nothing else.
    pub fn new(method: &str, path: &str) -> (r: Request)
        ensures
            r.method@ == method@,
            r.path@ == path@,
            r.headers@ == Seq::<(Seq<char>, Seq<char>)>::empty(),
            r.body@ == Seq::<char>::empty(),
            r.params@ == Seq::<(Seq<char>, Seq<char>)>::empty(),
    {
        let r = Request {
            method: method.to_owned(),
            path: path.to_owned(),
            headers: StringMap::new(),
            body: String::new(),
            params: StringMap::new(),
        };
        r
    }

    /// The path parameter bound to `key` by the matched route, if any.
    pub fn param(&self, key: &str) -> (r: Option<&String>)
        ensures
            match r {
                Some(v) => assoc_get(self.params@, key@) == Some(v@),
                None => assoc_get(self.params@, key@) is None,
            },
    {
        self.params.get(key)
    }
}

} // verus!
