//! HTTP responses: the status-code enumeration, a builder, and a
//! byte-exact rendering of the wire form, with the default headers the
//! engine adds (date, server, connection handling) specified precisely.

use vstd::prelude::*;
use vstd::string::{StringExecFns, StringSliceAdditionalSpecFns};
use vstd::utf8::encode_utf8;
use crate::protocol::headers::{HeaderMap, header_key, entry_present, lemma_map_keys};
use crate::text::{dec_chars, usize_to_string, lower_vec};
use vstd::slice::slice_to_vec;

verus! {

// ---------------------------------------------------------------------------
// Status codes
// ---------------------------------------------------------------------------

/// The response status codes this engine speaks.
#[derive(Debug, Clone, Copy, PartialEq, Eq, Structural)]
pub enum HttpStatusCode {
    Continue,
    SwitchingProtocols,
    Okay,
    Created,
    Accepted,
    NoContent,
    MovedPermanently,
    Found,
    NotModified,
    BadRequest,
    Unauthorized,
    Forbidden,
    NotFound,
    MethodNotAllowed,
    InternalServerError,
    NotImplemented,
    BadGateway,
    ServiceUnavailable,
}

/// The numeric code of a status.
pub open spec fn status_code(s: HttpStatusCode) -> u16 {
    match s {
        HttpStatusCode::Continue => 100,
        HttpStatusCode::SwitchingProtocols => 101,
        HttpStatusCode::Okay => 200,
        HttpStatusCode::Created => 201,
        HttpStatusCode::Accepted => 202,
        HttpStatusCode::NoContent => 204,
        HttpStatusCode::MovedPermanently => 301,
        HttpStatusCode::Found => 302,
        HttpStatusCode::NotModified => 304,
        HttpStatusCode::BadRequest => 400,
        HttpStatusCode::Unauthorized => 401,
        HttpStatusCode::Forbidden => 403,
        HttpStatusCode::NotFound => 404,
        HttpStatusCode::MethodNotAllowed => 405,
        HttpStatusCode::InternalServerError => 500,
        HttpStatusCode::NotImplemented => 501,
        HttpStatusCode::BadGateway => 502,
        HttpStatusCode::ServiceUnavailable => 503,
    }
}

/// The reason phrase of a status.
pub open spec fn reason_chars(s: HttpStatusCode) -> Seq<char> {
    match s {
        HttpStatusCode::Continue => "Continue"@,
        HttpStatusCode::SwitchingProtocols => "Switching Protocols"@,
        HttpStatusCode::Okay => "OK"@,
        HttpStatusCode::Created => "Created"@,
        HttpStatusCode::Accepted => "Accepted"@,
        HttpStatusCode::NoContent => "No Content"@,
        HttpStatusCode::MovedPermanently => "Moved Permanently"@,
        HttpStatusCode::Found => "Found"@,
        HttpStatusCode::NotModified => "Not Modified"@,
        HttpStatusCode::BadRequest => "Bad Request"@,
        HttpStatusCode::Unauthorized => "Unauthorized"@,
        HttpStatusCode::Forbidden => "Forbidden"@,
        HttpStatusCode::NotFound => "Not Found"@,
        HttpStatusCode::MethodNotAllowed => "Method Not Allowed"@,
        HttpStatusCode::InternalServerError => "Internal Server Error"@,
        HttpStatusCode::NotImplemented => "Not Implemented"@,
        HttpStatusCode::BadGateway => "Bad Gateway"@,
        HttpStatusCode::ServiceUnavailable => "Service Unavailable"@,
    }
}

/// The status line's display: the code, a space, the reason phrase.
pub open spec fn status_line_chars(s: HttpStatusCode) -> Seq<char> {
    dec_chars(status_code(s) as nat) + " "@ + reason_chars(s)
}

impl HttpStatusCode {
    /// The numeric code.
    pub fn code(&self) -> (r: u16)
        ensures
            r == status_code(*self),
    {
        match self {
            HttpStatusCode::Continue => 100,
            HttpStatusCode::SwitchingProtocols => 101,
            HttpStatusCode::Okay => 200,
            HttpStatusCode::Created => 201,
            HttpStatusCode::Accepted => 202,
            HttpStatusCode::NoContent => 204,
            HttpStatusCode::MovedPermanently => 301,
            HttpStatusCode::Found => 302,
            HttpStatusCode::NotModified => 304,
            HttpStatusCode::BadRequest => 400,
            HttpStatusCode::Unauthorized => 401,
            HttpStatusCode::Forbidden => 403,
            HttpStatusCode::NotFound => 404,
            HttpStatusCode::MethodNotAllowed => 405,
            HttpStatusCode::InternalServerError => 500,
            HttpStatusCode::NotImplemented => 501,
            HttpStatusCode::BadGateway => 502,
            HttpStatusCode::ServiceUnavailable => 503,
        }
    }

    /// The reason phrase.
    pub fn reason_phrase(&self) -> (r: &'static str)
        ensures
            r@ == reason_chars(*self),
    {
        match self {
            HttpStatusCode::Continue => "Continue",
            HttpStatusCode::SwitchingProtocols => "Switching Protocols",
            HttpStatusCode::Okay => "OK",
            HttpStatusCode::Created => "Created",
            HttpStatusCode::Accepted => "Accepted",
            HttpStatusCode::NoContent => "No Content",
            HttpStatusCode::MovedPermanently => "Moved Permanently",
            HttpStatusCode::Found => "Found",
            HttpStatusCode::NotModified => "Not Modified",
            HttpStatusCode::BadRequest => "Bad Request",
            HttpStatusCode::Unauthorized => "Unauthorized",
            HttpStatusCode::Forbidden => "Forbidden",
            HttpStatusCode::NotFound => "Not Found",
            HttpStatusCode::MethodNotAllowed => "Method Not Allowed",
            HttpStatusCode::InternalServerError => "Internal Server Error",
            HttpStatusCode::NotImplemented => "Not Implemented",
            HttpStatusCode::BadGateway => "Bad Gateway",
            HttpStatusCode::ServiceUnavailable => "Service Unavailable",
        }
    }

    /// Whether the code lies in the 2xx success range.
    pub fn is_success(&self) -> (r: bool)
        ensures
            r == (200 <= status_code(*self) && status_code(*self) < 300),
    {
        let code = self.code();
        200 <= code && code < 300
    }

    /// The status line's display, e.g. the code then the reason phrase.
    pub fn status_text(&self) -> (r: String)
        ensures
            r@ == status_line_chars(*self),
    {
        let code = self.code();
        usize_to_string(code as usize).concat(" ").concat(self.reason_phrase())
    }
}

// ---------------------------------------------------------------------------
// Responses
// ---------------------------------------------------------------------------

/// One response under construction: status, explicit headers, body, and
/// whether the connection should stay open afterward.
#[derive(Debug)]
pub struct HttpResponse {
    pub status: HttpStatusCode,
    pub headers: HeaderMap,
    pub body: Vec<u8>,
    pub keep_alive: bool,
}

/// One rendered header line: the key bytes, a colon and space, the value
/// in UTF-8, and CRLF.
pub open spec fn header_line(k: Seq<u8>, v: Seq<char>) -> Seq<u8> {
    k + encode_utf8(": "@) + encode_utf8(v) + encode_utf8("\r\n"@)
}

/// The rendered header block of a sequence of entries, in order.
pub open spec fn render_lines(s: Seq<(Seq<u8>, Seq<char>)>) -> Seq<u8>
    decreases s.len(),
{
    if s.len() == 0 {
        Seq::empty()
    } else {
        render_lines(s.drop_last()) + header_line(s.last().0, s.last().1)
    }
}

proof fn lemma_render_push(s: Seq<(Seq<u8>, Seq<char>)>, k: Seq<u8>, v: Seq<char>)
    ensures
        render_lines(s.push((k, v))) == render_lines(s) + header_line(k, v),
{
    assert(s.push((k, v)).drop_last() =~= s);
    assert(s.push((k, v)).last() == (k, v));
}

/// The entries a response is rendered with: the explicit entries, then
/// the defaults the engine owes — a date and a server header when absent,
/// and connection handling: keep-alive headers for a successful response
/// on a connection that stays open, `close` otherwise.
pub open spec fn default_entries(
    s: Seq<(Seq<u8>, Seq<char>)>,
    keep_alive: bool,
    success: bool,
    date: Seq<char>,
) -> Seq<(Seq<u8>, Seq<char>)> {
    let e1 = if !entry_present(s, header_key("date")) {
        s.push((header_key("date"), date))
    } else {
        s
    };
    let e2 = if !entry_present(s, header_key("server")) {
        e1.push((header_key("server"), "http-rs/0.1.0"@))
    } else {
        e1
    };
    if !entry_present(s, header_key("connection")) {
        if keep_alive && success {
            let e3 = e2.push((header_key("connection"), "keep-alive"@));
            if !entry_present(s, header_key("keep-alive")) {
                e3.push((header_key("keep-alive"), "timeout=5, max=100"@))
            } else {
                e3
            }
        } else {
            e2.push((header_key("connection"), "close"@))
        }
    } else {
        e2
    }
}

/// The full wire form of a response under a given date: the status line,
/// the header block with defaults applied, a blank line, and the body.
pub open spec fn spec_render(
    status: HttpStatusCode,
    entries: Seq<(Seq<u8>, Seq<char>)>,
    keep_alive: bool,
    body: Seq<u8>,
    date: Seq<char>,
) -> Seq<u8> {
    encode_utf8("HTTP/1.1 "@) + encode_utf8(status_line_chars(status)) + encode_utf8("\r\n"@)
        + render_lines(
        default_entries(
            entries,
            keep_alive,
            200 <= status_code(status) && status_code(status) < 300,
            date,
        ),
    ) + encode_utf8("\r\n"@) + body
}

/// Relies on chrono's `Utc::now` and its formatter for the `date` header;
/// the result depends on the clock, so nothing is claimed of it.
#[verifier::external_body]
fn now_http_date() -> (r: String) {
    chrono::Utc::now().format("%a, %d %b %Y %H:%M:%S GMT").to_string()
}

/// Append one header line: key, colon and space, value bytes, CRLF.
fn push_line(out: &mut Vec<u8>, key: &[u8], value: &[u8])
    ensures
        final(out)@ == old(out)@ + key@ + encode_utf8(": "@) + value@ + encode_utf8("\r\n"@),
{
    out.extend_from_slice(key);
    out.extend_from_slice(": ".as_bytes());
    out.extend_from_slice(value);
    out.extend_from_slice("\r\n".as_bytes());
    assert(out@ =~= old(out)@ + key@ + encode_utf8(": "@) + value@ + encode_utf8("\r\n"@));
}

impl HttpResponse {
    /// A fresh response: no headers, empty body, connection kept alive.
    pub fn new(status: HttpStatusCode) -> (r: Self)
        ensures
            r.status == status,
            r.headers@ == Map::<Seq<u8>, Seq<char>>::empty(),
            r.headers.spec_entries() == Seq::<(Seq<u8>, Seq<char>)>::empty(),
            r.headers.wf(),
            r.body@ == Seq::<u8>::empty(),
            r.keep_alive == true,
    {
        HttpResponse { status, headers: HeaderMap::new(), body: Vec::new(), keep_alive: true }
    }

    /// A 200 OK response.
    pub fn ok() -> (r: Self)
        ensures
            r.status == HttpStatusCode::Okay,
            r.headers.spec_entries() == Seq::<(Seq<u8>, Seq<char>)>::empty(),
            r.headers@ == Map::<Seq<u8>, Seq<char>>::empty(),
            r.headers.wf(),
            r.body@ == Seq::<u8>::empty(),
            r.keep_alive == true,
    {
        Self::new(HttpStatusCode::Okay)
    }

    /// A 404 Not Found response.
    pub fn not_found() -> (r: Self)
        ensures
            r.status == HttpStatusCode::NotFound,
            r.headers.spec_entries() == Seq::<(Seq<u8>, Seq<char>)>::empty(),
            r.headers@ == Map::<Seq<u8>, Seq<char>>::empty(),
            r.headers.wf(),
            r.body@ == Seq::<u8>::empty(),
            r.keep_alive == true,
    {
        Self::new(HttpStatusCode::NotFound)
    }

    /// A 500 Internal Server Error response.
    pub fn internal_server_error() -> (r: Self)
        ensures
            r.status == HttpStatusCode::InternalServerError,
            r.headers.spec_entries() == Seq::<(Seq<u8>, Seq<char>)>::empty(),
            r.headers@ == Map::<Seq<u8>, Seq<char>>::empty(),
            r.headers.wf(),
            r.body@ == Seq::<u8>::empty(),
            r.keep_alive == true,
    {
        Self::new(HttpStatusCode::InternalServerError)
    }

    /// A 400 Bad Request response.
    pub fn bad_request() -> (r: Self)
        ensures
            r.status == HttpStatusCode::BadRequest,
            r.headers.spec_entries() == Seq::<(Seq<u8>, Seq<char>)>::empty(),
            r.headers@ == Map::<Seq<u8>, Seq<char>>::empty(),
            r.headers.wf(),
            r.body@ == Seq::<u8>::empty(),
            r.keep_alive == true,
    {
        Self::new(HttpStatusCode::BadRequest)
    }

    /// A 101 Switching Protocols response.
    pub fn switching_protocols() -> (r: Self)
        ensures
            r.status == HttpStatusCode::SwitchingProtocols,
            r.headers.spec_entries() == Seq::<(Seq<u8>, Seq<char>)>::empty(),
            r.headers@ == Map::<Seq<u8>, Seq<char>>::empty(),
            r.headers.wf(),
            r.body@ == Seq::<u8>::empty(),
            r.keep_alive == true,
    {
        Self::new(HttpStatusCode::SwitchingProtocols)
    }

    /// Set one header, replacing any earlier value under the same name.
    pub fn with_header(self, name: &str, value: &str) -> (r: Self)
        requires
            self.headers.wf(),
        ensures
            r.status == self.status,
            r.body@ == self.body@,
            r.keep_alive == self.keep_alive,
            r.headers.wf(),
            r.headers@ == self.headers@.insert(header_key(name), value@),
            !entry_present(self.headers.spec_entries(), header_key(name))
                ==> r.headers.spec_entries()
                == self.headers.spec_entries().push((header_key(name), value@)),
    {
        let mut r = self;
        r.headers.insert(name, value.to_owned());
        r
    }

    /// Set the body, adding a `content-length` header for it unless one
    /// is already present.
    pub fn with_body(self, body: Vec<u8>) -> (r: Self)
        requires
            self.headers.wf(),
        ensures
            r.status == self.status,
            r.keep_alive == self.keep_alive,
            r.body@ == body@,
            r.headers.wf(),
            self.headers@.contains_key(header_key("content-length")) ==> r.headers@
                == self.headers@ && r.headers.spec_entries() == self.headers.spec_entries(),
            !self.headers@.contains_key(header_key("content-length")) ==> r.headers@
                == self.headers@.insert(header_key("content-length"), dec_chars(body@.len()))
                && (!entry_present(self.headers.spec_entries(), header_key("content-length"))
                ==> r.headers.spec_entries() == self.headers.spec_entries().push(
                (header_key("content-length"), dec_chars(body@.len())),
            )),
    {
        let mut r = self;
        if !r.headers.contains_key("content-length") {
            let len_text = usize_to_string(body.len());
            r.headers.insert("content-length", len_text);
        }
        r.body = body;
        r
    }

    /// Set a plain-text body with its content type.
    pub fn with_text(self, text: &str) -> (r: Self)
        requires
            self.headers.wf(),
        ensures
            r.status == self.status,
            r.keep_alive == self.keep_alive,
            r.body@ == text.spec_bytes(),
            r.headers.wf(),
            r.headers@ == with_typed_body_map(
                self.headers@,
                "text/plain; charset=utf-8"@,
                text.spec_bytes().len(),
            ),
    {
        self.with_header("content-type", "text/plain; charset=utf-8").with_body(
            slice_to_vec(text.as_bytes()),
        )
    }

    /// Set an HTML body with its content type.
    pub fn with_html(self, html: &str) -> (r: Self)
        requires
            self.headers.wf(),
        ensures
            r.status == self.status,
            r.keep_alive == self.keep_alive,
            r.body@ == html.spec_bytes(),
            r.headers.wf(),
            r.headers@ == with_typed_body_map(
                self.headers@,
                "text/html; charset=utf-8"@,
                html.spec_bytes().len(),
            ),
    {
        self.with_header("content-type", "text/html; charset=utf-8").with_body(
            slice_to_vec(html.as_bytes()),
        )
    }

    /// Set a JSON body with its content type.
    pub fn with_json(self, json: &str) -> (r: Self)
        requires
            self.headers.wf(),
        ensures
            r.status == self.status,
            r.keep_alive == self.keep_alive,
            r.body@ == json.spec_bytes(),
            r.headers.wf(),
            r.headers@ == with_typed_body_map(
                self.headers@,
                "application/json; charset=utf-8"@,
                json.spec_bytes().len(),
            ),
    {
        self.with_header("content-type", "application/json; charset=utf-8").with_body(
            slice_to_vec(json.as_bytes()),
        )
    }

    /// Mark the connection to be closed after this response.
    pub fn close_connection(self) -> (r: Self)
        ensures
            r.status == self.status,
            r.headers == self.headers,
            r.body@ == self.body@,
            r.keep_alive == false,
    {
        let mut r = self;
        r.keep_alive = false;
        r
    }

    /// Render the explicit header block, in insertion order.
    #[verifier::loop_isolation(false)]
    fn render_explicit(&self) -> (r: Vec<u8>)
        requires
            self.headers.wf(),
        ensures
            r@ == render_lines(self.headers.spec_entries()),
    {
        let ghost entries = self.headers.spec_entries();
        let mut out: Vec<u8> = Vec::new();
        let mut i: usize = 0;
        proof {
            assert(render_lines(entries.take(0)) =~= Seq::<u8>::empty());
            assert(out@ =~= render_lines(entries.take(0)));
        }
        while i < self.headers.len()
            invariant
                i <= entries.len(),
                out@ == render_lines(entries.take(i as int)),
            decreases entries.len() - i,
        {
            let key = self.headers.key_at(i);
            let value = self.headers.value_at(i);
            push_line(&mut out, key.as_slice(), value.as_str().as_bytes());
            proof {
                assert(entries.take(i + 1).drop_last() =~= entries.take(i as int));
                assert(out@ =~= render_lines(entries.take(i + 1)));
            }
            i = i + 1;
        }
        assert(entries.take(entries.len() as int) =~= entries);
        out
    }

    /// Render the header block: the explicit headers in insertion order,
    /// then the owed defaults under the given date.
    #[verifier::rlimit(100)]
    fn render_headers(&self, date: &str) -> (r: Vec<u8>)
        requires
            self.headers.wf(),
        ensures
            r@ == render_lines(
                default_entries(
                    self.headers.spec_entries(),
                    self.keep_alive,
                    200 <= status_code(self.status) && status_code(self.status) < 300,
                    date@,
                ),
            ),
    {
        let ghost entries = self.headers.spec_entries();
        let ghost dc = date@;
        let ghost success = 200 <= status_code(self.status) && status_code(self.status) < 300;
        let mut out: Vec<u8> = self.render_explicit();

        let ghost mut cur = entries;
        proof {
            lemma_map_keys(entries, header_key("date"));
            lemma_map_keys(entries, header_key("server"));
            lemma_map_keys(entries, header_key("connection"));
            lemma_map_keys(entries, header_key("keep-alive"));
        }
        if !self.headers.contains_key("date") {
            let key = lower_vec("date".as_bytes());
            push_line(&mut out, key.as_slice(), date.as_bytes());
            proof {
                lemma_render_push(cur, header_key("date"), dc);
                cur = cur.push((header_key("date"), dc));
                assert(out@ =~= render_lines(cur));
            }
        }
        if !self.headers.contains_key("server") {
            let key = lower_vec("server".as_bytes());
            push_line(&mut out, key.as_slice(), "http-rs/0.1.0".as_bytes());
            proof {
                lemma_render_push(cur, header_key("server"), "http-rs/0.1.0"@);
                cur = cur.push((header_key("server"), "http-rs/0.1.0"@));
                assert(out@ =~= render_lines(cur));
            }
        }
        if !self.headers.contains_key("connection") {
            if self.keep_alive && self.status.is_success() {
                let key = lower_vec("connection".as_bytes());
                push_line(&mut out, key.as_slice(), "keep-alive".as_bytes());
                proof {
                    lemma_render_push(cur, header_key("connection"), "keep-alive"@);
                    cur = cur.push((header_key("connection"), "keep-alive"@));
                    assert(out@ =~= render_lines(cur));
                }
                if !self.headers.contains_key("keep-alive") {
                    let key2 = lower_vec("keep-alive".as_bytes());
                    push_line(&mut out, key2.as_slice(), "timeout=5, max=100".as_bytes());
                    proof {
                        lemma_render_push(cur, header_key("keep-alive"), "timeout=5, max=100"@);
                        cur = cur.push((header_key("keep-alive"), "timeout=5, max=100"@));
                        assert(out@ =~= render_lines(cur));
                    }
                }
            } else {
                let key = lower_vec("connection".as_bytes());
                push_line(&mut out, key.as_slice(), "close".as_bytes());
                proof {
                    lemma_render_push(cur, header_key("connection"), "close"@);
                    cur = cur.push((header_key("connection"), "close"@));
                    assert(out@ =~= render_lines(cur));
                }
            }
        }
        proof {
            assert(cur == default_entries(entries, self.keep_alive, success, dc));
        }
        out
    }

    /// Render the response: the status line, the header block with its
    /// defaults (under the date the clock gives), a blank line, the body.
    pub fn to_bytes(&self) -> (r: Vec<u8>)
        requires
            self.headers.wf(),
        ensures
            exists|date: Seq<char>|
                r@ == spec_render(
                    self.status,
                    self.headers.spec_entries(),
                    self.keep_alive,
                    self.body@,
                    date,
                ),
    {
        let date = now_http_date();
        let ghost dc = date@;
        let block = self.render_headers(date.as_str());
        let mut out: Vec<u8> = Vec::new();
        out.extend_from_slice("HTTP/1.1 ".as_bytes());
        let status_text = self.status.status_text();
        out.extend_from_slice(status_text.as_str().as_bytes());
        out.extend_from_slice("\r\n".as_bytes());
        out.extend_from_slice(block.as_slice());
        out.extend_from_slice("\r\n".as_bytes());
        out.extend_from_slice(self.body.as_slice());
        proof {
            assert(out@ =~= spec_render(
                self.status,
                self.headers.spec_entries(),
                self.keep_alive,
                self.body@,
                dc,
            ));
        }
        out
    }
}

/// The header map after a typed body is attached: the content type set,
/// and a content length added if none was present.
pub open spec fn with_typed_body_map(
    h: Map<Seq<u8>, Seq<char>>,
    content_type: Seq<char>,
    len: nat,
) -> Map<Seq<u8>, Seq<char>> {
    let h1 = h.insert(header_key("content-type"), content_type);
    if h1.contains_key(header_key("content-length")) {
        h1
    } else {
        h1.insert(header_key("content-length"), dec_chars(len))
    }
}

} // verus!
