//! HTTP request parsing: the method enumeration, line and token splitting,
//! header extraction with case-folded keys, and the body-framing decision.

use vstd::prelude::*;
use vstd::string::StringSliceAdditionalSpecFns;
use vstd::slice::slice_to_vec;
use crate::error::ServerError;
use crate::protocol::headers::{HeaderMap, header_key};
use crate::text::{
    lower_bytes, upper_bytes, upper_vec, bytes_eq, trim_bytes, trim_slice, is_ascii_space,
    byte_is_space, views_of, lossy_utf8_of, lossy_to_string, contains_seq, contains_fold,
    dec_numeral_ok, dec_val, numeral_digits, parse_dec,
};

verus! {

/// The largest request body this engine accepts, in bytes.
pub const MAX_BODY_BYTES: usize = 10 * 1024 * 1024;

// ---------------------------------------------------------------------------
// Methods
// ---------------------------------------------------------------------------

/// The nine request methods HTTP/1.1 names.
#[derive(Debug, Clone, Copy, PartialEq, Eq, Structural)]
pub enum HttpMethod {
    Get,
    Post,
    Put,
    Delete,
    Head,
    Options,
    Patch,
    Trace,
    Connect,
}

/// The canonical spelling of a method.
pub open spec fn method_name(m: HttpMethod) -> Seq<char> {
    match m {
        HttpMethod::Get => "GET"@,
        HttpMethod::Post => "POST"@,
        HttpMethod::Put => "PUT"@,
        HttpMethod::Delete => "DELETE"@,
        HttpMethod::Head => "HEAD"@,
        HttpMethod::Options => "OPTIONS"@,
        HttpMethod::Patch => "PATCH"@,
        HttpMethod::Trace => "TRACE"@,
        HttpMethod::Connect => "CONNECT"@,
    }
}

/// The canonical spelling of a method, as bytes.
pub open spec fn method_bytes(m: HttpMethod) -> Seq<u8> {
    vstd::utf8::encode_utf8(method_name(m))
}

/// The method a token names, compared without regard to ASCII case.
pub open spec fn method_of(token: Seq<u8>) -> Option<HttpMethod> {
    let up = upper_bytes(token);
    if up == method_bytes(HttpMethod::Get) {
        Some(HttpMethod::Get)
    } else if up == method_bytes(HttpMethod::Post) {
        Some(HttpMethod::Post)
    } else if up == method_bytes(HttpMethod::Put) {
        Some(HttpMethod::Put)
    } else if up == method_bytes(HttpMethod::Delete) {
        Some(HttpMethod::Delete)
    } else if up == method_bytes(HttpMethod::Head) {
        Some(HttpMethod::Head)
    } else if up == method_bytes(HttpMethod::Options) {
        Some(HttpMethod::Options)
    } else if up == method_bytes(HttpMethod::Patch) {
        Some(HttpMethod::Patch)
    } else if up == method_bytes(HttpMethod::Trace) {
        Some(HttpMethod::Trace)
    } else if up == method_bytes(HttpMethod::Connect) {
        Some(HttpMethod::Connect)
    } else {
        None
    }
}

impl HttpMethod {
    /// The method's canonical spelling.
    pub fn as_str(&self) -> (r: &'static str)
        ensures
            r@ == method_name(*self),
    {
        match self {
            HttpMethod::Get => "GET",
            HttpMethod::Post => "POST",
            HttpMethod::Put => "PUT",
            HttpMethod::Delete => "DELETE",
            HttpMethod::Head => "HEAD",
            HttpMethod::Options => "OPTIONS",
            HttpMethod::Patch => "PATCH",
            HttpMethod::Trace => "TRACE",
            HttpMethod::Connect => "CONNECT",
        }
    }

    /// Recognize a method token of any ASCII case; an unrecognized token
    /// is an invalid-request error.
    pub fn from_token(token: &[u8]) -> (r: Result<HttpMethod, ServerError>)
        ensures
            match method_of(token@) {
                Some(m) => r matches Ok(g) && g == m,
                None => r matches Err(e) && (e matches ServerError::InvalidHttpRequest(msg)
                    && msg@ == "Unsupported HTTP method"@),
            },
    {
        let up = upper_vec(token);
        if bytes_eq(up.as_slice(), "GET".as_bytes()) {
            Ok(HttpMethod::Get)
        } else if bytes_eq(up.as_slice(), "POST".as_bytes()) {
            Ok(HttpMethod::Post)
        } else if bytes_eq(up.as_slice(), "PUT".as_bytes()) {
            Ok(HttpMethod::Put)
        } else if bytes_eq(up.as_slice(), "DELETE".as_bytes()) {
            Ok(HttpMethod::Delete)
        } else if bytes_eq(up.as_slice(), "HEAD".as_bytes()) {
            Ok(HttpMethod::Head)
        } else if bytes_eq(up.as_slice(), "OPTIONS".as_bytes()) {
            Ok(HttpMethod::Options)
        } else if bytes_eq(up.as_slice(), "PATCH".as_bytes()) {
            Ok(HttpMethod::Patch)
        } else if bytes_eq(up.as_slice(), "TRACE".as_bytes()) {
            Ok(HttpMethod::Trace)
        } else if bytes_eq(up.as_slice(), "CONNECT".as_bytes()) {
            Ok(HttpMethod::Connect)
        } else {
            Err(ServerError::InvalidHttpRequest("Unsupported HTTP method"))
        }
    }
}

impl core::str::FromStr for HttpMethod {
    type Err = ServerError;

    fn from_str(s: &str) -> Result<HttpMethod, ServerError> {
        HttpMethod::from_token(s.as_bytes())
    }
}

// ---------------------------------------------------------------------------
// Lines and tokens
// ---------------------------------------------------------------------------

/// The index of the first line feed, or the length if there is none.
pub open spec fn nl_pos(b: Seq<u8>) -> nat
    decreases b.len(),
{
    if b.len() == 0 {
        0
    } else if b[0] == 10 {
        0
    } else {
        (1 + nl_pos(b.drop_first())) as nat
    }
}

proof fn lemma_nl_pos(b: Seq<u8>, n: int)
    requires
        0 <= n <= b.len(),
        forall|k: int| 0 <= k < n ==> b[k] != 10,
        n == b.len() || b[n] == 10,
    ensures
        nl_pos(b) == n,
    decreases n,
{
    if n == 0 {
    } else {
        lemma_nl_pos(b.drop_first(), n - 1);
    }
}

/// A line with one trailing carriage return removed, as `str::lines` does.
pub open spec fn chop_cr(l: Seq<u8>) -> Seq<u8> {
    if l.len() > 0 && l.last() == 13 {
        l.drop_last()
    } else {
        l
    }
}

/// The lines of a byte buffer, split at line feeds with one trailing
/// carriage return removed from each, as `str::lines` yields them.
pub open spec fn req_lines(b: Seq<u8>) -> Seq<Seq<u8>>
    decreases b.len(),
{
    if b.len() == 0 {
        Seq::empty()
    } else {
        let n = nl_pos(b);
        if n >= b.len() {
            seq![chop_cr(b)]
        } else {
            seq![chop_cr(b.take(n as int))] + req_lines(b.skip(n as int + 1))
        }
    }
}

/// Split a buffer into lines.
#[verifier::loop_isolation(false)]
pub fn split_lines(b: &[u8]) -> (r: Vec<Vec<u8>>)
    ensures
        views_of(r@) == req_lines(b@),
{
    let mut out: Vec<Vec<u8>> = Vec::new();
    let mut pos: usize = 0;
    proof {
        assert(b@.skip(0) =~= b@);
        assert(views_of(out@) + req_lines(b@) =~= req_lines(b@));
    }
    while pos < b.len()
        invariant
            pos <= b.len(),
            req_lines(b@) == views_of(out@) + req_lines(b@.skip(pos as int)),
        decreases b.len() - pos,
    {
        let ghost rest = b@.skip(pos as int);
        let mut e: usize = pos;
        while e < b.len() && b[e] != 10
            invariant
                pos <= e <= b.len(),
                forall|k: int| pos <= k < e ==> b@[k] != 10,
            decreases b.len() - e,
        {
            e = e + 1;
        }
        proof {
            lemma_nl_pos(rest, e - pos);
        }
        let line: &[u8] = if e > pos && b[e - 1] == 13 {
            &b[pos..e - 1]
        } else {
            &b[pos..e]
        };
        proof {
            assert(rest.take(e - pos) =~= b@.subrange(pos as int, e as int));
            if e > pos && b@[e - 1] == 13 {
                assert(chop_cr(rest.take(e - pos)) =~= b@.subrange(pos as int, e - 1));
            }
            if e >= b.len() {
                assert(rest.take(e - pos) =~= rest);
            }
        }
        out.push(slice_to_vec(line));
        let ghost old_pos = pos as int;
        if e == b.len() {
            pos = e;
            proof {
                assert(req_lines(rest) =~= seq![chop_cr(rest)]);
                assert(b@.skip(pos as int) =~= Seq::<u8>::empty());
                assert(views_of(out@) =~= views_of(out@.drop_last()) + seq![chop_cr(rest)]);
                assert(req_lines(b@) == views_of(out@) + req_lines(b@.skip(pos as int)));
            }
        } else {
            pos = e + 1;
            proof {
                assert(req_lines(rest) =~= seq![chop_cr(rest.take(e - old_pos))] + req_lines(
                    rest.skip(e - old_pos + 1),
                ));
                assert(rest.skip(e - old_pos + 1) =~= b@.skip(pos as int));
                assert(views_of(out@) =~= views_of(out@.drop_last()) + seq![chop_cr(
                    rest.take(e - old_pos),
                )]);
                assert(req_lines(b@) == views_of(out@) + req_lines(b@.skip(pos as int)));
            }
        }
    }
    assert(b@.skip(pos as int) =~= Seq::<u8>::empty());
    assert(views_of(out@) + req_lines(Seq::<u8>::empty()) =~= views_of(out@));
    out
}

/// The index of the first ASCII whitespace byte, or the length.
pub open spec fn ws_pos(b: Seq<u8>) -> nat
    decreases b.len(),
{
    if b.len() == 0 {
        0
    } else if is_ascii_space(b[0]) {
        0
    } else {
        (1 + ws_pos(b.drop_first())) as nat
    }
}

proof fn lemma_ws_pos(b: Seq<u8>, n: int)
    requires
        0 <= n <= b.len(),
        forall|k: int| 0 <= k < n ==> !is_ascii_space(b[k]),
        n == b.len() || is_ascii_space(b[n]),
    ensures
        ws_pos(b) == n,
    decreases n,
{
    if n > 0 {
        lemma_ws_pos(b.drop_first(), n - 1);
    }
}

/// The whitespace-separated tokens of a line, as `str::split_whitespace`
/// yields them: maximal nonempty runs of non-whitespace bytes.
pub open spec fn ws_tokens(l: Seq<u8>) -> Seq<Seq<u8>>
    decreases l.len(),
{
    if l.len() == 0 {
        Seq::empty()
    } else if is_ascii_space(l[0]) {
        ws_tokens(l.drop_first())
    } else {
        let t = ws_pos(l);
        if t > l.len() {
            Seq::empty()
        } else {
            seq![l.take(t as int)] + ws_tokens(l.skip(t as int))
        }
    }
}

/// Split a line into whitespace-separated tokens.
#[verifier::loop_isolation(false)]
pub fn split_ws(l: &[u8]) -> (r: Vec<Vec<u8>>)
    ensures
        views_of(r@) == ws_tokens(l@),
{
    let mut out: Vec<Vec<u8>> = Vec::new();
    let mut pos: usize = 0;
    proof {
        assert(l@.skip(0) =~= l@);
        assert(views_of(out@) + ws_tokens(l@) =~= ws_tokens(l@));
    }
    while pos < l.len()
        invariant
            pos <= l.len(),
            ws_tokens(l@) == views_of(out@) + ws_tokens(l@.skip(pos as int)),
        decreases l.len() - pos,
    {
        let ghost rest = l@.skip(pos as int);
        if byte_is_space(l[pos]) {
            pos = pos + 1;
            proof {
                assert(rest.drop_first() =~= l@.skip(pos as int));
            }
        } else {
            let mut e: usize = pos;
            while e < l.len() && !byte_is_space(l[e])
                invariant
                    pos <= e <= l.len(),
                    forall|k: int| pos <= k < e ==> !is_ascii_space(l@[k]),
                decreases l.len() - e,
            {
                e = e + 1;
            }
            proof {
                lemma_ws_pos(rest, e - pos);
                assert(rest.take(e - pos) =~= l@.subrange(pos as int, e as int));
            }
            out.push(slice_to_vec(&l[pos..e]));
            let ghost old_pos = pos as int;
            pos = e;
            proof {
                assert(rest.skip(e - old_pos) =~= l@.skip(pos as int));
                assert(views_of(out@) =~= views_of(out@.drop_last()) + seq![rest.take(
                    e - old_pos,
                )]);
                assert(ws_tokens(l@) == views_of(out@) + ws_tokens(l@.skip(pos as int)));
            }
        }
    }
    assert(l@.skip(pos as int) =~= Seq::<u8>::empty());
    assert(views_of(out@) + ws_tokens(Seq::<u8>::empty()) =~= views_of(out@));
    out
}

// ---------------------------------------------------------------------------
// Header lines
// ---------------------------------------------------------------------------

/// The index of the first colon, or the length if there is none.
pub open spec fn colon_pos(l: Seq<u8>) -> nat
    decreases l.len(),
{
    if l.len() == 0 {
        0
    } else if l[0] == 58 {
        0
    } else {
        (1 + colon_pos(l.drop_first())) as nat
    }
}

proof fn lemma_colon_pos(l: Seq<u8>, n: int)
    requires
        0 <= n <= l.len(),
        forall|k: int| 0 <= k < n ==> l[k] != 58,
        n == l.len() || l[n] == 58,
    ensures
        colon_pos(l) == n,
    decreases n,
{
    if n > 0 {
        lemma_colon_pos(l.drop_first(), n - 1);
    }
}

/// One header line applied to a header map: the part before the first
/// colon, trimmed and folded, maps to the part after it, trimmed; a line
/// without a colon changes nothing.
pub open spec fn header_step(m: Map<Seq<u8>, Seq<char>>, line: Seq<u8>) -> Map<Seq<u8>, Seq<char>> {
    let c = colon_pos(line);
    if c < line.len() {
        m.insert(
            lower_bytes(trim_bytes(line.take(c as int))),
            lossy_utf8_of(trim_bytes(line.skip(c as int + 1))),
        )
    } else {
        m
    }
}

/// The header map after the lines with indices in `[1, i)`.
pub open spec fn headers_upto(lines: Seq<Seq<u8>>, i: int) -> Map<Seq<u8>, Seq<char>>
    decreases i,
{
    if i <= 1 {
        Map::empty()
    } else {
        header_step(headers_upto(lines, i - 1), lines[i - 1])
    }
}

/// The index of the first empty line at or after `i`, or the line count.
pub open spec fn hdr_end(lines: Seq<Seq<u8>>, i: int) -> int
    decreases lines.len() - i,
{
    if i < 0 || i >= lines.len() {
        i
    } else if lines[i].len() == 0 {
        i
    } else {
        hdr_end(lines, i + 1)
    }
}

/// The header map of a request: its lines after the first, up to the
/// first blank line.
pub open spec fn headers_of(lines: Seq<Seq<u8>>) -> Map<Seq<u8>, Seq<char>> {
    headers_upto(lines, hdr_end(lines, 1))
}

proof fn lemma_hdr_end(lines: Seq<Seq<u8>>, j: int, i: int)
    requires
        1 <= j <= i <= lines.len(),
        forall|k: int| j <= k < i ==> lines[k].len() != 0,
        i == lines.len() || lines[i].len() == 0,
    ensures
        hdr_end(lines, j) == i,
    decreases i - j,
{
    if j < i {
        lemma_hdr_end(lines, j + 1, i);
    }
}

/// Parsed header maps hold case-folded keys only: every key of the map a
/// request's lines produce is its own fold, so a lookup under the fold of
/// any spelling of a header name reaches the header's value.
pub proof fn lemma_parsed_keys_folded(lines: Seq<Seq<u8>>, i: int)
    ensures
        forall|k: Seq<u8>| #[trigger] headers_upto(lines, i).contains_key(k)
            ==> k == lower_bytes(k),
    decreases i,
{
    if i <= 1 {
    } else {
        lemma_parsed_keys_folded(lines, i - 1);
        let line = lines[i - 1];
        let c = colon_pos(line);
        if c < line.len() {
            crate::text::lemma_lower_idempotent(trim_bytes(line.take(c as int)));
        }
        assert forall|k: Seq<u8>| #[trigger] headers_upto(lines, i).contains_key(k)
            implies k == lower_bytes(k) by {
            let m = headers_upto(lines, i - 1);
            if c < line.len() {
                let kk = lower_bytes(trim_bytes(line.take(c as int)));
                if k != kk {
                    assert(m.contains_key(k));
                }
            } else {
                assert(m.contains_key(k));
            }
        }
    }
}

// ---------------------------------------------------------------------------
// Requests
// ---------------------------------------------------------------------------

/// One parsed request: the request line, the folded header map, and the
/// body (empty until body framing supplies it).
#[derive(Debug)]
pub struct HttpRequest {
    pub method: HttpMethod,
    pub path: String,
    pub version: String,
    pub headers: HeaderMap,
    pub body: Vec<u8>,
}

/// What `HttpRequest::from_buffer_sync` returns for a buffer: the error the
/// buffer earns, or a request whose fields are the buffer's tokens.
pub open spec fn head_parse_matches(r: Result<HttpRequest, ServerError>, b: Seq<u8>) -> bool {
    let lines = req_lines(b);
    if lines.len() == 0 {
        r matches Err(e) && (e matches ServerError::InvalidHttpRequest(m) && m@
            == "Empty request"@)
    } else {
        let toks = ws_tokens(lines[0]);
        if toks.len() != 3 {
            r matches Err(e) && (e matches ServerError::InvalidHttpRequest(m) && m@
                == "Invalid request line"@)
        } else {
            match method_of(toks[0]) {
                Option::None => r matches Err(e) && (e matches ServerError::InvalidHttpRequest(m)
                    && m@ == "Unsupported HTTP method"@),
                Option::Some(meth) => r matches Ok(req) && req.method == meth && req.path@
                    == lossy_utf8_of(toks[1]) && req.version@ == lossy_utf8_of(toks[2])
                    && req.headers@ == headers_of(lines) && req.headers.wf() && req.body@
                    == Seq::<u8>::empty(),
            }
        }
    }
}

impl HttpRequest {
    /// Parse the request line and headers of a complete header block
    /// (no body is read; `body` is left empty).
    #[verifier::loop_isolation(false)]
    #[verifier::rlimit(60)]
    pub fn from_buffer_sync(buffer: &[u8]) -> (r: Result<Self, ServerError>)
        ensures
            head_parse_matches(r, buffer@),
    {
        let ghost lspec = req_lines(buffer@);
        let lines = split_lines(buffer);
        if lines.len() == 0 {
            return Err(ServerError::InvalidHttpRequest("Empty request"));
        }
        assert(lines@[0]@ == lspec[0]);
        let parts = split_ws(lines[0].as_slice());
        if parts.len() != 3 {
            return Err(ServerError::InvalidHttpRequest("Invalid request line"));
        }
        assert(parts@[0]@ == ws_tokens(lspec[0])[0]);
        assert(parts@[1]@ == ws_tokens(lspec[0])[1]);
        assert(parts@[2]@ == ws_tokens(lspec[0])[2]);
        let method = match HttpMethod::from_token(parts[0].as_slice()) {
            Ok(m) => m,
            Err(e) => {
                return Err(e);
            },
        };
        let path = lossy_to_string(parts[1].as_slice());
        let version = lossy_to_string(parts[2].as_slice());

        let mut headers = HeaderMap::new();
        let mut i: usize = 1;
        while i < lines.len() && lines[i].len() != 0
            invariant
                1 <= i <= lines@.len(),
                headers.wf(),
                headers@ == headers_upto(lspec, i as int),
                forall|k: int| 1 <= k < i ==> lspec[k].len() != 0,
            decreases lines.len() - i,
        {
            let line = lines[i].as_slice();
            assert(line@ == lspec[i as int]);
            let mut c: usize = 0;
            while c < line.len() && line[c] != 58
                invariant
                    c <= line@.len(),
                    forall|k: int| 0 <= k < c ==> line@[k] != 58,
                decreases line.len() - c,
            {
                c = c + 1;
            }
            proof {
                lemma_colon_pos(line@, c as int);
            }
            if c < line.len() {
                let key_part = trim_slice(&line[0..c]);
                let val_part = trim_slice(&line[c + 1..line.len()]);
                proof {
                    assert(line@.subrange(0, c as int) =~= line@.take(c as int));
                    assert(line@.subrange(c + 1, line@.len() as int) =~= line@.skip(c + 1));
                }
                headers.insert_folded(key_part, lossy_to_string(val_part));
            }
            i = i + 1;
        }
        proof {
            if i < lines@.len() {
                lemma_hdr_end(lspec, 1, i as int);
            } else {
                lemma_hdr_end(lspec, 1, lspec.len() as int);
            }
        }
        Ok(HttpRequest { method, path, version, headers, body: Vec::new() })
    }

    /// Look a header up by name, case-insensitively.
    pub fn get_header(&self, name: &str) -> (r: Option<&String>)
        requires
            self.headers.wf(),
        ensures
            r matches Some(v) ==> self.headers@.contains_key(header_key(name)) && v@
                == self.headers@[header_key(name)],
            r is None ==> !self.headers@.contains_key(header_key(name)),
    {
        self.headers.get(name)
    }
}

// ---------------------------------------------------------------------------
// Body framing
// ---------------------------------------------------------------------------

/// How the body of a request is framed.
#[derive(Debug, Clone, Copy, PartialEq, Eq, Structural)]
pub enum BodyPlan {
    /// Read exactly this many bytes.
    Sized(usize),
    /// Decode chunked transfer framing.
    Chunked,
    /// There is no body to read.
    Empty,
}

/// What `body_plan` decides for a header map: a content length wins and is
/// bounded, chunked transfer-encoding is recognized, anything else means
/// an empty body.
pub open spec fn body_plan_matches(
    r: Result<BodyPlan, ServerError>,
    h: Map<Seq<u8>, Seq<char>>,
) -> bool {
    if h.contains_key(header_key("content-length")) {
        let v = vstd::utf8::encode_utf8(h[header_key("content-length")]);
        if !(dec_numeral_ok(v) && dec_val(numeral_digits(v)) <= usize::MAX) {
            r matches Err(e) && (e matches ServerError::InvalidHttpRequest(m) && m@
                == "Invalid Content-Length"@)
        } else if dec_val(numeral_digits(v)) > MAX_BODY_BYTES {
            r matches Err(e) && (e matches ServerError::InvalidHttpRequest(m) && m@
                == "Body too large"@)
        } else {
            r matches Ok(p) && p == BodyPlan::Sized(dec_val(numeral_digits(v)) as usize)
        }
    } else if h.contains_key(header_key("transfer-encoding")) {
        if contains_seq(
            lower_bytes(vstd::utf8::encode_utf8(h[header_key("transfer-encoding")])),
            lower_bytes("chunked".spec_bytes()),
        ) {
            r matches Ok(p) && p == BodyPlan::Chunked
        } else {
            r matches Ok(p) && p == BodyPlan::Empty
        }
    } else {
        r matches Ok(p) && p == BodyPlan::Empty
    }
}

/// Decide how a request's body is framed, from its headers: an explicit
/// `content-length` (rejected above `MAX_BODY_BYTES` or malformed), a
/// chunked `transfer-encoding`, or nothing.
pub fn body_plan(headers: &HeaderMap) -> (r: Result<BodyPlan, ServerError>)
    requires
        headers.wf(),
    ensures
        body_plan_matches(r, headers@),
{
    match headers.get("content-length") {
        Some(v) => {
            match parse_dec(v.as_str().as_bytes()) {
                Some(n) => {
                    if n > MAX_BODY_BYTES {
                        Err(ServerError::InvalidHttpRequest("Body too large"))
                    } else {
                        Ok(BodyPlan::Sized(n))
                    }
                },
                None => Err(ServerError::InvalidHttpRequest("Invalid Content-Length")),
            }
        },
        None => {
            match headers.get("transfer-encoding") {
                Some(v) => {
                    if contains_fold(v.as_str().as_bytes(), "chunked".as_bytes()) {
                        Ok(BodyPlan::Chunked)
                    } else {
                        Ok(BodyPlan::Empty)
                    }
                },
                None => Ok(BodyPlan::Empty),
            }
        },
    }
}

} // verus!
