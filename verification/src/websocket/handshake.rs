//! The WebSocket upgrade: recognizing an upgrade request and deriving
//! the accept token from the client's nonce per RFC 6455.

use vstd::prelude::*;
use vstd::string::{StringExecFns, StringSliceAdditionalSpecFns};
use vstd::utf8::encode_utf8;
use crate::error::ServerError;
use crate::protocol::headers::header_key;
use crate::protocol::request::HttpRequest;
use crate::protocol::response::{HttpResponse, HttpStatusCode, spec_render};
use crate::text::{lower_bytes, bytes_eq, bytes_eq_fold, contains_seq, contains_fold};
use sha1::Digest;

verus! {

/// The fixed GUID RFC 6455 appends to the client's nonce.
pub const WEBSOCKET_MAGIC_STRING: &'static str = "258EAFA5-E914-47DA-95CA-C5AB0DC85B11";

// ---------------------------------------------------------------------------
// Upgrade recognition
// ---------------------------------------------------------------------------

/// A request asks for a WebSocket upgrade: `upgrade` equals `websocket`
/// case-insensitively, `connection` contains `upgrade` case-insensitively,
/// the protocol version is 13, and a key is present.
pub open spec fn wants_websocket(h: Map<Seq<u8>, Seq<char>>) -> bool {
    &&& h.contains_key(header_key("upgrade")) && lower_bytes(
        encode_utf8(h[header_key("upgrade")]),
    ) == lower_bytes("websocket".spec_bytes())
    &&& h.contains_key(header_key("connection")) && contains_seq(
        lower_bytes(encode_utf8(h[header_key("connection")])),
        lower_bytes("upgrade".spec_bytes()),
    )
    &&& h.contains_key(header_key("sec-websocket-version")) && encode_utf8(
        h[header_key("sec-websocket-version")],
    ) == "13".spec_bytes()
    &&& h.contains_key(header_key("sec-websocket-key"))
}

/// Decide whether a request is a WebSocket upgrade; on success hand back
/// the client's key for the handshake.
pub fn is_websocket_request<'a>(request: &'a HttpRequest) -> (r: Option<&'a String>)
    requires
        request.headers.wf(),
    ensures
        r is Some <==> wants_websocket(request.headers@),
        r matches Some(k) ==> k@ == request.headers@[header_key("sec-websocket-key")],
{
    let is_upgrade = match request.get_header("upgrade") {
        Some(v) => bytes_eq_fold(v.as_str().as_bytes(), "websocket".as_bytes()),
        None => false,
    };
    let is_connection_upgrade = match request.get_header("connection") {
        Some(v) => contains_fold(v.as_str().as_bytes(), "upgrade".as_bytes()),
        None => false,
    };
    let is_version_13 = match request.get_header("sec-websocket-version") {
        Some(v) => bytes_eq(v.as_str().as_bytes(), "13".as_bytes()),
        None => false,
    };
    let websocket_key = request.get_header("sec-websocket-key");

    if is_upgrade && is_connection_upgrade && is_version_13 {
        websocket_key
    } else {
        None
    }
}

// ---------------------------------------------------------------------------
// The accept token
// ---------------------------------------------------------------------------

/// The SHA-1 digest of a byte sequence; a pure function of the bytes.
pub uninterp spec fn sha1_of(data: Seq<u8>) -> Seq<u8>;

/// Relies on the sha1 crate's `Sha1::digest`: a pure function of the
/// input bytes producing the 20-byte SHA-1 digest.
#[verifier::external_body]
fn sha1_digest(data: &[u8]) -> (r: Vec<u8>)
    ensures
        r@ == sha1_of(data@),
        r@.len() == 20,
{
    sha1::Sha1::digest(data).to_vec()
}

/// The standard base64 encoding (with padding) of a byte sequence; a pure
/// function of the bytes.
pub uninterp spec fn base64_std_of(data: Seq<u8>) -> Seq<char>;

/// Relies on the base64 crate's `STANDARD` engine: a pure function of the
/// input bytes. The engine panics only when the encoded size overflows
/// `usize`, which the length bound rules out.
#[verifier::external_body]
fn base64_encode(data: &[u8]) -> (r: String)
    requires
        data@.len() <= 0x1000_0000,
    ensures
        r@ == base64_std_of(data@),
{
    base64::Engine::encode(&base64::engine::general_purpose::STANDARD, data)
}

/// The accept token derived from a client key: the base64 encoding of the
/// SHA-1 digest of the key followed by the protocol GUID.
pub open spec fn accept_token_of(key_bytes: Seq<u8>) -> Seq<char> {
    base64_std_of(sha1_of(key_bytes + "258EAFA5-E914-47DA-95CA-C5AB0DC85B11".spec_bytes()))
}

/// Derive the accept token for a client key.
pub fn generate_accept_key(websocket_key: &str) -> (r: String)
    ensures
        r@ == accept_token_of(websocket_key.spec_bytes()),
{
    let mut input: Vec<u8> = Vec::new();
    input.extend_from_slice(websocket_key.as_bytes());
    input.extend_from_slice(WEBSOCKET_MAGIC_STRING.as_bytes());
    assert(input@ =~= websocket_key.spec_bytes()
        + "258EAFA5-E914-47DA-95CA-C5AB0DC85B11".spec_bytes());
    let digest = sha1_digest(input.as_slice());
    base64_encode(digest.as_slice())
}

/// The header entries of the switching-protocols response that carries
/// an accept token.
pub open spec fn accept_entries(token: Seq<char>) -> Seq<(Seq<u8>, Seq<char>)> {
    seq![
        (header_key("upgrade"), "websocket"@),
        (header_key("connection"), "Upgrade"@),
        (header_key("sec-websocket-accept"), token),
    ]
}

/// Build the complete 101 Switching Protocols response for a client key:
/// the rendered bytes of a response carrying `upgrade`, `connection` and
/// the derived accept token, under the date the clock gives.
pub fn generate_accept(websocket_key: &str) -> (r: Result<Vec<u8>, ServerError>)
    ensures
        r matches Ok(bytes) ==> exists|date: Seq<char>|
            bytes@ == spec_render(
                HttpStatusCode::SwitchingProtocols,
                accept_entries(accept_token_of(websocket_key.spec_bytes())),
                true,
                Seq::<u8>::empty(),
                date,
            ),
        r is Ok,
{
    let accept_key = generate_accept_key(websocket_key);

    let response = HttpResponse::switching_protocols().with_header(
        "upgrade",
        "websocket",
    ).with_header("connection", "Upgrade").with_header("sec-websocket-accept", accept_key.as_str());

    proof {
        lemma_accept_entry_keys();
        assert(response.headers.spec_entries() =~= accept_entries(
            accept_token_of(websocket_key.spec_bytes()),
        ));
    }
    Ok(response.to_bytes())
}

/// The three accept-response header names are pairwise distinct keys
/// (they differ already in length).
proof fn lemma_accept_entry_keys()
    ensures
        header_key("upgrade") != header_key("connection"),
        header_key("upgrade") != header_key("sec-websocket-accept"),
        header_key("connection") != header_key("sec-websocket-accept"),
{
    reveal_strlit("upgrade");
    reveal_strlit("connection");
    reveal_strlit("sec-websocket-accept");
    lemma_ascii_key("upgrade");
    lemma_ascii_key("connection");
    lemma_ascii_key("sec-websocket-accept");
}

/// For an ASCII name, the lookup key has the name's length.
proof fn lemma_ascii_key(name: &str)
    requires
        vstd::utf8::is_ascii_chars(name@),
    ensures
        header_key(name).len() == name@.len(),
{
    vstd::utf8::is_ascii_chars_encode_utf8(name@);
}

} // verus!
