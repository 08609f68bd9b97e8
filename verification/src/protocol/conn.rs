//! Per-connection orchestration decisions: finding the end of a header
//! block in an accumulating buffer, holding the buffer to its cap, and
//! the keep-alive choice after a response.

use vstd::prelude::*;
use vstd::string::StringSliceAdditionalSpecFns;
use crate::protocol::headers::header_key;
use crate::protocol::request::HttpRequest;
use crate::text::{lower_bytes, bytes_eq_fold};

verus! {

/// The most header bytes a connection may accumulate before the header
/// terminator arrives; beyond it the connection is rejected.
pub const MAX_HEADER_BYTES: usize = 16384;

/// The index of the first CRLFCRLF, or the length if there is none.
pub open spec fn header_end_pos(b: Seq<u8>) -> nat
    decreases b.len(),
{
    if b.len() < 4 {
        b.len()
    } else if b[0] == 13 && b[1] == 10 && b[2] == 13 && b[3] == 10 {
        0
    } else {
        (1 + header_end_pos(b.drop_first())) as nat
    }
}

proof fn lemma_header_end_found(b: Seq<u8>, n: int)
    requires
        0 <= n,
        n + 4 <= b.len(),
        b[n] == 13 && b[n + 1] == 10 && b[n + 2] == 13 && b[n + 3] == 10,
        forall|k: int|
            #![trigger b[k]]
            0 <= k < n ==> !(b[k] == 13 && b[k + 1] == 10 && b[k + 2] == 13 && b[k + 3] == 10),
    ensures
        header_end_pos(b) == n,
    decreases n,
{
    if n > 0 {
        lemma_header_end_found(b.drop_first(), n - 1);
    }
}

proof fn lemma_header_end_absent(b: Seq<u8>)
    requires
        forall|k: int|
            #![trigger b[k]]
            0 <= k && k + 4 <= b.len() ==> !(b[k] == 13 && b[k + 1] == 10 && b[k + 2] == 13
                && b[k + 3] == 10),
    ensures
        header_end_pos(b) == b.len(),
    decreases b.len(),
{
    if b.len() >= 4 {
        lemma_header_end_absent(b.drop_first());
    }
}

/// Find the position just after the first CRLFCRLF, if the buffer holds
/// a complete header block.
#[verifier::loop_isolation(false)]
pub fn find_header_end(buffer: &[u8]) -> (r: Option<usize>)
    ensures
        header_end_pos(buffer@) + 4 <= buffer@.len() ==> r == Some(
            (header_end_pos(buffer@) + 4) as usize,
        ),
        header_end_pos(buffer@) + 4 > buffer@.len() ==> r is None,
{
    let mut i: usize = 0;
    while buffer.len() >= 4 && i <= buffer.len() - 4 && !(buffer[i] == 13 && buffer[i + 1] == 10
        && buffer[i + 2] == 13 && buffer[i + 3] == 10)
        invariant
            i <= buffer.len(),
            forall|k: int|
                #![trigger buffer@[k]]
                0 <= k < i ==> !(buffer@[k] == 13 && buffer@[k + 1] == 10 && buffer@[k + 2] == 13
                    && buffer@[k + 3] == 10),
        decreases buffer.len() - i,
    {
        i = i + 1;
    }
    if buffer.len() < 4 || i > buffer.len() - 4 {
        proof {
            lemma_header_end_absent(buffer@);
        }
        return None;
    }
    proof {
        lemma_header_end_found(buffer@, i as int);
    }
    Some(i + 4)
}

/// What one look at the accumulating buffer decides.
#[derive(Debug, Clone, Copy, PartialEq, Eq, Structural)]
pub enum HeaderScan {
    /// A complete header block ends at this position.
    Complete(usize),
    /// The buffer exceeds the cap without a terminator: reject.
    TooLarge,
    /// Keep reading.
    NeedMore,
}

/// Decide what to do with the accumulating header buffer: hand over a
/// complete header block, reject one that outgrew the cap, or read on.
pub fn scan_header_buffer(buffer: &[u8]) -> (r: HeaderScan)
    ensures
        header_end_pos(buffer@) + 4 <= buffer@.len() ==> r == HeaderScan::Complete(
            (header_end_pos(buffer@) + 4) as usize,
        ),
        header_end_pos(buffer@) + 4 > buffer@.len() && buffer@.len() > MAX_HEADER_BYTES ==> r
            == HeaderScan::TooLarge,
        header_end_pos(buffer@) + 4 > buffer@.len() && buffer@.len() <= MAX_HEADER_BYTES ==> r
            == HeaderScan::NeedMore,
{
    match find_header_end(buffer) {
        Some(end) => HeaderScan::Complete(end),
        None => {
            if buffer.len() > MAX_HEADER_BYTES {
                HeaderScan::TooLarge
            } else {
                HeaderScan::NeedMore
            }
        },
    }
}

/// Whether a request asks for the connection to be closed after its
/// response: a `connection` header that equals `close`, any ASCII case.
pub fn wants_close(request: &HttpRequest) -> (r: bool)
    requires
        request.headers.wf(),
    ensures
        r == (request.headers@.contains_key(header_key("connection")) && lower_bytes(
            vstd::utf8::encode_utf8(request.headers@[header_key("connection")]),
        ) == lower_bytes("close".spec_bytes())),
{
    match request.get_header("connection") {
        Some(v) => bytes_eq_fold(v.as_str().as_bytes(), "close".as_bytes()),
        None => false,
    }
}

} // verus!
