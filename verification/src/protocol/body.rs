//! Chunked transfer decoding: hex-sized chunks, each followed by CRLF,
//! ended by a zero-sized chunk. The decoder consumes the front of an
//! accumulated buffer and reports when it needs more bytes, so a caller
//! can feed it a stream read piece by piece.

use vstd::prelude::*;
use crate::error::ServerError;
use crate::protocol::request::MAX_BODY_BYTES;
use crate::text::{
    trim_bytes, trim_slice, hex_numeral_ok, hex_val, numeral_digits, parse_hex,
};

verus! {

/// The longest a chunk-size line may grow (bytes before its CRLF arrives)
/// before the stream is rejected; a guard against unbounded reads.
pub const MAX_SIZE_LINE_BYTES: usize = 20;

// ---------------------------------------------------------------------------
// Scanning specifications
// ---------------------------------------------------------------------------

/// The index of the first CRLF pair, or the length if there is none.
pub open spec fn crlf_pos(b: Seq<u8>) -> nat
    decreases b.len(),
{
    if b.len() < 2 {
        b.len()
    } else if b[0] == 13 && b[1] == 10 {
        0
    } else {
        (1 + crlf_pos(b.drop_first())) as nat
    }
}

proof fn lemma_crlf_pos_found(b: Seq<u8>, n: int)
    requires
        0 <= n,
        n + 2 <= b.len(),
        b[n] == 13 && b[n + 1] == 10,
        forall|k: int|
            #![trigger b[k]]
            0 <= k < n ==> !(b[k] == 13 && b[k + 1] == 10),
    ensures
        crlf_pos(b) == n,
    decreases n,
{
    if n > 0 {
        lemma_crlf_pos_found(b.drop_first(), n - 1);
    }
}

proof fn lemma_crlf_pos_absent(b: Seq<u8>)
    requires
        forall|k: int|
            #![trigger b[k]]
            0 <= k && k + 2 <= b.len() ==> !(b[k] == 13 && b[k + 1] == 10),
    ensures
        crlf_pos(b) == b.len(),
    decreases b.len(),
{
    if b.len() >= 2 {
        lemma_crlf_pos_absent(b.drop_first());
    }
}

/// The index of the first semicolon, or the length if there is none.
pub open spec fn semi_pos(b: Seq<u8>) -> nat
    decreases b.len(),
{
    if b.len() == 0 {
        0
    } else if b[0] == 59 {
        0
    } else {
        (1 + semi_pos(b.drop_first())) as nat
    }
}

proof fn lemma_semi_pos(b: Seq<u8>, n: int)
    requires
        0 <= n <= b.len(),
        forall|k: int| 0 <= k < n ==> b[k] != 59,
        n == b.len() || b[n] == 59,
    ensures
        semi_pos(b) == n,
    decreases n,
{
    if n > 0 {
        lemma_semi_pos(b.drop_first(), n - 1);
    }
}

/// The hex numeral of a size line: the part before any `;`-delimited
/// chunk extension, trimmed of surrounding whitespace.
pub open spec fn size_numeral(line: Seq<u8>) -> Seq<u8> {
    if semi_pos(line) < line.len() {
        trim_bytes(line.take(semi_pos(line) as int))
    } else {
        trim_bytes(line)
    }
}

// ---------------------------------------------------------------------------
// The decoding specification
// ---------------------------------------------------------------------------

/// What decoding chunked framing from the front of a buffer yields.
pub enum ChunkedModel {
    /// The whole body, and how many bytes of the buffer it occupied.
    Complete(Seq<u8>, int),
    /// The buffer ends before the framing does.
    NeedMore,
    /// The framing is invalid, with the message that rejects it.
    Bad(Seq<char>),
}

/// Decode chunked framing from the front of `b`, with `prior` bytes of
/// body already accumulated toward the size cap. Each step reads a
/// hex-sized line (rejected if its CRLF has not arrived within
/// `MAX_SIZE_LINE_BYTES` bytes), then that many payload bytes and a CRLF
/// whose two positions are skipped unchecked, as the stream reader skips
/// them; a zero size ends the body after one further two-byte skip.
pub open spec fn spec_chunked(b: Seq<u8>, prior: nat) -> ChunkedModel
    decreases b.len(),
{
    let p = crlf_pos(b);
    if p + 2 <= b.len() {
        if p > MAX_SIZE_LINE_BYTES - 1 {
            ChunkedModel::Bad("Invalid chunk size"@)
        } else {
            let num = size_numeral(b.take(p as int));
            if !(hex_numeral_ok(num) && hex_val(numeral_digits(num)) <= usize::MAX) {
                ChunkedModel::Bad("Invalid chunk size"@)
            } else {
                let size = hex_val(numeral_digits(num));
                if size == 0 {
                    if b.len() >= p + 4 {
                        ChunkedModel::Complete(Seq::empty(), p as int + 4)
                    } else {
                        ChunkedModel::NeedMore
                    }
                } else if prior + size > MAX_BODY_BYTES {
                    ChunkedModel::Bad("Chunked body too large"@)
                } else if b.len() >= p + 2 + size + 2 {
                    let data = b.subrange(p as int + 2, p as int + 2 + size as int);
                    match spec_chunked(
                        b.skip(p as int + 2 + size as int + 2),
                        (prior + size) as nat,
                    ) {
                        ChunkedModel::Complete(tail, used) => ChunkedModel::Complete(
                            data + tail,
                            p as int + 4 + size as int + used,
                        ),
                        ChunkedModel::NeedMore => ChunkedModel::NeedMore,
                        ChunkedModel::Bad(m) => ChunkedModel::Bad(m),
                    }
                } else {
                    ChunkedModel::NeedMore
                }
            }
        }
    } else {
        if b.len() > MAX_SIZE_LINE_BYTES {
            ChunkedModel::Bad("Invalid chunk size"@)
        } else {
            ChunkedModel::NeedMore
        }
    }
}

/// How one decoding step composes with what is already decoded: `whole`
/// is the verdict on the full buffer, `done` and `pos` what the decoder
/// holds after consuming `pos` bytes, `tail` the verdict on the rest.
pub open spec fn chunked_compose(
    whole: ChunkedModel,
    done: Seq<u8>,
    pos: int,
    tail: ChunkedModel,
) -> bool {
    match tail {
        ChunkedModel::Complete(tb, tc) => whole == ChunkedModel::Complete(done + tb, pos + tc),
        ChunkedModel::NeedMore => whole is NeedMore,
        ChunkedModel::Bad(m) => whole == ChunkedModel::Bad(m),
    }
}

// ---------------------------------------------------------------------------
// The decoder
// ---------------------------------------------------------------------------

/// A decoder's progress on a buffer.
#[derive(Debug)]
pub enum ChunkedResult {
    /// The whole body, and how many bytes of the buffer it occupied.
    Complete(Vec<u8>, usize),
    /// The buffer ends before the framing does: read more and retry.
    NeedMore,
}

/// A decoder's verdict agrees with `spec_chunked` on its input.
pub open spec fn chunked_matches(r: Result<ChunkedResult, ServerError>, b: Seq<u8>) -> bool {
    match spec_chunked(b, 0) {
        ChunkedModel::Complete(body, used) => r matches Ok(cr) && (cr matches
            ChunkedResult::Complete(v, u) && v@ == body && u as int == used),
        ChunkedModel::NeedMore => r matches Ok(cr) && cr is NeedMore,
        ChunkedModel::Bad(m) => r matches Err(e) && (e matches ServerError::InvalidHttpRequest(
            msg,
        ) && msg@ == m),
    }
}

/// Decode a chunked body from the front of `b`. `NeedMore` means the
/// buffer holds a prefix of valid framing: append further stream bytes
/// and call again.
#[verifier::loop_isolation(false)]
#[verifier::rlimit(100)]
pub fn decode_chunked(b: &[u8]) -> (r: Result<ChunkedResult, ServerError>)
    ensures
        chunked_matches(r, b@),
{
    let mut body: Vec<u8> = Vec::new();
    let mut pos: usize = 0;
    proof {
        assert(b@.skip(0) =~= b@);
        assert(chunked_compose(
            spec_chunked(b@, 0),
            body@,
            0,
            spec_chunked(b@, 0),
        )) by {
            match spec_chunked(b@, 0) {
                ChunkedModel::Complete(tb, tc) => {
                    assert(body@ + tb =~= tb);
                },
                _ => {},
            }
        }
    }
    loop
        invariant
            pos <= b@.len(),
            body@.len() <= MAX_BODY_BYTES,
            chunked_compose(
                spec_chunked(b@, 0),
                body@,
                pos as int,
                spec_chunked(b@.skip(pos as int), body@.len() as nat),
            ),
        decreases b@.len() - pos,
    {
        let ghost rest = b@.skip(pos as int);
        let ghost prior = body@.len() as nat;

        // Find the CRLF that ends the size line.
        let mut q: usize = pos;
        while b.len() >= 2 && q <= b.len() - 2 && !(b[q] == 13 && b[q + 1] == 10)
            invariant
                pos <= q <= b.len(),
                forall|k: int|
                    #![trigger b@[k]]
                    pos <= k < q ==> !(b@[k] == 13 && b@[k + 1] == 10),
            decreases b.len() - q,
        {
            q = q + 1;
        }
        if b.len() < 2 || q > b.len() - 2 {
            // No terminator in the buffer yet.
            proof {
                lemma_crlf_pos_absent(rest);
            }
            if b.len() - pos > MAX_SIZE_LINE_BYTES {
                return Err(ServerError::InvalidHttpRequest("Invalid chunk size"));
            }
            return Ok(ChunkedResult::NeedMore);
        }
        proof {
            lemma_crlf_pos_found(rest, q - pos);
        }
        let p = q - pos;
        if p > MAX_SIZE_LINE_BYTES - 1 {
            return Err(ServerError::InvalidHttpRequest("Invalid chunk size"));
        }

        // The numeral: before any `;` extension, trimmed.
        let line = &b[pos..q];
        assert(line@ == rest.take(p as int));
        let mut sp: usize = 0;
        while sp < line.len() && line[sp] != 59
            invariant
                sp <= line@.len(),
                forall|k: int| 0 <= k < sp ==> line@[k] != 59,
            decreases line.len() - sp,
        {
            sp = sp + 1;
        }
        proof {
            lemma_semi_pos(line@, sp as int);
        }
        let num = trim_slice(&line[0..sp]);
        proof {
            assert(line@.subrange(0, sp as int) =~= line@.take(sp as int));
            if sp == line.len() {
                assert(line@.take(sp as int) =~= line@);
            }
            assert(num@ == size_numeral(rest.take(p as int)));
        }
        let size: usize = match parse_hex(num) {
            Some(n) => n,
            None => {
                return Err(ServerError::InvalidHttpRequest("Invalid chunk size"));
            },
        };

        if size == 0 {
            // Terminator chunk: skip its CRLF and the two trailer bytes.
            if b.len() - q >= 4 {
                assert(rest.len() >= p + 4);
                proof {
                    assert(body@ + Seq::<u8>::empty() =~= body@);
                }
                return Ok(ChunkedResult::Complete(body, q + 4));
            }
            return Ok(ChunkedResult::NeedMore);
        }
        if size > MAX_BODY_BYTES || body.len() > MAX_BODY_BYTES - size {
            return Err(ServerError::InvalidHttpRequest("Chunked body too large"));
        }
        if b.len() - (q + 2) < size + 2 {
            return Ok(ChunkedResult::NeedMore);
        }

        // The chunk's payload, then its trailing CRLF skipped unchecked.
        let ghost body0 = body@;
        body.extend_from_slice(&b[q + 2..q + 2 + size]);
        let ghost old_pos = pos as int;
        pos = q + 2 + size + 2;
        proof {
            let data = rest.subrange(p + 2, p + 2 + size as int);
            assert(b@.subrange(q + 2, q + 2 + size as int) =~= data);
            assert(rest.skip(p + 2 + size as int + 2) =~= b@.skip(pos as int));
            let tail = spec_chunked(b@.skip(pos as int), body@.len() as nat);
            match tail {
                ChunkedModel::Complete(tb, tc) => {
                    assert(spec_chunked(rest, prior) == ChunkedModel::Complete(
                        data + tb,
                        p + 4 + size + tc,
                    ));
                    assert(body0 + (data + tb) =~= body@ + tb);
                },
                ChunkedModel::NeedMore => {
                    assert(spec_chunked(rest, prior) is NeedMore);
                },
                ChunkedModel::Bad(m) => {
                    assert(spec_chunked(rest, prior) == ChunkedModel::Bad(m));
                },
            }
        }
    }
}

} // verus!
