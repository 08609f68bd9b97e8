//! The RFC 6455 frame codec: a byte-exact specification of the wire format,
//! an encoder and a decoder proved against it, and the laws that tie the two
//! together (round trip, masking symmetry, length thresholds, and the
//! rejection rules for malformed frames).

use vstd::prelude::*;
use vstd::utf8::{decode_utf8, encode_utf8, valid_utf8};
use vstd::utf8::{encode_utf8_valid_utf8, encode_utf8_decode_utf8};
use crate::text::{lossy_utf8_of, lossy_to_string, utf8_to_string};

verus! {

// ---------------------------------------------------------------------------
// Big-endian integers
// ---------------------------------------------------------------------------

/// 256 to the power `k`.
pub open spec fn pow256(k: nat) -> nat
    decreases k,
{
    if k == 0 {
        1
    } else {
        256 * pow256((k - 1) as nat)
    }
}

/// The `k`-byte big-endian spelling of `n` (low byte last).
pub open spec fn be_bytes(n: nat, k: nat) -> Seq<u8>
    decreases k,
{
    if k == 0 {
        Seq::empty()
    } else {
        be_bytes(n / 256, (k - 1) as nat) + seq![(n % 256) as u8]
    }
}

/// The value of a big-endian byte sequence.
pub open spec fn be_val(s: Seq<u8>) -> nat
    decreases s.len(),
{
    if s.len() == 0 {
        0
    } else {
        (be_val(s.drop_last()) * 256 + s.last()) as nat
    }
}

pub proof fn lemma_be_bytes_len(n: nat, k: nat)
    ensures
        be_bytes(n, k).len() == k,
    decreases k,
{
    if k > 0 {
        lemma_be_bytes_len(n / 256, (k - 1) as nat);
    }
}

/// Writing `n` in `k` bytes and reading it back gives `n`, provided it fits.
pub proof fn lemma_be_round_trip(n: nat, k: nat)
    requires
        n < pow256(k),
    ensures
        be_bytes(n, k).len() == k,
        be_val(be_bytes(n, k)) == n,
    decreases k,
{
    lemma_be_bytes_len(n, k);
    if k == 0 {
    } else {
        assert(n / 256 < pow256((k - 1) as nat)) by (nonlinear_arith)
            requires
                n < pow256(k),
                pow256(k) == 256 * pow256((k - 1) as nat),
        ;
        lemma_be_round_trip(n / 256, (k - 1) as nat);
        let s = be_bytes(n, k);
        assert(s.drop_last() =~= be_bytes(n / 256, (k - 1) as nat));
        assert(s.last() == (n % 256) as u8);
    }
}

pub proof fn lemma_be_val_bound(s: Seq<u8>)
    ensures
        be_val(s) < pow256(s.len()),
    decreases s.len(),
{
    if s.len() > 0 {
        lemma_be_val_bound(s.drop_last());
        assert(be_val(s.drop_last()) * 256 + 255 < pow256(s.len())) by (nonlinear_arith)
            requires
                be_val(s.drop_last()) < pow256((s.len() - 1) as nat),
                pow256(s.len()) == 256 * pow256((s.len() - 1) as nat),
        ;
    }
}

proof fn lemma_be_val_push(s: Seq<u8>, b: u8)
    ensures
        be_val(s + seq![b]) == be_val(s) * 256 + b,
{
    assert((s + seq![b]).drop_last() =~= s);
    assert((s + seq![b]).last() == b);
}

/// Read `k` big-endian bytes starting at `off`.
#[verifier::loop_isolation(false)]
fn read_be(data: &[u8], off: usize, k: usize) -> (r: u64)
    requires
        k <= 8,
        off + k <= data@.len(),
    ensures
        r as nat == be_val(data@.subrange(off as int, off as int + k as int)),
{
    proof {
        reveal_with_fuel(pow256, 10);
    }
    let _n: usize = data.len();
    let mut acc: u64 = 0;
    let mut i: usize = 0;
    while i < k
        invariant
            i <= k,
            acc as nat == be_val(data@.subrange(off as int, off as int + i as int)),
            (acc as nat) < pow256(i as nat),
        decreases k - i,
    {
        proof {
            let pre = data@.subrange(off as int, off as int + i as int);
            lemma_be_val_push(pre, data@[off + i]);
            assert(pre + seq![data@[off + i]]
                =~= data@.subrange(off as int, off as int + i as int + 1));
            assert(acc as nat * 256 + 256 <= pow256((i + 1) as nat)) by (nonlinear_arith)
                requires
                    (acc as nat) < pow256(i as nat),
                    pow256((i + 1) as nat) == 256 * pow256(i as nat),
            ;
            assert(pow256(8) == 0x1_0000_0000_0000_0000);
            lemma_pow256_mono((i + 1) as nat, 8);
        }
        acc = acc * 256 + (data[off + i] as u64);
        i = i + 1;
    }
    acc
}

proof fn lemma_pow256_mono(a: nat, b: nat)
    requires
        a <= b,
    ensures
        pow256(a) <= pow256(b),
    decreases b,
{
    if a < b {
        lemma_pow256_mono(a, (b - 1) as nat);
        assert(pow256(b) == 256 * pow256((b - 1) as nat));
        assert(256 * pow256((b - 1) as nat) >= pow256((b - 1) as nat)) by (nonlinear_arith);
    }
}

/// Append the `k`-byte big-endian spelling of `v`.
fn push_be(out: &mut Vec<u8>, v: u64, k: usize)
    ensures
        final(out)@ == old(out)@ + be_bytes(v as nat, k as nat),
    decreases k,
{
    if k == 0 {
        assert(old(out)@ + be_bytes(v as nat, 0) =~= old(out)@);
    } else {
        push_be(out, v / 256, k - 1);
        out.push((v % 256) as u8);
        assert(final(out)@ =~= old(out)@ + be_bytes(v as nat, k as nat));
    }
}

// ---------------------------------------------------------------------------
// Opcodes
// ---------------------------------------------------------------------------

#[derive(Debug, Clone, Copy, PartialEq, Eq, Structural)]
pub enum OpCode {
    Continuation,
    Text,
    Binary,
    Close,
    Ping,
    Pong,
}

/// The opcode encoded in the low four bits of a frame's first byte;
/// unrecognized values count as `Close`.
pub open spec fn opcode_of_byte(b: u8) -> OpCode {
    let n = b & 0x0F;
    if n == 0x0 {
        OpCode::Continuation
    } else if n == 0x1 {
        OpCode::Text
    } else if n == 0x2 {
        OpCode::Binary
    } else if n == 0x9 {
        OpCode::Ping
    } else if n == 0xa {
        OpCode::Pong
    } else {
        OpCode::Close
    }
}

impl OpCode {
    /// Close, Ping and Pong are the control opcodes.
    pub open spec fn spec_is_control(self) -> bool {
        self is Close || self is Ping || self is Pong
    }

    pub fn is_control(&self) -> (r: bool)
        ensures
            r == self.spec_is_control(),
    {
        matches!(self, OpCode::Close | OpCode::Ping | OpCode::Pong)
    }

    /// The opcode named by the low four bits of `b`.
    pub fn from_byte(b: u8) -> (r: OpCode)
        ensures
            r == opcode_of_byte(b),
    {
        let n = b & 0x0F;
        if n == 0x0 {
            OpCode::Continuation
        } else if n == 0x1 {
            OpCode::Text
        } else if n == 0x2 {
            OpCode::Binary
        } else if n == 0x9 {
            OpCode::Ping
        } else if n == 0xa {
            OpCode::Pong
        } else {
            OpCode::Close
        }
    }
}

// ---------------------------------------------------------------------------
// Frames and their mathematical model
// ---------------------------------------------------------------------------

/// The mathematical value of a frame: payloads as sequences.
pub enum FrameModel {
    Text(Seq<char>),
    Binary(Seq<u8>),
    Close(Option<(u16, Seq<char>)>),
    Ping(Seq<u8>),
    Pong(Seq<u8>),
}

/// One decoded WebSocket frame.
#[derive(Debug, Clone)]
pub enum WebSocketFrame {
    Text(String),
    Binary(Vec<u8>),
    Close(Option<(u16, String)>),
    Ping(Vec<u8>),
    Pong(Vec<u8>),
}

impl View for WebSocketFrame {
    type V = FrameModel;

    open spec fn view(&self) -> FrameModel {
        match self {
            WebSocketFrame::Text(s) => FrameModel::Text(s@),
            WebSocketFrame::Binary(b) => FrameModel::Binary(b@),
            WebSocketFrame::Close(None) => FrameModel::Close(None),
            WebSocketFrame::Close(Some((c, r))) => FrameModel::Close(Some((*c, r@))),
            WebSocketFrame::Ping(b) => FrameModel::Ping(b@),
            WebSocketFrame::Pong(b) => FrameModel::Pong(b@),
        }
    }
}

/// Why a byte sequence failed to decode as one frame.
#[derive(Debug, Clone, Copy, PartialEq, Eq, Structural)]
pub enum ParseError {
    /// More bytes are needed; not fatal. Also reported for a continuation
    /// opcode, since fragment reassembly is unsupported.
    Incomplete,
    InvalidUtf8,
    ControlFrameTooLarge,
    UnmaskedClientFrame,
    InvalidCloseCode,
}

// ---------------------------------------------------------------------------
// Masking
// ---------------------------------------------------------------------------

/// Each payload byte XOR-ed with the key byte at its index modulo four.
pub open spec fn mask_seq(p: Seq<u8>, key: Seq<u8>) -> Seq<u8>
    recommends
        key.len() == 4,
{
    Seq::new(p.len(), |i: int| p[i] ^ key[i % 4])
}

/// Masking symmetry: masking twice with the same four-byte key gives back
/// the original payload, whatever its length.
pub proof fn lemma_mask_involution(p: Seq<u8>, key: Seq<u8>)
    requires
        key.len() == 4,
    ensures
        mask_seq(mask_seq(p, key), key) == p,
{
    assert forall|i: int| 0 <= i < p.len()
        implies mask_seq(mask_seq(p, key), key)[i] == p[i] by {
        let x = p[i];
        let k = key[i % 4];
        assert((x ^ k) ^ k == x) by (bit_vector);
    }
    assert(mask_seq(mask_seq(p, key), key) =~= p);
}

// ---------------------------------------------------------------------------
// Close codes
// ---------------------------------------------------------------------------

/// The close codes RFC 6455 permits on the wire: 1000-1003, 1007-1011,
/// and the registered/private ranges 3000-4999.
pub open spec fn close_code_ok(code: u16) -> bool {
    (1000 <= code && code <= 1003) || (1007 <= code && code <= 1011) || (3000 <= code && code
        <= 4999)
}

/// Validate a close code against the ranges RFC 6455 permits.
pub fn is_valid_close_code(code: u16) -> (r: bool)
    ensures
        r == close_code_ok(code),
{
    (1000 <= code && code <= 1003) || (1007 <= code && code <= 1011) || (3000 <= code && code
        <= 4999)
}

// ---------------------------------------------------------------------------
// The wire format, as a specification
// ---------------------------------------------------------------------------

/// The first length byte (before the mask bit is set): the literal length
/// below 126, or the marker for a 2- or 8-byte extended length.
pub open spec fn len_first_byte(n: nat) -> nat {
    if n < 126 {
        n
    } else if n < 65536 {
        126
    } else {
        127
    }
}

/// The extended-length bytes: none below 126, two up to 65535, eight beyond.
pub open spec fn ext_len_bytes(n: nat) -> Seq<u8> {
    if n < 126 {
        Seq::empty()
    } else if n < 65536 {
        be_bytes(n, 2)
    } else {
        be_bytes(n, 8)
    }
}

/// The unmasked length header for a payload of `n` bytes.
pub open spec fn len_header(n: nat) -> Seq<u8> {
    seq![len_first_byte(n) as u8] + ext_len_bytes(n)
}

/// The first byte of an encoded frame: FIN set, reserved bits clear,
/// and the frame's opcode.
pub open spec fn frame_first_byte(m: FrameModel) -> u8 {
    match m {
        FrameModel::Text(_) => 0x81,
        FrameModel::Binary(_) => 0x82,
        FrameModel::Close(_) => 0x88,
        FrameModel::Ping(_) => 0x89,
        FrameModel::Pong(_) => 0x8a,
    }
}

/// The payload bytes a frame carries: text as UTF-8, a close code in
/// big-endian before its UTF-8 reason, raw bytes otherwise.
pub open spec fn frame_payload(m: FrameModel) -> Seq<u8> {
    match m {
        FrameModel::Text(t) => encode_utf8(t),
        FrameModel::Binary(b) => b,
        FrameModel::Close(None) => Seq::empty(),
        FrameModel::Close(Some((c, r))) => be_bytes(c as nat, 2) + encode_utf8(r),
        FrameModel::Ping(p) => p,
        FrameModel::Pong(p) => p,
    }
}

/// The server-to-client encoding of a frame: FIN plus opcode, the length
/// header, then the raw, unmasked payload.
pub open spec fn spec_encode(m: FrameModel) -> Seq<u8> {
    seq![frame_first_byte(m)] + len_header(frame_payload(m).len()) + frame_payload(m)
}

/// Where the extended length ends, by the 7-bit length field.
pub open spec fn ext_len_end(len7: u8) -> int {
    if len7 == 126 {
        4
    } else if len7 == 127 {
        10
    } else {
        2
    }
}

/// The payload length a frame header announces.
pub open spec fn payload_len_of(data: Seq<u8>) -> nat
    recommends
        data.len() >= ext_len_end(data[1] & 0x7f),
{
    let len7 = data[1] & 0x7f;
    if len7 == 126 {
        be_val(data.subrange(2, 4))
    } else if len7 == 127 {
        be_val(data.subrange(2, 10))
    } else {
        len7 as nat
    }
}

/// What a decoded payload means, by opcode.
pub open spec fn spec_decode_payload(op: OpCode, payload: Seq<u8>, consumed: int) -> Result<
    (FrameModel, int),
    ParseError,
> {
    match op {
        OpCode::Text => if valid_utf8(payload) {
            Ok((FrameModel::Text(decode_utf8(payload)), consumed))
        } else {
            Err(ParseError::InvalidUtf8)
        },
        OpCode::Binary => Ok((FrameModel::Binary(payload), consumed)),
        OpCode::Ping => Ok((FrameModel::Ping(payload), consumed)),
        OpCode::Pong => Ok((FrameModel::Pong(payload), consumed)),
        OpCode::Continuation => Err(ParseError::Incomplete),
        OpCode::Close => if payload.len() >= 2 {
            let code = be_val(payload.subrange(0, 2)) as u16;
            if !close_code_ok(code) {
                Err(ParseError::InvalidCloseCode)
            } else {
                let reason = if payload.len() > 2 {
                    lossy_utf8_of(payload.subrange(2, payload.len() as int))
                } else {
                    Seq::<char>::empty()
                };
                Ok((FrameModel::Close(Some((code, reason))), consumed))
            }
        } else {
            Ok((FrameModel::Close(None), consumed))
        },
    }
}

/// Decoding one client-to-server frame from the front of `data`: either a
/// frame model and the number of bytes it occupies, or the reason it fails.
pub open spec fn spec_decode(data: Seq<u8>) -> Result<(FrameModel, int), ParseError> {
    if data.len() < 2 {
        Err(ParseError::Incomplete)
    } else {
        let op = opcode_of_byte(data[0]);
        if data[1] & 0x80 == 0 {
            Err(ParseError::UnmaskedClientFrame)
        } else {
            let hdr = ext_len_end(data[1] & 0x7f);
            if data.len() < hdr {
                Err(ParseError::Incomplete)
            } else {
                let plen = payload_len_of(data);
                if op.spec_is_control() && plen > 125 {
                    Err(ParseError::ControlFrameTooLarge)
                } else if data.len() < hdr + 4 {
                    Err(ParseError::Incomplete)
                } else {
                    let key = data.subrange(hdr, hdr + 4);
                    let pstart = hdr + 4;
                    if data.len() < pstart + plen {
                        Err(ParseError::Incomplete)
                    } else {
                        let payload = mask_seq(
                            data.subrange(pstart, pstart + plen as int),
                            key,
                        );
                        spec_decode_payload(op, payload, pstart + plen as int)
                    }
                }
            }
        }
    }
}

/// A decoder's verdict agrees with `spec_decode` on its input.
pub open spec fn decode_matches(
    r: Result<(WebSocketFrame, usize), ParseError>,
    data: Seq<u8>,
) -> bool {
    match r {
        Ok((frame, used)) => spec_decode(data) matches Ok(p) && p.0 == frame@ && p.1
            == used as int,
        Err(e) => spec_decode(data) matches Err(e2) && e == e2,
    }
}


impl WebSocketFrame {
    /// Parse one client-to-server frame from the front of `data`, returning
    /// the frame and how many bytes it occupied; the verdict agrees with
    /// `spec_decode` exactly, error for error.
    #[verifier::loop_isolation(false)]
    #[verifier::rlimit(60)]
    pub fn parse(data: &[u8]) -> (r: Result<(Self, usize), ParseError>)
        ensures
            decode_matches(r, data@),
    {
        proof {
            reveal_with_fuel(pow256, 10);
        }
        if data.len() < 2 {
            return Err(ParseError::Incomplete);
        }
        let first_byte = data[0];
        let opcode = OpCode::from_byte(first_byte);
        let second_byte = data[1];
        if second_byte & 0x80 == 0 {
            return Err(ParseError::UnmaskedClientFrame);
        }
        let len7 = second_byte & 0x7F;
        let hdr: usize;
        let plen64: u64;
        if len7 == 126 {
            if data.len() < 4 {
                return Err(ParseError::Incomplete);
            }
            plen64 = read_be(data, 2, 2);
            hdr = 4;
        } else if len7 == 127 {
            if data.len() < 10 {
                return Err(ParseError::Incomplete);
            }
            plen64 = read_be(data, 2, 8);
            hdr = 10;
        } else {
            plen64 = len7 as u64;
            hdr = 2;
        }
        assert(hdr as int == ext_len_end(data@[1] & 0x7f));
        assert(plen64 as nat == payload_len_of(data@));
        if opcode.is_control() && plen64 > 125 {
            return Err(ParseError::ControlFrameTooLarge);
        }
        if data.len() < hdr + 4 {
            return Err(ParseError::Incomplete);
        }
        let pstart = hdr + 4;
        if ((data.len() - pstart) as u64) < plen64 {
            return Err(ParseError::Incomplete);
        }
        let plen = plen64 as usize;
        let mut key: Vec<u8> = Vec::new();
        key.push(data[hdr]);
        key.push(data[hdr + 1]);
        key.push(data[hdr + 2]);
        key.push(data[hdr + 3]);
        assert(key@ =~= data@.subrange(hdr as int, hdr as int + 4));
        let ghost raw = data@.subrange(pstart as int, pstart as int + plen as int);
        let ghost kseq = key@;
        let mut payload: Vec<u8> = Vec::new();
        let mut i: usize = 0;
        while i < plen
            invariant
                i <= plen,
                payload@ =~= mask_seq(raw, kseq).take(i as int),
            decreases plen - i,
        {
            payload.push(data[pstart + i] ^ key[i % 4]);
            proof {
                assert(raw[i as int] == data@[pstart + i]);
                assert(payload@ =~= mask_seq(raw, kseq).take(i as int + 1));
            }
            i = i + 1;
        }
        assert(payload@ =~= mask_seq(raw, kseq));
        let consumed = pstart + plen;
        match opcode {
            OpCode::Text => {
                match utf8_to_string(payload) {
                    Some(text) => Ok((WebSocketFrame::Text(text), consumed)),
                    None => Err(ParseError::InvalidUtf8),
                }
            },
            OpCode::Binary => Ok((WebSocketFrame::Binary(payload), consumed)),
            OpCode::Ping => Ok((WebSocketFrame::Ping(payload), consumed)),
            OpCode::Pong => Ok((WebSocketFrame::Pong(payload), consumed)),
            OpCode::Continuation => Err(ParseError::Incomplete),
            OpCode::Close => {
                if payload.len() >= 2 {
                    proof {
                        lemma_be_val_bound(payload@.subrange(0, 2));
                    }
                    let code16 = read_be(payload.as_slice(), 0, 2) as u16;
                    if !is_valid_close_code(code16) {
                        return Err(ParseError::InvalidCloseCode);
                    }
                    let reason = if payload.len() > 2 {
                        lossy_to_string(&payload.as_slice()[2..payload.len()])
                    } else {
                        String::new()
                    };
                    Ok((WebSocketFrame::Close(Some((code16, reason))), consumed))
                } else {
                    Ok((WebSocketFrame::Close(None), consumed))
                }
            },
        }
    }

    /// Encode the frame for the server-to-client direction: FIN set,
    /// reserved bits clear, no masking.
    pub fn to_bytes(&self) -> (r: Vec<u8>)
        ensures
            r@ == spec_encode(self@),
    {
        let mut out: Vec<u8> = Vec::new();
        match self {
            WebSocketFrame::Text(text) => {
                write_frame(&mut out, 0x81, text.as_str().as_bytes());
                assert(out@ =~= spec_encode(self@));
            },
            WebSocketFrame::Binary(data) => {
                write_frame(&mut out, 0x82, data.as_slice());
                assert(out@ =~= spec_encode(self@));
            },
            WebSocketFrame::Close(opt) => {
                let mut payload: Vec<u8> = Vec::new();
                match opt {
                    Some((code, reason)) => {
                        push_be(&mut payload, *code as u64, 2);
                        payload.extend_from_slice(reason.as_str().as_bytes());
                    },
                    None => {},
                }
                assert(payload@ =~= frame_payload(self@));
                write_frame(&mut out, 0x88, payload.as_slice());
                assert(out@ =~= spec_encode(self@));
            },
            WebSocketFrame::Ping(data) => {
                write_frame(&mut out, 0x89, data.as_slice());
                assert(out@ =~= spec_encode(self@));
            },
            WebSocketFrame::Pong(data) => {
                write_frame(&mut out, 0x8a, data.as_slice());
                assert(out@ =~= spec_encode(self@));
            },
        }
        out
    }

    /// A Text frame carrying `content`.
    pub fn text(content: &str) -> (r: Self)
        ensures
            r@ == FrameModel::Text(content@),
    {
        WebSocketFrame::Text(content.to_owned())
    }

    /// A Binary frame carrying `data`.
    pub fn binary(data: Vec<u8>) -> (r: Self)
        ensures
            r@ == FrameModel::Binary(data@),
    {
        WebSocketFrame::Binary(data)
    }

    /// A Close frame without a code or reason.
    pub fn close() -> (r: Self)
        ensures
            r@ == FrameModel::Close(None),
    {
        WebSocketFrame::Close(None)
    }

    /// A Close frame with a code and reason.
    pub fn close_with_code(code: u16, reason: &str) -> (r: Self)
        ensures
            r@ == FrameModel::Close(Some((code, reason@))),
    {
        WebSocketFrame::Close(Some((code, reason.to_owned())))
    }

    /// A Ping frame carrying `data`.
    pub fn ping(data: Vec<u8>) -> (r: Self)
        ensures
            r@ == FrameModel::Ping(data@),
    {
        WebSocketFrame::Ping(data)
    }

    /// A Pong frame carrying `data`.
    pub fn pong(data: Vec<u8>) -> (r: Self)
        ensures
            r@ == FrameModel::Pong(data@),
    {
        WebSocketFrame::Pong(data)
    }
}

/// Append one encoded frame: the first byte, the length header for the
/// payload, then the payload itself.
fn write_frame(out: &mut Vec<u8>, first: u8, payload: &[u8])
    ensures
        final(out)@ == old(out)@ + seq![first] + len_header(payload@.len()) + payload@,
{
    out.push(first);
    let n = payload.len();
    if n < 126 {
        out.push(n as u8);
    } else if n < 65536 {
        out.push(126);
        push_be(out, n as u64, 2);
    } else {
        out.push(127);
        push_be(out, n as u64, 8);
    }
    out.extend_from_slice(payload);
    assert(out@ =~= old(out)@ + seq![first] + len_header(payload@.len()) + payload@);
}


// ---------------------------------------------------------------------------
// Laws of the codec
// ---------------------------------------------------------------------------

/// A frame whose bit is clear in the mask position is rejected as
/// `UnmaskedClientFrame`, whatever its opcode.
pub proof fn lemma_unmasked_rejected(data: Seq<u8>)
    requires
        data.len() >= 2,
        data[1] & 0x80 == 0,
    ensures
        spec_decode(data) == Err::<(FrameModel, int), ParseError>(ParseError::UnmaskedClientFrame),
{
}

/// A masked control frame whose announced payload exceeds 125 bytes is
/// rejected as `ControlFrameTooLarge`.
pub proof fn lemma_control_frame_too_large(data: Seq<u8>)
    requires
        data.len() >= 2,
        data[1] & 0x80 != 0,
        data.len() >= ext_len_end(data[1] & 0x7f),
        opcode_of_byte(data[0]).spec_is_control(),
        payload_len_of(data) > 125,
    ensures
        spec_decode(data) == Err::<(FrameModel, int), ParseError>(ParseError::ControlFrameTooLarge),
{
}

/// The width of the extended length field for a payload of `n` bytes:
/// none up to 125, two bytes up to 65535, eight bytes beyond.
pub open spec fn ext_len_width(n: nat) -> nat {
    if n < 126 {
        0
    } else if n < 65536 {
        2
    } else {
        8
    }
}

/// Length thresholds: an encoded frame is exactly its two header bytes,
/// the extended length field that its payload length selects, and the
/// payload itself.
pub proof fn lemma_encoded_len(m: FrameModel)
    ensures
        spec_encode(m).len() == 2 + ext_len_width(frame_payload(m).len())
            + frame_payload(m).len(),
{
    let n = frame_payload(m).len();
    if n >= 65536 {
        lemma_be_bytes_len(n, 8);
    } else if n >= 126 {
        lemma_be_bytes_len(n, 2);
    }
}

/// A frame value that the client-to-server direction can carry and give
/// back: a data frame within the format's 64-bit length bound, or a control
/// ping/pong within 125 bytes. (A Close round trip is not claimed: its
/// reason passes through a lossy text decoding.)
pub open spec fn round_trip_ok(m: FrameModel) -> bool {
    match m {
        FrameModel::Text(t) => encode_utf8(t).len() < pow256(8),
        FrameModel::Binary(b) => b.len() < pow256(8),
        FrameModel::Ping(p) => p.len() <= 125,
        FrameModel::Pong(p) => p.len() <= 125,
        FrameModel::Close(_) => false,
    }
}

/// The client-side masking convention applied to an encoded frame: the mask
/// bit set on the length byte, a four-byte key after the length header, and
/// the payload masked with that key.
pub open spec fn spec_encode_masked(m: FrameModel, key: Seq<u8>) -> Seq<u8>
    recommends
        key.len() == 4,
{
    let payload = frame_payload(m);
    let n = payload.len();
    seq![frame_first_byte(m), (len_first_byte(n) + 0x80) as u8] + ext_len_bytes(n) + key
        + mask_seq(payload, key)
}

/// Round trip: encoding a Text, Binary, Ping or Pong frame, masking it as a
/// client must, and decoding yields the same frame value and consumes
/// exactly the bytes of the masked encoding — four more than the unmasked
/// encoding, for the mask key.
#[verifier::rlimit(100)]
pub proof fn lemma_frame_round_trip(m: FrameModel, key: Seq<u8>)
    requires
        key.len() == 4,
        round_trip_ok(m),
    ensures
        spec_encode_masked(m, key).len() == spec_encode(m).len() + 4,
        spec_decode(spec_encode_masked(m, key)) == Ok::<(FrameModel, int), ParseError>(
            (m, spec_encode_masked(m, key).len() as int),
        ),
{
    reveal_with_fuel(pow256, 10);
    let payload = frame_payload(m);
    let n = payload.len();
    let first = frame_first_byte(m);
    let l1 = len_first_byte(n);
    let ext = ext_len_bytes(n);
    let masked = mask_seq(payload, key);
    let data = spec_encode_masked(m, key);

    if n >= 65536 {
        lemma_be_bytes_len(n, 8);
    } else if n >= 126 {
        lemma_be_bytes_len(n, 2);
    }
    let e = ext.len() as int;
    assert(masked.len() == n);
    assert(data.len() == 2 + e + 4 + n);
    assert(spec_encode(m).len() == 1 + (1 + e) + n);

    // The individual pieces of the encoding, as the decoder addresses them.
    assert(data[0] == first);
    assert(data[1] == (l1 + 0x80) as u8);
    assert(data.subrange(2, 2 + e) =~= ext);
    assert(data.subrange(2 + e, 2 + e + 4) =~= key);
    assert(data.subrange(2 + e + 4, 2 + e + 4 + n as int) =~= masked);

    // The mask bit and the 7-bit length field of the second byte.
    let x = l1 as u8;
    assert(x <= 127);
    assert(((x + 128) as u8) & 0x80 != 0 && ((x + 128) as u8) & 0x7f == x) by (bit_vector)
        requires
            x <= 127,
    ;
    assert(data[1] & 0x80 != 0);
    assert(data[1] & 0x7f == x);

    // The opcode nibble of the first byte.
    assert(0x81u8 & 0x0F == 0x1 && 0x82u8 & 0x0F == 0x2 && 0x88u8 & 0x0F == 0x8 && 0x89u8 & 0x0F
        == 0x9 && 0x8au8 & 0x0F == 0xa) by (bit_vector);
    let op = opcode_of_byte(data[0]);

    // The announced payload length resolves to `n`.
    if n < 126 {
        assert(ext_len_end(x) == 2);
        assert(payload_len_of(data) == n);
    } else if n < 65536 {
        assert(x == 126);
        assert(ext_len_end(x) == 4);
        lemma_be_round_trip(n, 2);
        assert(data.subrange(2, 4) =~= ext);
        assert(payload_len_of(data) == n);
    } else {
        assert(x == 127);
        assert(ext_len_end(x) == 10);
        lemma_be_round_trip(n, 8);
        assert(data.subrange(2, 10) =~= ext);
        assert(payload_len_of(data) == n);
    }
    let hdr = ext_len_end(x);
    assert(hdr == 2 + e);

    // Control frames stay within 125 bytes, so no size rejection fires.
    assert(op.spec_is_control() ==> n <= 125);

    // The decoder unmasks back to the original payload.
    lemma_mask_involution(payload, key);
    assert(data.subrange(hdr, hdr + 4) == key);
    assert(data.subrange(hdr + 4, hdr + 4 + n as int) == masked);
    assert(mask_seq(data.subrange(hdr + 4, hdr + 4 + n as int), data.subrange(hdr, hdr + 4))
        == payload);

    // Payload dispatch gives back the original frame value.
    match m {
        FrameModel::Text(t) => {
            encode_utf8_valid_utf8(t);
            encode_utf8_decode_utf8(t);
            assert(op == OpCode::Text);
        },
        FrameModel::Binary(_) => {
            assert(op == OpCode::Binary);
        },
        FrameModel::Ping(_) => {
            assert(op == OpCode::Ping);
        },
        FrameModel::Pong(_) => {
            assert(op == OpCode::Pong);
        },
        FrameModel::Close(_) => {
            assert(false);
        },
    }
}

} // verus!
