//! Byte-level text utilities: ASCII case folding, whitespace trimming,
//! substring search, and decimal/hexadecimal numerals, together with the
//! bridge between byte sequences and `String` values.

use vstd::prelude::*;
use vstd::utf8::{decode_utf8, encode_utf8, valid_utf8, is_ascii_chars};
use vstd::utf8::{encode_utf8_valid_utf8, encode_utf8_decode_utf8, is_ascii_chars_encode_utf8};

verus! {

// ---------------------------------------------------------------------------
// ASCII classification and case folding
// ---------------------------------------------------------------------------

/// The ASCII whitespace characters (space and the five control characters
/// that Rust's `char::is_whitespace` accepts below 0x80).
pub open spec fn is_ascii_space(b: u8) -> bool {
    b == 32 || (9 <= b && b <= 13)
}

/// One byte, case-folded to lower case if it is an ASCII capital letter.
pub open spec fn lower_byte(b: u8) -> u8 {
    if 65 <= b && b <= 90 {
        (b + 32) as u8
    } else {
        b
    }
}

/// A byte sequence with every ASCII capital letter folded to lower case.
pub open spec fn lower_bytes(s: Seq<u8>) -> Seq<u8> {
    Seq::new(s.len(), |i: int| lower_byte(s[i]))
}

/// One byte, case-folded to upper case if it is an ASCII small letter.
pub open spec fn upper_byte(b: u8) -> u8 {
    if 97 <= b && b <= 122 {
        (b - 32) as u8
    } else {
        b
    }
}

/// A byte sequence with every ASCII small letter folded to upper case.
pub open spec fn upper_bytes(s: Seq<u8>) -> Seq<u8> {
    Seq::new(s.len(), |i: int| upper_byte(s[i]))
}

pub fn byte_is_space(b: u8) -> (r: bool)
    ensures
        r == is_ascii_space(b),
{
    b == 32 || (9 <= b && b <= 13)
}

pub fn byte_to_lower(b: u8) -> (r: u8)
    ensures
        r == lower_byte(b),
{
    if 65 <= b && b <= 90 {
        b + 32
    } else {
        b
    }
}

pub fn byte_to_upper(b: u8) -> (r: u8)
    ensures
        r == upper_byte(b),
{
    if 97 <= b && b <= 122 {
        b - 32
    } else {
        b
    }
}

/// Folding twice is the same as folding once.
pub proof fn lemma_lower_idempotent(s: Seq<u8>)
    ensures
        lower_bytes(lower_bytes(s)) == lower_bytes(s),
{
    assert(lower_bytes(lower_bytes(s)) =~= lower_bytes(s));
}

/// The lower-case fold of a byte slice, as a fresh vector.
pub fn lower_vec(s: &[u8]) -> (r: Vec<u8>)
    ensures
        r@ == lower_bytes(s@),
{
    let mut out: Vec<u8> = Vec::new();
    let mut i: usize = 0;
    while i < s.len()
        invariant
            i <= s.len(),
            out@ =~= lower_bytes(s@).take(i as int),
        decreases s.len() - i,
    {
        out.push(byte_to_lower(s[i]));
        i = i + 1;
    }
    assert(out@ =~= lower_bytes(s@));
    out
}

/// The upper-case fold of a byte slice, as a fresh vector.
pub fn upper_vec(s: &[u8]) -> (r: Vec<u8>)
    ensures
        r@ == upper_bytes(s@),
{
    let mut out: Vec<u8> = Vec::new();
    let mut i: usize = 0;
    while i < s.len()
        invariant
            i <= s.len(),
            out@ =~= upper_bytes(s@).take(i as int),
        decreases s.len() - i,
    {
        out.push(byte_to_upper(s[i]));
        i = i + 1;
    }
    assert(out@ =~= upper_bytes(s@));
    out
}

/// The views of a sequence of byte vectors.
pub open spec fn views_of(s: Seq<Vec<u8>>) -> Seq<Seq<u8>> {
    Seq::new(s.len(), |i: int| s[i]@)
}

/// Exact equality of two byte slices.
pub fn bytes_eq(a: &[u8], b: &[u8]) -> (r: bool)
    ensures
        r == (a@ == b@),
{
    if a.len() != b.len() {
        return false;
    }
    let mut i: usize = 0;
    while i < a.len()
        invariant
            i <= a.len(),
            a@.len() == b@.len(),
            forall|k: int| 0 <= k < i ==> a@[k] == b@[k],
        decreases a.len() - i,
    {
        if a[i] != b[i] {
            return false;
        }
        i = i + 1;
    }
    assert(a@ =~= b@);
    true
}

/// Equality of two byte slices up to ASCII case.
pub fn bytes_eq_fold(a: &[u8], b: &[u8]) -> (r: bool)
    ensures
        r == (lower_bytes(a@) == lower_bytes(b@)),
{
    if a.len() != b.len() {
        assert(lower_bytes(a@).len() != lower_bytes(b@).len());
        return false;
    }
    let mut i: usize = 0;
    while i < a.len()
        invariant
            i <= a.len(),
            a@.len() == b@.len(),
            forall|k: int| 0 <= k < i ==> lower_byte(a@[k]) == lower_byte(b@[k]),
        decreases a.len() - i,
    {
        if byte_to_lower(a[i]) != byte_to_lower(b[i]) {
            assert(lower_bytes(a@)[i as int] != lower_bytes(b@)[i as int]);
            return false;
        }
        i = i + 1;
    }
    assert(lower_bytes(a@) =~= lower_bytes(b@));
    true
}

// ---------------------------------------------------------------------------
// Substring search (case-insensitive)
// ---------------------------------------------------------------------------

/// `needle` occurs as a contiguous subsequence of `hay`.
pub open spec fn contains_seq(hay: Seq<u8>, needle: Seq<u8>) -> bool {
    exists|i: int|
        #![trigger hay.subrange(i, i + needle.len())]
        0 <= i && i + needle.len() <= hay.len()
            && hay.subrange(i, i + needle.len()) == needle
}

/// Whether the fold of `needle` occurs inside the fold of `hay`,
/// i.e. an ASCII-case-insensitive substring test.
#[verifier::loop_isolation(false)]
pub fn contains_fold(hay: &[u8], needle: &[u8]) -> (r: bool)
    ensures
        r == contains_seq(lower_bytes(hay@), lower_bytes(needle@)),
{
    let ghost lh = lower_bytes(hay@);
    let ghost ln = lower_bytes(needle@);
    if needle.len() > hay.len() {
        assert(!contains_seq(lh, ln));
        return false;
    }
    if needle.len() == 0 {
        assert(contains_seq(lh, ln)) by {
            assert(lh.subrange(0, 0 + ln.len() as int) =~= ln);
        }
        return true;
    }
    let n = needle.len();
    let mut i: usize = 0;
    while i <= hay.len() - n
        invariant
            i <= hay.len() - n + 1,
            forall|k: int|
                #![trigger lh.subrange(k, k + ln.len())]
                0 <= k < i ==> lh.subrange(k, k + ln.len()) != ln,
        decreases hay.len() - n - i + 1,
    {
        let piece = &hay[i..i + n];
        proof {
            assert(lh.subrange(i as int, i + ln.len()) =~= lower_bytes(piece@));
        }
        if bytes_eq_fold(piece, needle) {
            return true;
        }
        i = i + 1;
    }
    assert(forall|k: int|
        #![trigger lh.subrange(k, k + ln.len())]
        0 <= k && k + ln.len() <= lh.len() ==> lh.subrange(k, k + ln.len()) != ln);
    false
}

// ---------------------------------------------------------------------------
// Whitespace trimming
// ---------------------------------------------------------------------------

/// The sequence with its leading ASCII whitespace removed.
pub open spec fn skip_leading_spaces(s: Seq<u8>) -> Seq<u8>
    decreases s.len(),
{
    if s.len() > 0 && is_ascii_space(s[0]) {
        skip_leading_spaces(s.drop_first())
    } else {
        s
    }
}

/// The sequence with its trailing ASCII whitespace removed.
pub open spec fn strip_trailing_spaces(s: Seq<u8>) -> Seq<u8>
    decreases s.len(),
{
    if s.len() > 0 && is_ascii_space(s.last()) {
        strip_trailing_spaces(s.drop_last())
    } else {
        s
    }
}

/// The sequence with ASCII whitespace removed from both ends.
pub open spec fn trim_bytes(s: Seq<u8>) -> Seq<u8> {
    strip_trailing_spaces(skip_leading_spaces(s))
}

proof fn lemma_skip_leading(s: Seq<u8>, k: int)
    requires
        0 <= k <= s.len(),
        forall|i: int| 0 <= i < k ==> is_ascii_space(s[i]),
        k == s.len() || !is_ascii_space(s[k]),
    ensures
        skip_leading_spaces(s) == s.skip(k),
    decreases k,
{
    if k == 0 {
        assert(s.skip(0) =~= s);
    } else {
        assert(is_ascii_space(s[0]));
        lemma_skip_leading(s.drop_first(), k - 1);
        assert(s.drop_first().skip(k - 1) =~= s.skip(k));
    }
}

proof fn lemma_strip_trailing(s: Seq<u8>, k: int)
    requires
        0 <= k <= s.len(),
        forall|i: int| k <= i < s.len() ==> is_ascii_space(s[i]),
        k == 0 || !is_ascii_space(s[k - 1]),
    ensures
        strip_trailing_spaces(s) == s.take(k),
    decreases s.len() - k,
{
    if k == s.len() {
        assert(s.take(k) =~= s);
    } else {
        assert(is_ascii_space(s.last()));
        lemma_strip_trailing(s.drop_last(), k);
        assert(s.drop_last().take(k) =~= s.take(k));
    }
}

/// The slice with ASCII whitespace removed from both ends.
#[verifier::loop_isolation(false)]
pub fn trim_slice<'a>(s: &'a [u8]) -> (r: &'a [u8])
    ensures
        r@ == trim_bytes(s@),
{
    let mut lo: usize = 0;
    while lo < s.len() && byte_is_space(s[lo])
        invariant
            lo <= s.len(),
            forall|i: int| 0 <= i < lo ==> is_ascii_space(s@[i]),
        decreases s.len() - lo,
    {
        lo = lo + 1;
    }
    proof {
        lemma_skip_leading(s@, lo as int);
    }
    let mut hi: usize = s.len();
    while hi > lo && byte_is_space(s[hi - 1])
        invariant
            lo <= hi <= s.len(),
            forall|i: int| hi <= i < s.len() ==> is_ascii_space(s@[i]),
        decreases hi,
    {
        hi = hi - 1;
    }
    let r = &s[lo..hi];
    proof {
        let t = s@.skip(lo as int);
        if hi == lo {
            lemma_strip_trailing(t, 0);
        } else {
            lemma_strip_trailing(t, hi - lo);
        }
        assert(t.take(hi - lo) =~= s@.subrange(lo as int, hi as int));
    }
    r
}

// ---------------------------------------------------------------------------
// Decimal and hexadecimal numerals
// ---------------------------------------------------------------------------

pub open spec fn is_dec_digit(b: u8) -> bool {
    48 <= b && b <= 57
}

pub open spec fn all_dec_digits(s: Seq<u8>) -> bool {
    forall|i: int| 0 <= i < s.len() ==> is_dec_digit(s[i])
}

/// The value of a sequence of decimal digit bytes.
pub open spec fn dec_val(s: Seq<u8>) -> nat
    decreases s.len(),
{
    if s.len() == 0 {
        0
    } else {
        (dec_val(s.drop_last()) * 10 + (s.last() - 48)) as nat
    }
}

pub open spec fn is_hex_digit(b: u8) -> bool {
    (48 <= b && b <= 57) || (97 <= b && b <= 102) || (65 <= b && b <= 70)
}

pub open spec fn hex_digit_val(b: u8) -> nat {
    if 48 <= b && b <= 57 {
        (b - 48) as nat
    } else if 97 <= b && b <= 102 {
        (b - 87) as nat
    } else if 65 <= b && b <= 70 {
        (b - 55) as nat
    } else {
        0
    }
}

pub open spec fn all_hex_digits(s: Seq<u8>) -> bool {
    forall|i: int| 0 <= i < s.len() ==> is_hex_digit(s[i])
}

/// The value of a sequence of hexadecimal digit bytes.
pub open spec fn hex_val(s: Seq<u8>) -> nat
    decreases s.len(),
{
    if s.len() == 0 {
        0
    } else {
        hex_val(s.drop_last()) * 16 + hex_digit_val(s.last())
    }
}

/// The digit part of a numeral that may carry one leading `+` sign,
/// as Rust's integer parsers accept.
pub open spec fn numeral_digits(s: Seq<u8>) -> Seq<u8> {
    if s.len() > 0 && s[0] == 43 {
        s.drop_first()
    } else {
        s
    }
}

/// A well-formed decimal numeral: an optional `+` then at least one digit.
pub open spec fn dec_numeral_ok(s: Seq<u8>) -> bool {
    numeral_digits(s).len() > 0 && all_dec_digits(numeral_digits(s))
}

/// A well-formed hexadecimal numeral: an optional `+` then at least one digit.
pub open spec fn hex_numeral_ok(s: Seq<u8>) -> bool {
    numeral_digits(s).len() > 0 && all_hex_digits(numeral_digits(s))
}

proof fn lemma_dec_val_take_succ(s: Seq<u8>, i: int)
    requires
        0 <= i < s.len(),
        is_dec_digit(s[i]),
    ensures
        dec_val(s.take(i + 1)) == dec_val(s.take(i)) * 10 + (s[i] - 48),
{
    assert(s.take(i + 1).drop_last() =~= s.take(i));
    assert(s.take(i + 1).last() == s[i]);
}

proof fn lemma_dec_val_prefix(s: Seq<u8>, i: int)
    requires
        0 <= i <= s.len(),
        all_dec_digits(s),
    ensures
        dec_val(s.take(i)) <= dec_val(s),
    decreases s.len() - i,
{
    if i == s.len() {
        assert(s.take(i) =~= s);
    } else {
        lemma_dec_val_take_succ(s, i);
        lemma_dec_val_prefix(s, i + 1);
    }
}

proof fn lemma_hex_val_take_succ(s: Seq<u8>, i: int)
    requires
        0 <= i < s.len(),
    ensures
        hex_val(s.take(i + 1)) == hex_val(s.take(i)) * 16 + hex_digit_val(s[i]),
{
    assert(s.take(i + 1).drop_last() =~= s.take(i));
    assert(s.take(i + 1).last() == s[i]);
}

proof fn lemma_hex_val_prefix(s: Seq<u8>, i: int)
    requires
        0 <= i <= s.len(),
        all_hex_digits(s),
    ensures
        hex_val(s.take(i)) <= hex_val(s),
    decreases s.len() - i,
{
    if i == s.len() {
        assert(s.take(i) =~= s);
    } else {
        lemma_hex_val_take_succ(s, i);
        lemma_hex_val_prefix(s, i + 1);
    }
}

/// Parse a decimal numeral (optional `+`, then digits), as `usize::from_str`
/// does: `None` on an empty or malformed numeral or on overflow.
#[verifier::loop_isolation(false)]
pub fn parse_dec(s: &[u8]) -> (r: Option<usize>)
    ensures
        r is Some <==> dec_numeral_ok(s@) && dec_val(numeral_digits(s@)) <= usize::MAX,
        r matches Some(v) ==> v == dec_val(numeral_digits(s@)),
{
    let digits: &[u8] = if s.len() > 0 && s[0] == 43 {
        &s[1..s.len()]
    } else {
        s
    };
    assert(digits@ =~= numeral_digits(s@));
    if digits.len() == 0 {
        return None;
    }
    let mut acc: usize = 0;
    let mut i: usize = 0;
    while i < digits.len()
        invariant
            i <= digits.len(),
            forall|k: int| 0 <= k < i ==> is_dec_digit(digits@[k]),
            acc == dec_val(digits@.take(i as int)),
        decreases digits.len() - i,
    {
        let b = digits[i];
        if !(48 <= b && b <= 57) {
            proof {
                assert(digits@[i as int] == b);
                assert(!is_dec_digit(digits@[i as int]));
                assert(!all_dec_digits(digits@));
            }
            return None;
        }
        let d: usize = (b - 48) as usize;
        if acc > (usize::MAX - d) / 10 {
            proof {
                lemma_dec_val_take_succ(digits@, i as int);
                assert(acc * 10 + d > usize::MAX) by (nonlinear_arith)
                    requires
                        acc > (usize::MAX - d) / 10,
                        d <= 9,
                ;
                if all_dec_digits(digits@) {
                    lemma_dec_val_prefix(digits@, i + 1);
                    assert(dec_val(digits@) > usize::MAX);
                }
            }
            return None;
        }
        proof {
            assert(acc * 10 + d <= usize::MAX) by (nonlinear_arith)
                requires
                    acc <= (usize::MAX - d) / 10,
                    d <= 9,
            ;
            lemma_dec_val_take_succ(digits@, i as int);
        }
        acc = acc * 10 + d;
        i = i + 1;
    }
    assert(digits@.take(i as int) =~= digits@);
    Some(acc)
}

/// Parse a hexadecimal numeral (optional `+`, then digits of either case), as
/// `usize::from_str_radix(_, 16)` does: `None` on malformed input or overflow.
#[verifier::loop_isolation(false)]
pub fn parse_hex(s: &[u8]) -> (r: Option<usize>)
    ensures
        r is Some <==> hex_numeral_ok(s@) && hex_val(numeral_digits(s@)) <= usize::MAX,
        r matches Some(v) ==> v == hex_val(numeral_digits(s@)),
{
    let digits: &[u8] = if s.len() > 0 && s[0] == 43 {
        &s[1..s.len()]
    } else {
        s
    };
    assert(digits@ =~= numeral_digits(s@));
    if digits.len() == 0 {
        return None;
    }
    let mut acc: usize = 0;
    let mut i: usize = 0;
    while i < digits.len()
        invariant
            i <= digits.len(),
            forall|k: int| 0 <= k < i ==> is_hex_digit(digits@[k]),
            acc == hex_val(digits@.take(i as int)),
        decreases digits.len() - i,
    {
        let b = digits[i];
        let d: usize;
        if 48 <= b && b <= 57 {
            d = (b - 48) as usize;
        } else if 97 <= b && b <= 102 {
            d = (b - 87) as usize;
        } else if 65 <= b && b <= 70 {
            d = (b - 55) as usize;
        } else {
            proof {
                assert(digits@[i as int] == b);
                assert(!is_hex_digit(digits@[i as int]));
                assert(!all_hex_digits(digits@));
            }
            return None;
        }
        assert(d == hex_digit_val(b));
        if acc > (usize::MAX - d) / 16 {
            proof {
                lemma_hex_val_take_succ(digits@, i as int);
                assert(acc * 16 + d > usize::MAX) by (nonlinear_arith)
                    requires
                        acc > (usize::MAX - d) / 16,
                        d <= 15,
                ;
                if all_hex_digits(digits@) {
                    lemma_hex_val_prefix(digits@, i + 1);
                    assert(hex_val(digits@) > usize::MAX);
                }
            }
            return None;
        }
        proof {
            assert(acc * 16 + d <= usize::MAX) by (nonlinear_arith)
                requires
                    acc <= (usize::MAX - d) / 16,
                    d <= 15,
            ;
            lemma_hex_val_take_succ(digits@, i as int);
        }
        acc = acc * 16 + d;
        i = i + 1;
    }
    assert(digits@.take(i as int) =~= digits@);
    Some(acc)
}

// ---------------------------------------------------------------------------
// Bytes to strings
// ---------------------------------------------------------------------------

/// The characters that a pure-ASCII byte sequence spells.
pub open spec fn ascii_chars_of(s: Seq<u8>) -> Seq<char> {
    Seq::new(s.len(), |i: int| s[i] as char)
}

pub open spec fn all_ascii(s: Seq<u8>) -> bool {
    forall|i: int| 0 <= i < s.len() ==> s[i] < 128
}

/// A pure-ASCII byte sequence is valid UTF-8 and decodes byte for byte.
pub proof fn lemma_ascii_bytes(s: Seq<u8>)
    requires
        all_ascii(s),
    ensures
        valid_utf8(s),
        decode_utf8(s) == ascii_chars_of(s),
        encode_utf8(ascii_chars_of(s)) == s,
        is_ascii_chars(ascii_chars_of(s)),
{
    let chars = ascii_chars_of(s);
    assert(is_ascii_chars(chars)) by {
        assert(forall|i: int| 0 <= i < chars.len()
            ==> '\0' <= #[trigger] chars[i] <= '\u{7f}');
    }
    is_ascii_chars_encode_utf8(chars);
    assert(encode_utf8(chars) =~= s);
    encode_utf8_valid_utf8(chars);
    encode_utf8_decode_utf8(chars);
}

/// Relies on `String::from_utf8`: it succeeds exactly on valid UTF-8 input
/// and the resulting string holds those very bytes.
#[verifier::external_body]
pub(crate) fn utf8_to_string(v: Vec<u8>) -> (r: Option<String>)
    ensures
        r is Some <==> valid_utf8(v@),
        r matches Some(s) ==> s@ == decode_utf8(v@),
{
    match String::from_utf8(v) {
        Ok(s) => Some(s),
        Err(_) => None,
    }
}

/// What `String::from_utf8_lossy` makes of a byte sequence; a pure function
/// of the bytes alone.
pub uninterp spec fn lossy_utf8_of(s: Seq<u8>) -> Seq<char>;

/// Relies on `String::from_utf8_lossy`: a pure function of the bytes that
/// decodes valid UTF-8 input unchanged.
#[verifier::external_body]
pub(crate) fn lossy_to_string(v: &[u8]) -> (r: String)
    ensures
        r@ == lossy_utf8_of(v@),
        valid_utf8(v@) ==> r@ == decode_utf8(v@),
{
    String::from_utf8_lossy(v).to_string()
}

/// A `String` from pure-ASCII bytes, character for character.
pub fn ascii_to_string(v: Vec<u8>) -> (r: String)
    requires
        all_ascii(v@),
    ensures
        r@ == ascii_chars_of(v@),
{
    proof {
        lemma_ascii_bytes(v@);
    }
    let ghost gv = v@;
    let r = utf8_to_string(v);
    match r {
        Some(s) => s,
        None => {
            proof {
                assert(false);
            }
            String::new()
        },
    }
}

// ---------------------------------------------------------------------------
// Numbers to strings
// ---------------------------------------------------------------------------

/// The decimal spelling of a natural number.
pub open spec fn dec_chars(n: nat) -> Seq<char>
    decreases n,
{
    if n < 10 {
        seq![((48 + n) as u8) as char]
    } else {
        dec_chars(n / 10) + seq![((48 + n % 10) as u8) as char]
    }
}

fn dec_byte_vec(n: usize) -> (r: Vec<u8>)
    ensures
        r@.len() > 0,
        all_ascii(r@),
        ascii_chars_of(r@) == dec_chars(n as nat),
    decreases n,
{
    let mut out: Vec<u8>;
    if n < 10 {
        out = Vec::new();
        out.push(48 + (n as u8));
    } else {
        out = dec_byte_vec(n / 10);
        out.push(48 + ((n % 10) as u8));
    }
    assert(ascii_chars_of(out@) =~= dec_chars(n as nat));
    out
}

/// The decimal spelling of `n`, as `usize`'s display gives it.
pub fn usize_to_string(n: usize) -> (r: String)
    ensures
        r@ == dec_chars(n as nat),
{
    ascii_to_string(dec_byte_vec(n))
}

} // verus!
