//! Percent-encoding of path segments, `file://` URIs and percent-decoding.

use vstd::prelude::*;
use vstd::utf8::{decode_utf8, encode_utf8, is_ascii_chars, is_continuation_byte, valid_utf8};
use crate::text::{push_char, chars_of, string_from_chars, split_nonempty, nonempty_segments, views_of};

verus! {

broadcast use vstd::string::group_string_axioms;

// ---------------------------------------------------------------------------
// Encoding
// ---------------------------------------------------------------------------

/// Bytes written as themselves: ASCII letters and digits and `-._~`.
pub open spec fn is_unreserved(b: u8) -> bool {
    (48u8 <= b && b <= 57u8) || (65u8 <= b && b <= 90u8) || (97u8 <= b && b <= 122u8) || b == 45u8
        || b == 46u8 || b == 95u8 || b == 126u8
}

/// Upper-case hexadecimal digit of `v` (below 16).
pub open spec fn hex_digit_upper(v: u8) -> char {
    if v < 10 {
        (48 + v) as char
    } else {
        (55 + v) as char
    }
}

/// One byte, percent-encoded.
pub open spec fn encode_byte(b: u8) -> Seq<char> {
    if is_unreserved(b) {
        seq![b as char]
    } else {
        seq!['%', hex_digit_upper(b / 16), hex_digit_upper(b % 16)]
    }
}

/// Percent-encoding of a byte sequence.
pub open spec fn percent_encode_bytes(bs: Seq<u8>) -> Seq<char>
    decreases bs.len(),
{
    if bs.len() == 0 {
        Seq::empty()
    } else {
        encode_byte(bs[0]) + percent_encode_bytes(bs.drop_first())
    }
}

proof fn lemma_percent_encode_push(bs: Seq<u8>, b: u8)
    ensures
        percent_encode_bytes(bs.push(b)) == percent_encode_bytes(bs) + encode_byte(b),
    decreases bs.len(),
{
    if bs.len() == 0 {
        assert(bs.push(b).drop_first() =~= Seq::<u8>::empty());
        assert(bs.push(b)[0] == b);
        assert(percent_encode_bytes(Seq::<u8>::empty()) =~= Seq::<char>::empty());
        assert(percent_encode_bytes(bs) =~= Seq::<char>::empty());
        assert(percent_encode_bytes(bs.push(b)) =~= encode_byte(b));
    } else {
        assert(bs.push(b).drop_first() =~= bs.drop_first().push(b));
        lemma_percent_encode_push(bs.drop_first(), b);
        assert(percent_encode_bytes(bs.push(b)) =~= percent_encode_bytes(bs) + encode_byte(b));
    }
}

fn hex_digit_upper_exec(v: u8) -> (c: char)
    requires
        v < 16,
    ensures
        c == hex_digit_upper(v),
{
    if v < 10 {
        (48 + v) as char
    } else {
        (55 + v) as char
    }
}

/// Percent-encodes the UTF-8 bytes of a path segment: unreserved bytes stay,
/// every other byte becomes `%XX` (upper-case hexadecimal).
pub fn percent_encode_path(segment: &str) -> (r: String)
    ensures
        r@ == percent_encode_bytes(encode_utf8(segment@)),
{
    let bytes = segment.as_bytes();
    let mut out = String::new();
    let mut i: usize = 0;
    while i < bytes.len()
        invariant
            i <= bytes@.len(),
            bytes@ == encode_utf8(segment@),
            out@ == percent_encode_bytes(bytes@.take(i as int)),
        decreases bytes@.len() - i,
    {
        let b = bytes[i];
        proof {
            lemma_percent_encode_push(bytes@.take(i as int), b);
            assert(bytes@.take(i + 1) =~= bytes@.take(i as int).push(b));
        }
        if (48u8 <= b && b <= 57u8) || (65u8 <= b && b <= 90u8) || (97u8 <= b && b <= 122u8) || b == 45u8
            || b == 46u8 || b == 95u8 || b == 126u8 {
            push_char(&mut out, b as char);
        } else {
            push_char(&mut out, '%');
            push_char(&mut out, hex_digit_upper_exec(b / 16));
            push_char(&mut out, hex_digit_upper_exec(b % 16));
        }
        assert(out@ =~= percent_encode_bytes(bytes@.take(i + 1)));
        i = i + 1;
    }
    assert(bytes@.take(bytes@.len() as int) =~= bytes@);
    out
}

// ---------------------------------------------------------------------------
// Decoding
// ---------------------------------------------------------------------------

/// Value of one hexadecimal digit (either case).
pub open spec fn hex_value(b: u8) -> Option<u8> {
    if 48u8 <= b && b <= 57u8 {
        Some((b - 48) as u8)
    } else if 97u8 <= b && b <= 102u8 {
        Some((b - 87) as u8)
    } else if 65u8 <= b && b <= 70u8 {
        Some((b - 55) as u8)
    } else {
        None
    }
}

/// Parse of the two characters after a `%` as a base-16 byte, the way
/// `u8::from_str_radix(_, 16)` reads them: two hex digits, or `+` and one digit.
pub open spec fn hex_pair(a: u8, b: u8) -> Option<u8> {
    if a == 43u8 {
        hex_value(b)
    } else {
        match (hex_value(a), hex_value(b)) {
            (Some(x), Some(y)) => Some((x * 16 + y) as u8),
            _ => None,
        }
    }
}

/// Percent-decoding of `b` from index `i`: `%` with a parsable pair
/// becomes that byte, everything else stays. `None` when the pair after a
/// `%` would end inside a multi-byte character (the text cannot be cut there).
pub open spec fn percent_decode_from(b: Seq<u8>, i: int) -> Option<Seq<u8>>
    decreases b.len() - i,
{
    if i < 0 || i >= b.len() {
        Some(Seq::empty())
    } else if b[i] == 37u8 && i + 2 < b.len() {
        if i + 3 < b.len() && is_continuation_byte(b[i + 3]) {
            None
        } else {
            match hex_pair(b[i + 1], b[i + 2]) {
                Some(v) => match percent_decode_from(b, i + 3) {
                    Some(r) => Some(seq![v] + r),
                    None => None,
                },
                None => match percent_decode_from(b, i + 1) {
                    Some(r) => Some(seq![b[i]] + r),
                    None => None,
                },
            }
        }
    } else {
        match percent_decode_from(b, i + 1) {
            Some(r) => Some(seq![b[i]] + r),
            None => None,
        }
    }
}

/// The text can be percent-decoded (no `%XX` pair ends inside a character).
pub open spec fn percent_decodable(input: Seq<char>) -> bool {
    percent_decode_from(encode_utf8(input), 0) is Some
}

/// Bytes obtained by percent-decoding the UTF-8 bytes of `input`.
pub open spec fn percent_decoded_bytes(input: Seq<char>) -> Seq<u8> {
    percent_decode_from(encode_utf8(input), 0).unwrap()
}

/// What `String::from_utf8_lossy` makes of `bytes`: their decoding, each
/// invalid sequence replaced by U+FFFD.
pub uninterp spec fn utf8_lossy(bytes: Seq<u8>) -> Seq<char>;

/// `String::from_utf8_lossy`. The contract claims that the result is the
/// named `utf8_lossy` of the bytes, and their UTF-8 decoding when they are
/// valid UTF-8 (as its documentation says); how invalid sequences are
/// replaced by U+FFFD is left unsaid.
#[verifier::external_body]
pub(crate) fn string_from_utf8_lossy(bytes: &[u8]) -> (s: String)
    ensures
        s@ == utf8_lossy(bytes@),
        valid_utf8(bytes@) ==> s@ == decode_utf8(bytes@),
{
    String::from_utf8_lossy(bytes).into_owned()
}

/// The text obtained by percent-decoding `input`.
pub open spec fn percent_decoded_text(input: Seq<char>) -> Seq<char> {
    let b = percent_decoded_bytes(input);
    if valid_utf8(b) {
        decode_utf8(b)
    } else {
        utf8_lossy(b)
    }
}

fn hex_value_exec(b: u8) -> (r: Option<u8>)
    ensures
        r == hex_value(b),
{
    if 48u8 <= b && b <= 57u8 {
        Some(b - 48)
    } else if 97u8 <= b && b <= 102u8 {
        Some(b - 87)
    } else if 65u8 <= b && b <= 70u8 {
        Some(b - 55)
    } else {
        None
    }
}

fn hex_pair_exec(a: u8, b: u8) -> (r: Option<u8>)
    ensures
        r == hex_pair(a, b),
{
    if a == 43u8 {
        hex_value_exec(b)
    } else {
        match (hex_value_exec(a), hex_value_exec(b)) {
            (Some(x), Some(y)) => Some(x * 16 + y),
            _ => None,
        }
    }
}

/// Whether [`percent_decode`] accepts `input`.
pub fn percent_decode_is_defined(input: &str) -> (r: bool)
    ensures
        r == percent_decodable(input@),
{
    let bytes = input.as_bytes();
    let len = bytes.len();
    let mut i: usize = 0;
    while i < len
        invariant
            i <= len,
            len == bytes@.len(),
            bytes@ == encode_utf8(input@),
            (percent_decode_from(bytes@, 0) is Some) == (percent_decode_from(bytes@, i as int) is Some),
        decreases len - i,
    {
        if bytes[i] == 37u8 && len - i > 2 {
            if len - i > 3 && 0x80u8 <= bytes[i + 3] && bytes[i + 3] <= 0xBFu8 {
                return false;
            }
            if hex_pair_exec(bytes[i + 1], bytes[i + 2]).is_some() {
                i = i + 3;
            } else {
                i = i + 1;
            }
        } else {
            i = i + 1;
        }
    }
    true
}

/// Percent-decodes `input`: each `%` followed by two hexadecimal digits
/// becomes that byte; the bytes are then read as UTF-8, invalid sequences
/// replaced by U+FFFD.
pub fn percent_decode(input: &str) -> (r: String)
    requires
        percent_decodable(input@),
    ensures
        r@ == percent_decoded_text(input@),
{
    let bytes = input.as_bytes();
    let len = bytes.len();
    let mut out: Vec<u8> = Vec::new();
    let mut i: usize = 0;
    while i < len
        invariant
            i <= len,
            len == bytes@.len(),
            bytes@ == encode_utf8(input@),
            percent_decode_from(bytes@, 0) == match percent_decode_from(bytes@, i as int) {
                Some(r) => Some(out@ + r),
                None => None,
            },
            percent_decode_from(bytes@, 0) is Some,
        decreases len - i,
    {
        let ghost prev = out@;
        if bytes[i] == 37u8 && len - i > 2 {
            match hex_pair_exec(bytes[i + 1], bytes[i + 2]) {
                Some(v) => {
                    out.push(v);
                    proof {
                        let rest = percent_decode_from(bytes@, i + 3);
                        if rest is Some {
                            assert(out@ + rest.unwrap() =~= prev + (seq![v] + rest.unwrap()));
                        }
                    }
                    i = i + 3;
                },
                None => {
                    out.push(bytes[i]);
                    proof {
                        let rest = percent_decode_from(bytes@, i + 1);
                        if rest is Some {
                            assert(out@ + rest.unwrap() =~= prev + (seq![bytes@[i as int]] + rest.unwrap()));
                        }
                    }
                    i = i + 1;
                },
            }
        } else {
            out.push(bytes[i]);
            proof {
                let rest = percent_decode_from(bytes@, i + 1);
                if rest is Some {
                    assert(out@ + rest.unwrap() =~= prev + (seq![bytes@[i as int]] + rest.unwrap()));
                }
            }
            i = i + 1;
        }
    }
    proof {
        assert(out@ + Seq::<u8>::empty() =~= out@);
    }
    string_from_utf8_lossy(out.as_slice())
}

// ---------------------------------------------------------------------------
// file:// URIs
// ---------------------------------------------------------------------------

/// `/` followed by the percent-encoded segment, for each segment in order.
pub open spec fn uri_path(segs: Seq<Seq<char>>) -> Seq<char>
    decreases segs.len(),
{
    if segs.len() == 0 {
        Seq::empty()
    } else {
        uri_path(segs.drop_last()) + seq!['/'] + percent_encode_bytes(encode_utf8(segs.last()))
    }
}

/// The `file://` URI of a host path: its non-empty `/`-separated segments,
/// each percent-encoded.
pub open spec fn file_uri_of(path: Seq<char>) -> Seq<char> {
    "file://"@ + uri_path(nonempty_segments(path, '/'))
}

/// `file://` URI for an absolute host path (minimal percent-encoding).
pub fn file_uri(path: &str) -> (r: String)
    ensures
        r@ == file_uri_of(path@),
{
    let chars = chars_of(path);
    let segs = split_nonempty(&chars, '/');
    let mut out = String::from_str("file://");
    let mut i: usize = 0;
    while i < segs.len()
        invariant
            i <= segs@.len(),
            views_of(segs@) == nonempty_segments(path@, '/'),
            out@ == "file://"@ + uri_path(views_of(segs@).take(i as int)),
        decreases segs@.len() - i,
    {
        let seg = string_from_chars(segs[i].as_slice());
        let enc = percent_encode_path(seg.as_str());
        let ghost prev = out@;
        push_char(&mut out, '/');
        out.append(enc.as_str());
        proof {
            let vs = views_of(segs@);
            assert(vs.take(i + 1).drop_last() =~= vs.take(i as int));
            assert(vs.take(i + 1).last() == segs@[i as int]@);
            assert(out@ =~= "file://"@ + uri_path(vs.take(i + 1)));
        }
        i = i + 1;
    }
    assert(views_of(segs@).take(segs@.len() as int) =~= views_of(segs@));
    out
}

// ---------------------------------------------------------------------------
// Laws
// ---------------------------------------------------------------------------

/// Percent-encoding a sequence of bytes, as bytes.
spec fn encoded_bytes(bs: Seq<u8>) -> Seq<u8> {
    percent_encode_bytes(bs).map_values(|c: char| c as u8)
}

proof fn lemma_encode_ascii(bs: Seq<u8>)
    ensures
        is_ascii_chars(percent_encode_bytes(bs)),
    decreases bs.len(),
{
    if bs.len() > 0 {
        lemma_encode_ascii(bs.drop_first());
        let e = encode_byte(bs[0]);
        let r = percent_encode_bytes(bs.drop_first());
        assert forall|i: int| 0 <= i < e.len() + r.len() implies '\0' <= #[trigger] (e + r)[i] <= '\u{7f}' by {
            if i >= e.len() {
                assert((e + r)[i] == r[i - e.len()]);
            }
        }
        assert(percent_encode_bytes(bs) == e + r);
    }
}

/// Decoding from index `i + k` of `b` only looks at `b` from `k` on.
proof fn lemma_decode_skip(b: Seq<u8>, i: int, k: int)
    requires
        0 <= i,
        0 <= k <= b.len(),
    ensures
        percent_decode_from(b, i + k) == percent_decode_from(b.skip(k), i),
    decreases b.len() - (i + k),
{
    let t = b.skip(k);
    if i + k >= b.len() {
    } else {
        assert(t[i] == b[i + k]);
        if i + 2 < t.len() {
            assert(t[i + 1] == b[i + k + 1]);
            assert(t[i + 2] == b[i + k + 2]);
        }
        if i + 3 < t.len() {
            assert(t[i + 3] == b[i + k + 3]);
        }
        lemma_decode_skip(b, i + 1, k);
        if i + 3 <= t.len() {
            lemma_decode_skip(b, i + 3, k);
        }
    }
}

proof fn lemma_decode_encoded(bs: Seq<u8>)
    ensures
        percent_decode_from(encoded_bytes(bs), 0) == Some(bs),
    decreases bs.len(),
{
    let x = encoded_bytes(bs);
    if bs.len() == 0 {
    } else {
        let b0 = bs[0];
        let rest = bs.drop_first();
        lemma_decode_encoded(rest);
        lemma_encode_ascii(rest);
        let e = encode_byte(b0);
        let xr = encoded_bytes(rest);
        assert(percent_encode_bytes(bs) == e + percent_encode_bytes(rest));
        assert(x =~= e.map_values(|c: char| c as u8) + xr);
        let k = e.len() as int;
        assert(x.skip(k) =~= xr);
        lemma_decode_skip(x, 0, k);
        if is_unreserved(b0) {
            assert(x[0] == b0);
            assert(x[0] != 37u8);
            assert(Some(seq![b0] + rest) == Some(bs)) by {
                assert(seq![b0] + rest =~= bs);
            }
        } else {
            assert(x[0] == 37u8);
            assert(x[1] == hex_digit_upper(b0 / 16) as u8);
            assert(x[2] == hex_digit_upper(b0 % 16) as u8);
            assert(hex_pair(x[1], x[2]) == Some(b0));
            if 3 < x.len() {
                assert(x[3] == xr[0]);
                assert(xr[0] == percent_encode_bytes(rest)[0] as u8);
                assert('\0' <= percent_encode_bytes(rest)[0] <= '\u{7f}');
            }
            assert(seq![b0] + rest =~= bs);
        }
    }
}

/// Percent-decoding undoes [`percent_encode_path`]: the decoded text of an
/// encoded segment is the segment itself.
pub proof fn lemma_percent_roundtrip(s: Seq<char>)
    ensures
        percent_decodable(percent_encode_bytes(encode_utf8(s))),
        percent_decoded_text(percent_encode_bytes(encode_utf8(s))) == s,
{
    let b = encode_utf8(s);
    let e = percent_encode_bytes(b);
    lemma_encode_ascii(b);
    vstd::utf8::is_ascii_chars_encode_utf8(e);
    assert(encode_utf8(e) =~= encoded_bytes(b));
    lemma_decode_encoded(b);
    vstd::utf8::encode_utf8_valid_utf8(s);
    vstd::utf8::encode_utf8_decode_utf8(s);
}

} // verus!
