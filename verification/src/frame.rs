//! LSP/DAP message framing: `Content-Length` headers followed by a body.
//!
//! [`FrameReader`] decodes frames from the bytes received so far; the
//! caller feeds it input as it arrives and closes it at end of stream.
//! [`write_frame`] encodes one frame.

use vstd::prelude::*;

verus! {

// ---------------------------------------------------------------------------
// Specification of the wire format
// ---------------------------------------------------------------------------

/// A `\r\n` pair starts at index `j` of `d`.
pub open spec fn crlf_at(d: Seq<u8>, j: int) -> bool {
    0 <= j && j + 1 < d.len() && d[j] == 13u8 && d[j + 1] == 10u8
}

/// Index of the first `\r\n` at or after `from`, or -1 when there is none.
pub open spec fn line_end(d: Seq<u8>, from: int) -> int
    decreases d.len() - from,
{
    if from < 0 || from + 1 >= d.len() {
        -1
    } else if crlf_at(d, from) {
        from
    } else {
        line_end(d, from + 1)
    }
}

/// `line_end` finds a `\r\n` at or after `from`, and none before it.
pub proof fn lemma_line_end(d: Seq<u8>, from: int)
    ensures
        line_end(d, from) == -1 || (from <= line_end(d, from) && crlf_at(d, line_end(d, from))),
        from >= 0 && line_end(d, from) == -1 ==> forall|j: int| from <= j ==> !crlf_at(d, j),
        line_end(d, from) >= 0 ==> forall|j: int| from <= j < line_end(d, from) ==> !crlf_at(d, j),
    decreases d.len() - from,
{
    if from < 0 || from + 1 >= d.len() {
    } else if crlf_at(d, from) {
    } else {
        lemma_line_end(d, from + 1);
    }
}

/// ASCII lower-casing of one byte.
pub open spec fn ascii_lower(b: u8) -> u8 {
    if 65 <= b && b <= 90 {
        (b + 32) as u8
    } else {
        b
    }
}

/// `content-length`, in lower case.
pub open spec fn content_length_name() -> Seq<u8> {
    seq![99u8, 111u8, 110u8, 116u8, 101u8, 110u8, 116u8, 45u8, 108u8, 101u8, 110u8, 103u8, 116u8, 104u8]
}

/// The line starts with `content-length`, compared case-insensitively.
pub open spec fn names_content_length(line: Seq<u8>) -> bool {
    line.len() >= 14 && forall|i: int| 0 <= i < 14 ==> ascii_lower(#[trigger] line[i]) == content_length_name()[i]
}

/// Drops the leading `:` and space bytes.
pub open spec fn strip_colon_space(s: Seq<u8>) -> Seq<u8>
    decreases s.len(),
{
    if s.len() > 0 && (s[0] == 58u8 || s[0] == 32u8) {
        strip_colon_space(s.drop_first())
    } else {
        s
    }
}

/// The UTF-8 encoding `a b c` is a three-byte white-space character
/// (U+1680, U+2000..U+200A, U+2028, U+2029, U+202F, U+205F, U+3000).
pub open spec fn is_ws3(a: u8, b: u8, c: u8) -> bool {
    (a == 0xE1u8 && b == 0x9Au8 && c == 0x80u8)
    || (a == 0xE2u8 && b == 0x80u8 && ((0x80u8 <= c && c <= 0x8Au8) || c == 0xA8u8 || c == 0xA9u8 || c == 0xAFu8))
    || (a == 0xE2u8 && b == 0x81u8 && c == 0x9Fu8)
    || (a == 0xE3u8 && b == 0x80u8 && c == 0x80u8)
}

/// The UTF-8 encoding `a b` is a two-byte white-space character (U+0085, U+00A0).
pub open spec fn is_ws2(a: u8, b: u8) -> bool {
    a == 0xC2u8 && (b == 0x85u8 || b == 0xA0u8)
}

/// The byte is ASCII white space (tab, line feed, vertical tab, form feed, carriage return, space).
pub open spec fn is_ws1(a: u8) -> bool {
    (9u8 <= a && a <= 13u8) || a == 32u8
}

/// Length of the white-space character encoded at the start of `s` (0 if none).
pub open spec fn ws_prefix_len(s: Seq<u8>) -> int {
    if s.len() >= 1 && is_ws1(s[0]) {
        1
    } else if s.len() >= 2 && is_ws2(s[0], s[1]) {
        2
    } else if s.len() >= 3 && is_ws3(s[0], s[1], s[2]) {
        3
    } else {
        0
    }
}

/// Length of the white-space character encoded at the end of `s` (0 if none).
pub open spec fn ws_suffix_len(s: Seq<u8>) -> int {
    let n = s.len() as int;
    if n >= 1 && is_ws1(s[n - 1]) {
        1
    } else if n >= 2 && is_ws2(s[n - 2], s[n - 1]) {
        2
    } else if n >= 3 && is_ws3(s[n - 3], s[n - 2], s[n - 1]) {
        3
    } else {
        0
    }
}

/// Drops leading Unicode white space (UTF-8 encoded).
pub open spec fn trim_start_ws(s: Seq<u8>) -> Seq<u8>
    decreases s.len(),
{
    if ws_prefix_len(s) > 0 {
        trim_start_ws(s.skip(ws_prefix_len(s)))
    } else {
        s
    }
}

/// Drops trailing Unicode white space (UTF-8 encoded).
pub open spec fn trim_end_ws(s: Seq<u8>) -> Seq<u8>
    decreases s.len(),
{
    if ws_suffix_len(s) > 0 {
        trim_end_ws(s.take(s.len() - ws_suffix_len(s)))
    } else {
        s
    }
}

/// The byte is an ASCII decimal digit.
pub open spec fn is_digit(b: u8) -> bool {
    48u8 <= b && b <= 57u8
}

/// Every byte of `s` is a decimal digit.
pub open spec fn all_digits(s: Seq<u8>) -> bool {
    forall|i: int| 0 <= i < s.len() ==> is_digit(#[trigger] s[i])
}

/// The number written by the decimal digits `s`.
pub open spec fn digits_value(s: Seq<u8>) -> nat
    decreases s.len(),
{
    if s.len() == 0 {
        0
    } else {
        digits_value(s.drop_last()) * 10 + (s.last() - 48) as nat
    }
}

/// Parse of an unsigned machine-size integer: an optional `+` followed by
/// at least one decimal digit, the value not exceeding `usize::MAX`.
pub open spec fn parse_usize_text(s: Seq<u8>) -> Option<nat> {
    let digits = if s.len() > 0 && s[0] == 43u8 { s.drop_first() } else { s };
    if digits.len() > 0 && all_digits(digits) && digits_value(digits) <= usize::MAX {
        Some(digits_value(digits))
    } else {
        None
    }
}

/// The length announced by one header line, if it is a well-formed
/// `Content-Length` header: the name, then `:`/space bytes, then the number
/// surrounded by optional white space.
pub open spec fn header_content_length(line: Seq<u8>) -> Option<nat> {
    if names_content_length(line) {
        parse_usize_text(trim_end_ws(trim_start_ws(strip_colon_space(line.skip(14)))))
    } else {
        None
    }
}

/// The announced length after one more header line: a later well-formed
/// `Content-Length` header replaces an earlier one; other lines change nothing.
pub open spec fn next_content_length(cl: Option<nat>, line: Seq<u8>) -> Option<nat> {
    match header_content_length(line) {
        Some(v) => Some(v),
        None => cl,
    }
}

/// What one frame read from a stream whose whole remaining content is `d` gives.
pub enum FrameStep {
    /// A frame with this body; `used` bytes of `d` make it up.
    Frame { body: Seq<u8>, used: nat },
    /// The stream ended before any byte of a frame.
    CleanEnd,
    /// The stream ended inside the headers.
    EofInHeaders,
    /// The headers ended without a `Content-Length`.
    MissingContentLength,
    /// The stream ended inside the body.
    TruncatedBody,
}

/// Reading the header lines of `d` from `pos`, with the length announced so
/// far `cl` and `saw` telling whether any byte of the frame was read.
pub open spec fn decode_headers(d: Seq<u8>, pos: int, cl: Option<nat>, saw: bool) -> FrameStep
    decreases d.len() - pos,
{
    if pos < 0 || pos >= d.len() {
        if saw {
            FrameStep::EofInHeaders
        } else {
            FrameStep::CleanEnd
        }
    } else {
        let e = line_end(d, pos);
        proof {
            lemma_line_end(d, pos);
        }
        if e < 0 {
            FrameStep::EofInHeaders
        } else if e == pos {
            match cl {
                None => FrameStep::MissingContentLength,
                Some(n) => if pos + 2 + n <= d.len() {
                    FrameStep::Frame { body: d.subrange(pos + 2, pos + 2 + n), used: (pos + 2 + n) as nat }
                } else {
                    FrameStep::TruncatedBody
                },
            }
        } else {
            decode_headers(d, e + 2, next_content_length(cl, d.subrange(pos, e)), true)
        }
    }
}

/// The result of reading one frame from a stream whose remaining content is `d`.
pub open spec fn decode_frame(d: Seq<u8>) -> FrameStep {
    decode_headers(d, 0, None, false)
}

/// Decimal digits of `n`, most significant first, without leading zeros.
pub open spec fn decimal(n: nat) -> Seq<u8>
    decreases n,
{
    if n < 10 {
        seq![(48 + n) as u8]
    } else {
        decimal(n / 10).push((48 + n % 10) as u8)
    }
}

/// `Content-Length: `
pub open spec fn header_prefix() -> Seq<u8> {
    seq![67u8, 111u8, 110u8, 116u8, 101u8, 110u8, 116u8, 45u8, 76u8, 101u8, 110u8, 103u8, 116u8, 104u8, 58u8, 32u8]
}

/// `\r\n\r\n`
pub open spec fn header_end() -> Seq<u8> {
    seq![13u8, 10u8, 13u8, 10u8]
}

/// The bytes of one framed message carrying `body`.
pub open spec fn frame_bytes(body: Seq<u8>) -> Seq<u8> {
    header_prefix() + decimal(body.len()) + header_end() + body
}

// ---------------------------------------------------------------------------
// Decoding
// ---------------------------------------------------------------------------

/// Why no frame could be read.
#[derive(Debug, Clone, Copy, PartialEq, Eq, Structural)]
pub enum FrameError {
    /// The stream ended inside the headers.
    EofInHeaders,
    /// The headers ended without a `Content-Length`.
    MissingContentLength,
    /// The stream ended inside the body.
    TruncatedBody,
    /// The bytes received so far do not decide the frame yet; feed more input.
    NeedMoreInput,
}

/// Outcome of [`FrameReader::read_frame`] on pending bytes `d`, with `closed`
/// telling whether the stream has ended.
pub open spec fn read_result(d: Seq<u8>, closed: bool) -> Result<Option<Seq<u8>>, FrameError> {
    match decode_frame(d) {
        FrameStep::Frame { body, used } => Ok(Some(body)),
        FrameStep::MissingContentLength => Err(FrameError::MissingContentLength),
        FrameStep::CleanEnd => if closed { Ok(None) } else { Err(FrameError::NeedMoreInput) },
        FrameStep::EofInHeaders => if closed {
            Err(FrameError::EofInHeaders)
        } else {
            Err(FrameError::NeedMoreInput)
        },
        FrameStep::TruncatedBody => if closed {
            Err(FrameError::TruncatedBody)
        } else {
            Err(FrameError::NeedMoreInput)
        },
    }
}

/// Pending bytes left after [`FrameReader::read_frame`]: the frame's bytes
/// are consumed when one is returned, otherwise nothing is.
pub open spec fn remaining_after(d: Seq<u8>) -> Seq<u8> {
    match decode_frame(d) {
        FrameStep::Frame { body, used } => d.skip(used as int),
        _ => d,
    }
}

/// Decoded frame boundaries, in terms of indices into the pending bytes.
enum Decoded {
    Frame { start: usize, len: usize },
    CleanEnd,
    EofInHeaders,
    MissingContentLength,
    TruncatedBody,
}

/// Index of the first `\r\n` at or after `from`.
fn find_line_end(d: &Vec<u8>, from: usize) -> (r: Option<usize>)
    ensures
        match r {
            None => line_end(d@, from as int) == -1,
            Some(e) => e == line_end(d@, from as int) && e + 2 <= d@.len(),
        },
{
    let len = d.len();
    let mut j = from;
    while j < len && len - j >= 2
        invariant
            from <= j,
            len == d@.len(),
            line_end(d@, from as int) == line_end(d@, j as int),
        decreases len - j,
    {
        if d[j] == 13u8 && d[j + 1] == 10u8 {
            return Some(j);
        }
        j = j + 1;
    }
    None
}

/// Length of the white-space character encoded at `d[i..end]`'s start.
fn ws_prefix_at(d: &Vec<u8>, i: usize, end: usize) -> (r: usize)
    requires
        i <= end <= d@.len(),
    ensures
        r == ws_prefix_len(d@.subrange(i as int, end as int)),
{
    let ghost s = d@.subrange(i as int, end as int);
    let n = end - i;
    if n >= 1 && ((9u8 <= d[i] && d[i] <= 13u8) || d[i] == 32u8) {
        assert(s[0] == d@[i as int]);
        1
    } else if n >= 2 && d[i] == 0xC2u8 && (d[i + 1] == 0x85u8 || d[i + 1] == 0xA0u8) {
        assert(s[0] == d@[i as int] && s[1] == d@[i + 1]);
        2
    } else if n >= 3 && is_ws3_exec(d[i], d[i + 1], d[i + 2]) {
        assert(s[0] == d@[i as int] && s[1] == d@[i + 1] && s[2] == d@[i + 2]);
        3
    } else {
        assert(n >= 1 ==> s[0] == d@[i as int]);
        assert(n >= 2 ==> s[1] == d@[i + 1]);
        assert(n >= 3 ==> s[2] == d@[i + 2]);
        0
    }
}

/// Length of the white-space character encoded at `d[i..end]`'s end.
fn ws_suffix_at(d: &Vec<u8>, i: usize, end: usize) -> (r: usize)
    requires
        i <= end <= d@.len(),
    ensures
        r == ws_suffix_len(d@.subrange(i as int, end as int)),
{
    let ghost s = d@.subrange(i as int, end as int);
    let n = end - i;
    if n >= 1 && ((9u8 <= d[end - 1] && d[end - 1] <= 13u8) || d[end - 1] == 32u8) {
        assert(s[n - 1] == d@[end - 1]);
        1
    } else if n >= 2 && d[end - 2] == 0xC2u8 && (d[end - 1] == 0x85u8 || d[end - 1] == 0xA0u8) {
        assert(s[n - 1] == d@[end - 1] && s[n - 2] == d@[end - 2]);
        2
    } else if n >= 3 && is_ws3_exec(d[end - 3], d[end - 2], d[end - 1]) {
        assert(s[n - 1] == d@[end - 1] && s[n - 2] == d@[end - 2] && s[n - 3] == d@[end - 3]);
        3
    } else {
        assert(n >= 1 ==> s[n - 1] == d@[end - 1]);
        assert(n >= 2 ==> s[n - 2] == d@[end - 2]);
        assert(n >= 3 ==> s[n - 3] == d@[end - 3]);
        0
    }
}

fn is_ws3_exec(a: u8, b: u8, c: u8) -> (r: bool)
    ensures
        r == is_ws3(a, b, c),
{
    (a == 0xE1u8 && b == 0x9Au8 && c == 0x80u8)
    || (a == 0xE2u8 && b == 0x80u8 && ((0x80u8 <= c && c <= 0x8Au8) || c == 0xA8u8 || c == 0xA9u8 || c == 0xAFu8))
    || (a == 0xE2u8 && b == 0x81u8 && c == 0x9Fu8)
    || (a == 0xE3u8 && b == 0x80u8 && c == 0x80u8)
}

/// A prefix of a run of digits is worth no more than the whole run.
proof fn lemma_digits_value_prefix(s: Seq<u8>, k: int)
    requires
        0 <= k <= s.len(),
        all_digits(s),
    ensures
        digits_value(s.take(k)) <= digits_value(s),
    decreases s.len(),
{
    if k == s.len() {
        assert(s.take(k) =~= s);
    } else {
        let t = s.drop_last();
        assert(all_digits(t)) by {
            assert forall|i: int| 0 <= i < t.len() implies is_digit(#[trigger] t[i]) by {
                assert(t[i] == s[i]);
            }
        }
        lemma_digits_value_prefix(t, k);
        assert(t.take(k) =~= s.take(k));
    }
}

/// `parse_usize_text` of `d[i..j]`.
fn parse_usize_at(d: &Vec<u8>, i: usize, j: usize) -> (r: Option<usize>)
    requires
        i <= j <= d@.len(),
    ensures
        match r {
            None => parse_usize_text(d@.subrange(i as int, j as int)) is None,
            Some(v) => parse_usize_text(d@.subrange(i as int, j as int)) == Some(v as nat),
        },
{
    let ghost s = d@.subrange(i as int, j as int);
    let ghost expected = if s.len() > 0 && s[0] == 43u8 { s.drop_first() } else { s };
    let mut p = i;
    if p < j && d[p] == 43u8 {
        assert(s[0] == d@[i as int]);
        p = p + 1;
        assert(s.drop_first() =~= d@.subrange(p as int, j as int));
    } else {
        assert(j > i ==> s[0] == d@[i as int]);
    }
    let ghost digits = d@.subrange(p as int, j as int);
    assert(digits =~= expected);
    if p == j {
        return None;
    }
    assert(parse_usize_text(s) == (if all_digits(digits) && digits_value(digits) <= usize::MAX {
        Some(digits_value(digits))
    } else {
        None::<nat>
    }));
    let mut acc: usize = 0;
    let mut q = p;
    while q < j
        invariant
            p <= q <= j <= d@.len(),
            digits == d@.subrange(p as int, j as int),
            s == d@.subrange(i as int, j as int),
            parse_usize_text(s) == (if all_digits(digits) && digits_value(digits) <= usize::MAX {
                Some(digits_value(digits))
            } else {
                None::<nat>
            }),
            all_digits(d@.subrange(p as int, q as int)),
            acc as nat == digits_value(d@.subrange(p as int, q as int)),
        decreases j - q,
    {
        let b = d[q];
        let ghost pre = d@.subrange(p as int, q as int);
        let ghost pre1 = d@.subrange(p as int, q + 1);
        assert(pre1.drop_last() =~= pre);
        assert(pre1.last() == b);
        if b < 48u8 || b > 57u8 {
            assert(digits[q - p] == b);
            assert(!is_digit(digits[q - p]));
            return None;
        }
        assert(all_digits(pre1)) by {
            assert forall|k: int| 0 <= k < pre1.len() implies is_digit(#[trigger] pre1[k]) by {
                if k < pre.len() {
                    assert(pre1[k] == pre[k]);
                }
            }
        }
        let dig = (b - 48u8) as usize;
        assert(digits_value(pre1) == digits_value(pre) * 10 + (b - 48) as nat);
        match acc.checked_mul(10) {
            None => {
                proof {
                    if all_digits(digits) {
                        assert(digits.take(q + 1 - p) =~= pre1);
                        lemma_digits_value_prefix(digits, q + 1 - p);
                    }
                }
                return None;
            },
            Some(m) => match m.checked_add(dig) {
                None => {
                    proof {
                        if all_digits(digits) {
                            assert(digits.take(q + 1 - p) =~= pre1);
                            lemma_digits_value_prefix(digits, q + 1 - p);
                        }
                    }
                    return None;
                },
                Some(v) => {
                    acc = v;
                },
            },
        }
        q = q + 1;
    }
    Some(acc)
}

/// The length announced by the header line `d[start..end]`.
fn header_value(d: &Vec<u8>, start: usize, end: usize) -> (r: Option<usize>)
    requires
        start <= end <= d@.len(),
    ensures
        match r {
            None => header_content_length(d@.subrange(start as int, end as int)) is None,
            Some(v) => header_content_length(d@.subrange(start as int, end as int)) == Some(v as nat),
        },
{
    let ghost line = d@.subrange(start as int, end as int);
    if end - start < 14 {
        return None;
    }
    let name: Vec<u8> = vec![99u8, 111u8, 110u8, 116u8, 101u8, 110u8, 116u8, 45u8, 108u8, 101u8, 110u8, 103u8, 116u8, 104u8];
    assert(name@ =~= content_length_name());
    let mut k: usize = 0;
    while k < 14
        invariant
            k <= 14,
            start + 14 <= end <= d@.len(),
            name@ == content_length_name(),
            line == d@.subrange(start as int, end as int),
            forall|m: int| 0 <= m < k ==> ascii_lower(#[trigger] line[m]) == content_length_name()[m],
        decreases 14 - k,
    {
        let b = d[start + k];
        assert(line[k as int] == b);
        let lower = if 65u8 <= b && b <= 90u8 { b + 32u8 } else { b };
        if lower != name[k] {
            return None;
        }
        k = k + 1;
    }
    assert(names_content_length(line));
    // strip `:` and spaces
    let mut i = start + 14;
    assert(line.skip(14) =~= d@.subrange(i as int, end as int));
    while i < end && (d[i] == 58u8 || d[i] == 32u8)
        invariant
            start + 14 <= i <= end <= d@.len(),
            line == d@.subrange(start as int, end as int),
            strip_colon_space(line.skip(14)) == strip_colon_space(d@.subrange(i as int, end as int)),
        decreases end - i,
    {
        assert(d@.subrange(i as int, end as int)[0] == d@[i as int]);
        assert(d@.subrange(i as int, end as int).drop_first() =~= d@.subrange(i + 1, end as int));
        i = i + 1;
    }
    proof {
        if i < end {
            assert(d@.subrange(i as int, end as int)[0] == d@[i as int]);
        }
    }
    let ghost stripped = d@.subrange(i as int, end as int);
    assert(strip_colon_space(line.skip(14)) == stripped);
    // trim leading white space
    loop
        invariant
            i <= end <= d@.len(),
            trim_start_ws(stripped) == trim_start_ws(d@.subrange(i as int, end as int)),
        ensures
            i <= end,
            trim_start_ws(stripped) == trim_start_ws(d@.subrange(i as int, end as int)),
            ws_prefix_len(d@.subrange(i as int, end as int)) == 0,
        decreases end - i,
    {
        let w = ws_prefix_at(d, i, end);
        if w == 0 {
            break;
        }
        assert(d@.subrange(i as int, end as int).skip(w as int) =~= d@.subrange(i + w, end as int));
        i = i + w;
    }
    let ghost started = d@.subrange(i as int, end as int);
    assert(trim_start_ws(stripped) == started);
    // trim trailing white space
    let mut j = end;
    loop
        invariant
            i <= j <= end <= d@.len(),
            trim_end_ws(started) == trim_end_ws(d@.subrange(i as int, j as int)),
        ensures
            i <= j <= end,
            trim_end_ws(started) == trim_end_ws(d@.subrange(i as int, j as int)),
            ws_suffix_len(d@.subrange(i as int, j as int)) == 0,
        decreases j - i,
    {
        let w = ws_suffix_at(d, i, j);
        if w == 0 {
            break;
        }
        assert(d@.subrange(i as int, j as int).take(j - i - w) =~= d@.subrange(i as int, j - w));
        j = j - w;
    }
    assert(trim_end_ws(started) == d@.subrange(i as int, j as int));
    parse_usize_at(d, i, j)
}

/// Decodes one frame from the start of `d`.
fn decode(d: &Vec<u8>) -> (r: Decoded)
    ensures
        match r {
            Decoded::Frame { start, len } => start + len <= d@.len() && decode_frame(d@)
                == (FrameStep::Frame { body: d@.subrange(start as int, start + len), used: (start + len) as nat }),
            Decoded::CleanEnd => decode_frame(d@) == FrameStep::CleanEnd,
            Decoded::EofInHeaders => decode_frame(d@) == FrameStep::EofInHeaders,
            Decoded::MissingContentLength => decode_frame(d@) == FrameStep::MissingContentLength,
            Decoded::TruncatedBody => decode_frame(d@) == FrameStep::TruncatedBody,
        },
{
    let len = d.len();
    let mut pos: usize = 0;
    let mut cl: Option<usize> = None;
    let mut saw = false;
    loop
        invariant
            pos <= len,
            len == d@.len(),
            decode_frame(d@) == decode_headers(d@, pos as int, match cl {
                Some(v) => Some(v as nat),
                None => None,
            }, saw),
        decreases len - pos,
    {
        if pos >= len {
            return if saw { Decoded::EofInHeaders } else { Decoded::CleanEnd };
        }
        match find_line_end(d, pos) {
            None => {
                return Decoded::EofInHeaders;
            },
            Some(e) => {
                proof {
                    lemma_line_end(d@, pos as int);
                }
                if e == pos {
                    match cl {
                        None => {
                            return Decoded::MissingContentLength;
                        },
                        Some(n) => {
                            if len - (pos + 2) >= n {
                                return Decoded::Frame { start: pos + 2, len: n };
                            } else {
                                return Decoded::TruncatedBody;
                            }
                        },
                    }
                }
                let v = header_value(d, pos, e);
                if v.is_some() {
                    cl = v;
                }
                pos = e + 2;
                saw = true;
            },
        }
    }
}

/// Decoder of framed messages over the bytes received so far.
pub struct FrameReader {
    pending: Vec<u8>,
    closed: bool,
}

impl View for FrameReader {
    /// The bytes received and not yet consumed, and whether the stream has ended.
    type V = (Seq<u8>, bool);

    closed spec fn view(&self) -> (Seq<u8>, bool) {
        (self.pending@, self.closed)
    }
}

impl FrameReader {
    /// A reader over a complete stream: `data` is all there is to read.
    pub fn new(data: Vec<u8>) -> (r: Self)
        ensures
            r@ == (data@, true),
    {
        FrameReader { pending: data, closed: true }
    }

    /// A reader over a stream whose bytes arrive later, through [`Self::feed`].
    pub fn streaming() -> (r: Self)
        ensures
            r@ == (Seq::<u8>::empty(), false),
    {
        FrameReader { pending: Vec::new(), closed: false }
    }

    /// Appends newly received bytes.
    pub fn feed(&mut self, bytes: &[u8])
        ensures
            final(self)@ == (old(self)@.0 + bytes@, old(self)@.1),
    {
        let mut i: usize = 0;
        while i < bytes.len()
            invariant
                i <= bytes@.len(),
                self.pending@ == old(self).pending@ + bytes@.subrange(0, i as int),
                self.closed == old(self).closed,
            decreases bytes@.len() - i,
        {
            self.pending.push(bytes[i]);
            i = i + 1;
        }
        assert(bytes@.subrange(0, bytes@.len() as int) =~= bytes@);
    }

    /// Marks the end of the stream.
    pub fn close(&mut self)
        ensures
            final(self)@ == (old(self)@.0, true),
    {
        self.closed = true;
    }

    /// Reads one frame body. `Ok(None)` means the stream ended cleanly
    /// before any byte of a frame. A returned frame's bytes are consumed;
    /// otherwise nothing is.
    pub fn read_frame(&mut self) -> (r: Result<Option<Vec<u8>>, FrameError>)
        ensures
            final(self)@ == (remaining_after(old(self)@.0), old(self)@.1),
            match r {
                Ok(Some(body)) => read_result(old(self)@.0, old(self)@.1) == Ok::<Option<Seq<u8>>, FrameError>(Some(body@)),
                Ok(None) => read_result(old(self)@.0, old(self)@.1) == Ok::<Option<Seq<u8>>, FrameError>(None),
                Err(e) => read_result(old(self)@.0, old(self)@.1) == Err::<Option<Seq<u8>>, FrameError>(e),
            },
    {
        match decode(&self.pending) {
            Decoded::Frame { start, len } => {
                let total = self.pending.len();
                assert(start + len <= total);
                let mut consumed = self.pending.split_off(start + len);
                std::mem::swap(&mut consumed, &mut self.pending);
                let body = consumed.split_off(start);
                assert(body@ =~= old(self).pending@.subrange(start as int, start + len));
                assert(old(self).pending@.skip((start + len) as int) =~= self.pending@);
                Ok(Some(body))
            },
            Decoded::CleanEnd => if self.closed { Ok(None) } else { Err(FrameError::NeedMoreInput) },
            Decoded::EofInHeaders => if self.closed {
                Err(FrameError::EofInHeaders)
            } else {
                Err(FrameError::NeedMoreInput)
            },
            Decoded::MissingContentLength => Err(FrameError::MissingContentLength),
            Decoded::TruncatedBody => if self.closed {
                Err(FrameError::TruncatedBody)
            } else {
                Err(FrameError::NeedMoreInput)
            },
        }
    }
}

// ---------------------------------------------------------------------------
// Encoding
// ---------------------------------------------------------------------------

/// Appends the decimal digits of `n`.
fn push_decimal(out: &mut Vec<u8>, n: usize)
    ensures
        final(out)@ == old(out)@ + decimal(n as nat),
    decreases n,
{
    if n >= 10 {
        push_decimal(out, n / 10);
    }
    out.push((48 + n % 10) as u8);
    assert(out@ =~= old(out)@ + decimal(n as nat));
}

/// Appends `bytes` to `out`.
fn push_all(out: &mut Vec<u8>, bytes: &[u8])
    ensures
        final(out)@ == old(out)@ + bytes@,
{
    let mut i: usize = 0;
    while i < bytes.len()
        invariant
            i <= bytes@.len(),
            out@ == old(out)@ + bytes@.subrange(0, i as int),
        decreases bytes@.len() - i,
    {
        out.push(bytes[i]);
        i = i + 1;
    }
    assert(bytes@.subrange(0, bytes@.len() as int) =~= bytes@);
}

/// Writes one framed message: the `Content-Length` header, a blank line and the body.
pub fn write_frame(writer: &mut Vec<u8>, body: &[u8])
    ensures
        final(writer)@ == old(writer)@ + frame_bytes(body@),
{
    let prefix: Vec<u8> = vec![67u8, 111u8, 110u8, 116u8, 101u8, 110u8, 116u8, 45u8, 76u8, 101u8, 110u8, 103u8, 116u8, 104u8, 58u8, 32u8];
    assert(prefix@ =~= header_prefix());
    push_all(writer, &prefix);
    push_decimal(writer, body.len());
    let end: Vec<u8> = vec![13u8, 10u8, 13u8, 10u8];
    assert(end@ =~= header_end());
    push_all(writer, &end);
    push_all(writer, body);
    assert(writer@ =~= old(writer)@ + frame_bytes(body@));
}

// ---------------------------------------------------------------------------
// Laws
// ---------------------------------------------------------------------------

/// Digits of `decimal(n)` read back as `n`.
proof fn lemma_decimal(n: nat)
    ensures
        decimal(n).len() >= 1,
        all_digits(decimal(n)),
        digits_value(decimal(n)) == n,
    decreases n,
{
    let d = decimal(n);
    if n < 10 {
        assert(d.drop_last() =~= Seq::<u8>::empty());
        assert(d.last() == (48 + n) as u8);
        assert(digits_value(d) == digits_value(d.drop_last()) * 10 + (d.last() - 48) as nat);
    } else {
        lemma_decimal(n / 10);
        assert(d.drop_last() =~= decimal(n / 10));
        assert(d.last() == (48 + n % 10) as u8);
        assert(digits_value(d) == digits_value(d.drop_last()) * 10 + (d.last() - 48) as nat);
        assert((n / 10) * 10 + n % 10 == n);
        assert forall|i: int| 0 <= i < d.len() implies is_digit(#[trigger] d[i]) by {
            if i < d.len() - 1 {
                assert(d[i] == decimal(n / 10)[i]);
            }
        }
    }
}

/// `line_end` from `from` is `e` when `e` holds the first `\r` at or after `from`
/// and a `\r\n` starts there.
proof fn lemma_line_end_at(d: Seq<u8>, from: int, e: int)
    requires
        0 <= from <= e,
        crlf_at(d, e),
        forall|j: int| from <= j < e ==> d[j] != 13u8,
    ensures
        line_end(d, from) == e,
    decreases e - from,
{
    if from < e {
        lemma_line_end_at(d, from + 1, e);
    }
}

/// A digit sequence is left unchanged by every trimming step of the header value.
proof fn lemma_digits_untrimmed(s: Seq<u8>)
    requires
        s.len() >= 1,
        all_digits(s),
    ensures
        strip_colon_space(s) == s,
        trim_start_ws(s) == s,
        trim_end_ws(s) == s,
        parse_usize_text(s) == (if digits_value(s) <= usize::MAX { Some(digits_value(s)) } else { None::<nat> }),
{
    assert(is_digit(s[0]));
    assert(is_digit(s[s.len() - 1]));
    if s.len() >= 2 {
        assert(is_digit(s[s.len() - 2]));
    }
    if s.len() >= 3 {
        assert(is_digit(s[s.len() - 3]));
    }
}

/// A frame written by [`write_frame`] is read back by [`FrameReader::read_frame`]
/// whole and unchanged, whatever follows it in the stream, and exactly its
/// bytes are consumed.
pub proof fn lemma_frame_roundtrip(body: Seq<u8>, rest: Seq<u8>, closed: bool)
    requires
        body.len() <= usize::MAX,
    ensures
        decode_frame(frame_bytes(body) + rest) == (FrameStep::Frame { body, used: frame_bytes(body).len() }),
        read_result(frame_bytes(body) + rest, closed) == Ok::<Option<Seq<u8>>, FrameError>(Some(body)),
        remaining_after(frame_bytes(body) + rest) == rest,
{
    let dec = decimal(body.len());
    lemma_decimal(body.len());
    let p = header_prefix();
    let d = frame_bytes(body) + rest;
    let e: int = 16 + dec.len() as int;
    let n: int = body.len() as int;
    assert(d.len() == e + 4 + n + rest.len());
    assert forall|k: int| 0 <= k < 16 implies #[trigger] d[k] == p[k] by {}
    assert forall|k: int| 16 <= k < e implies #[trigger] d[k] == dec[k - 16] by {}
    assert(d[e] == 13u8 && d[e + 1] == 10u8 && d[e + 2] == 13u8 && d[e + 3] == 10u8);
    assert forall|j: int| 0 <= j < e implies d[j] != 13u8 by {
        if j < 16 {
            assert(d[j] == p[j]);
        } else {
            assert(d[j] == dec[j - 16]);
            assert(is_digit(dec[j - 16]));
        }
    }
    lemma_line_end_at(d, 0, e);
    let line = d.subrange(0, e);
    assert(line =~= p + dec);
    assert(names_content_length(line)) by {
        assert forall|i: int| 0 <= i < 14 implies ascii_lower(#[trigger] line[i]) == content_length_name()[i] by {
            assert(line[i] == p[i]);
        }
    }
    let after = line.skip(14);
    assert(after =~= seq![58u8, 32u8] + dec);
    assert(after.drop_first().drop_first() =~= dec);
    lemma_digits_untrimmed(dec);
    assert(after[0] == 58u8);
    assert(after.drop_first()[0] == 32u8);
    assert(strip_colon_space(after) == strip_colon_space(after.drop_first()));
    assert(strip_colon_space(after.drop_first()) == strip_colon_space(after.drop_first().drop_first()));
    assert(strip_colon_space(after) == dec);
    assert(header_content_length(line) == Some(body.len()));
    assert(crlf_at(d, e + 2));
    lemma_line_end_at(d, e + 2, e + 2);
    assert(d.subrange(e + 4, e + 4 + n) =~= body);
    assert(decode_headers(d, e + 2, Some(body.len()), true) == (FrameStep::Frame { body, used: (e + 4 + n) as nat }));
    assert(d.skip(e + 4 + n) =~= rest);
}

/// A `\r\n` found within `d` is still the first one once more bytes follow.
proof fn lemma_line_end_extend(d: Seq<u8>, more: Seq<u8>, from: int)
    requires
        line_end(d, from) >= 0,
    ensures
        line_end(d + more, from) == line_end(d, from),
    decreases d.len() - from,
{
    if from < 0 || from + 1 >= d.len() {
    } else if crlf_at(d, from) {
        assert(crlf_at(d + more, from));
    } else {
        assert(!crlf_at(d + more, from));
        lemma_line_end_extend(d, more, from + 1);
    }
}

proof fn lemma_decode_headers_extend(d: Seq<u8>, more: Seq<u8>, pos: int, cl: Option<nat>, saw: bool)
    requires
        decode_headers(d, pos, cl, saw) is Frame || decode_headers(d, pos, cl, saw) is MissingContentLength,
    ensures
        decode_headers(d + more, pos, cl, saw) == decode_headers(d, pos, cl, saw),
    decreases d.len() - pos,
{
    let dm = d + more;
    lemma_line_end(d, pos);
    let e = line_end(d, pos);
    lemma_line_end_extend(d, more, pos);
    if e == pos {
        match cl {
            None => {},
            Some(n) => {
                assert(dm.subrange(pos + 2, pos + 2 + n) =~= d.subrange(pos + 2, pos + 2 + n));
            },
        }
    } else {
        assert(dm.subrange(pos, e) =~= d.subrange(pos, e));
        lemma_decode_headers_extend(d, more, e + 2, next_content_length(cl, d.subrange(pos, e)), true);
    }
}

/// Once the bytes received decide a frame (or that its headers lack a
/// `Content-Length`), more input never changes that outcome: reading from a
/// stream fed piecewise gives what reading it whole gives.
pub proof fn lemma_decode_prefix_stable(d: Seq<u8>, more: Seq<u8>)
    requires
        decode_frame(d) is Frame || decode_frame(d) is MissingContentLength,
    ensures
        decode_frame(d + more) == decode_frame(d),
{
    lemma_decode_headers_extend(d, more, 0, None, false);
}

/// The bytes of frames written one after another with [`write_frame`].
pub open spec fn frames_bytes(bodies: Seq<Seq<u8>>) -> Seq<u8>
    decreases bodies.len(),
{
    if bodies.len() == 0 {
        Seq::empty()
    } else {
        frame_bytes(bodies[0]) + frames_bytes(bodies.drop_first())
    }
}

/// The pending bytes after `k` calls of [`FrameReader::read_frame`] on `d`.
pub open spec fn pending_after(d: Seq<u8>, k: nat) -> Seq<u8>
    decreases k,
{
    if k == 0 {
        d
    } else {
        remaining_after(pending_after(d, (k - 1) as nat))
    }
}

proof fn lemma_pending_frames(bodies: Seq<Seq<u8>>, k: nat)
    requires
        k <= bodies.len(),
        forall|i: int| 0 <= i < bodies.len() ==> #[trigger] bodies[i].len() <= usize::MAX,
    ensures
        pending_after(frames_bytes(bodies), k) == frames_bytes(bodies.skip(k as int)),
    decreases k,
{
    if k == 0 {
        assert(bodies.skip(0) =~= bodies);
    } else {
        let j = (k - 1) as nat;
        lemma_pending_frames(bodies, j);
        let t = bodies.skip(j as int);
        assert(t[0] == bodies[j as int]);
        assert(t.drop_first() =~= bodies.skip(k as int));
        assert(frames_bytes(t) == frame_bytes(t[0]) + frames_bytes(t.drop_first()));
        lemma_frame_roundtrip(t[0], frames_bytes(t.drop_first()), true);
    }
}

/// Frames written one after another are read back one per call, in order
/// and unchanged, each call consuming exactly one frame; once all are read,
/// nothing is left and a closed stream reports its clean end.
pub proof fn lemma_frames_roundtrip(bodies: Seq<Seq<u8>>, closed: bool)
    requires
        forall|i: int| 0 <= i < bodies.len() ==> #[trigger] bodies[i].len() <= usize::MAX,
    ensures
        forall|k: nat| k < bodies.len() ==> read_result(#[trigger] pending_after(frames_bytes(bodies), k), closed)
            == Ok::<Option<Seq<u8>>, FrameError>(Some(bodies[k as int])),
        pending_after(frames_bytes(bodies), bodies.len()) == Seq::<u8>::empty(),
        read_result(pending_after(frames_bytes(bodies), bodies.len()), true) == Ok::<Option<Seq<u8>>, FrameError>(None),
{
    assert forall|k: nat| k < bodies.len() implies read_result(#[trigger] pending_after(frames_bytes(bodies), k), closed)
        == Ok::<Option<Seq<u8>>, FrameError>(Some(bodies[k as int])) by {
        lemma_pending_frames(bodies, k);
        let t = bodies.skip(k as int);
        assert(t[0] == bodies[k as int]);
        assert(frames_bytes(t) == frame_bytes(t[0]) + frames_bytes(t.drop_first()));
        lemma_frame_roundtrip(t[0], frames_bytes(t.drop_first()), closed);
    }
    lemma_pending_frames(bodies, bodies.len());
    assert(bodies.skip(bodies.len() as int) =~= Seq::<Seq<u8>>::empty());
    assert(frames_bytes(Seq::<Seq<u8>>::empty()) =~= Seq::<u8>::empty());
}

/// Writing one more frame appends its bytes: the stream built by successive
/// [`write_frame`] calls on an empty buffer is [`frames_bytes`] of the bodies.
pub proof fn lemma_frames_bytes_push(bodies: Seq<Seq<u8>>, body: Seq<u8>)
    ensures
        frames_bytes(bodies.push(body)) == frames_bytes(bodies) + frame_bytes(body),
    decreases bodies.len(),
{
    if bodies.len() == 0 {
        let one = bodies.push(body);
        assert(one.drop_first() =~= Seq::<Seq<u8>>::empty());
        assert(one[0] == body);
        assert(frames_bytes(one.drop_first()) == Seq::<u8>::empty());
        assert(frames_bytes(one) == frame_bytes(one[0]) + frames_bytes(one.drop_first()));
        assert(frames_bytes(one) =~= frame_bytes(body));
        assert(frames_bytes(bodies) + frame_bytes(body) =~= frame_bytes(body));
    } else {
        lemma_frames_bytes_push(bodies.drop_first(), body);
        assert(bodies.push(body).drop_first() =~= bodies.drop_first().push(body));
        assert(bodies.push(body)[0] == bodies[0]);
        assert(frames_bytes(bodies.push(body)) =~= frames_bytes(bodies) + frame_bytes(body));
    }
}

} // verus!
