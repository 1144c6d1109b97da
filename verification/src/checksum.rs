//! The NMEA 0183 checksum: the XOR of every byte between the leading `$`/`!`
//! and the `*`, written after the `*` as hexadecimal.
//!
//! Everything here works on the UTF-8 bytes of the line, which is what the
//! checksum is defined over.

use vstd::prelude::*;
use vstd::string::StringSliceAdditionalSpecFns;

verus! {

/// Result of validating a line's `*HH` checksum.
#[derive(Debug, Clone, Copy, PartialEq, Eq, Structural)]
pub enum ChecksumResult {
    Valid,
    Mismatch { expected: u8, computed: u8 },
    /// No `*HH` suffix at all. Some receivers omit it; the sentence is still
    /// parseable, just unverified.
    Absent,
}

/// `$` or `!`.
pub open spec fn is_sentence_marker(b: u8) -> bool {
    b == 36 || b == 33
}

/// `\r` or `\n`.
pub open spec fn is_line_break(b: u8) -> bool {
    b == 13 || b == 10
}

pub open spec fn is_star(b: u8) -> bool {
    b == 42
}

/// Every leading `$` and `!` removed.
pub open spec fn strip_markers(s: Seq<u8>) -> Seq<u8>
    decreases s.len(),
{
    if s.len() > 0 && is_sentence_marker(s[0]) {
        strip_markers(s.drop_first())
    } else {
        s
    }
}

/// Every trailing `\r` and `\n` removed.
pub open spec fn strip_breaks(s: Seq<u8>) -> Seq<u8>
    decreases s.len(),
{
    if s.len() > 0 && is_line_break(s.last()) {
        strip_breaks(s.drop_last())
    } else {
        s
    }
}

/// Index of the last `*`, or -1 when there is none.
pub open spec fn last_star(s: Seq<u8>) -> int
    decreases s.len(),
{
    if s.len() == 0 {
        -1
    } else if is_star(s.last()) {
        s.len() - 1
    } else {
        last_star(s.drop_last())
    }
}

/// XOR of all bytes, starting from zero.
pub open spec fn xor_all(s: Seq<u8>) -> u8
    decreases s.len(),
{
    if s.len() == 0 {
        0
    } else {
        xor_all(s.drop_last()) ^ s.last()
    }
}

/// Width in bytes of the whitespace character that `s` starts with, or 0.
///
/// These are the UTF-8 encodings of exactly the characters for which
/// `char::is_whitespace` holds: U+0009..=U+000D, U+0020, U+0085, U+00A0,
/// U+1680, U+2000..=U+200A, U+2028, U+2029, U+202F, U+205F and U+3000.
pub open spec fn leading_space_width(s: Seq<u8>) -> int {
    if s.len() >= 1 && ((9 <= s[0] <= 13) || s[0] == 32) {
        1
    } else if s.len() >= 2 && s[0] == 0xC2 && (s[1] == 0x85 || s[1] == 0xA0) {
        2
    } else if s.len() >= 3 && is_three_byte_space(s[0], s[1], s[2]) {
        3
    } else {
        0
    }
}

/// Width in bytes of the whitespace character that `s` ends with, or 0.
pub open spec fn trailing_space_width(s: Seq<u8>) -> int {
    let n = s.len() as int;
    if n >= 1 && ((9 <= s[n - 1] <= 13) || s[n - 1] == 32) {
        1
    } else if n >= 2 && s[n - 2] == 0xC2 && (s[n - 1] == 0x85 || s[n - 1] == 0xA0) {
        2
    } else if n >= 3 && is_three_byte_space(s[n - 3], s[n - 2], s[n - 1]) {
        3
    } else {
        0
    }
}

pub open spec fn is_three_byte_space(a: u8, b: u8, c: u8) -> bool {
    ||| (a == 0xE1 && b == 0x9A && c == 0x80)
    ||| (a == 0xE2 && b == 0x80 && ((0x80 <= c <= 0x8A) || c == 0xA8 || c == 0xA9 || c == 0xAF))
    ||| (a == 0xE2 && b == 0x81 && c == 0x9F)
    ||| (a == 0xE3 && b == 0x80 && c == 0x80)
}

pub open spec fn trim_start_spaces(s: Seq<u8>) -> Seq<u8>
    decreases s.len(),
{
    let w = leading_space_width(s);
    if w > 0 {
        trim_start_spaces(s.subrange(w, s.len() as int))
    } else {
        s
    }
}

pub open spec fn trim_end_spaces(s: Seq<u8>) -> Seq<u8>
    decreases s.len(),
{
    let w = trailing_space_width(s);
    if w > 0 {
        trim_end_spaces(s.subrange(0, s.len() - w))
    } else {
        s
    }
}

/// `str::trim` on the bytes of UTF-8 text.
pub open spec fn trim_spaces(s: Seq<u8>) -> Seq<u8> {
    trim_end_spaces(trim_start_spaces(s))
}

pub open spec fn is_hex_digit(b: u8) -> bool {
    (48 <= b <= 57) || (65 <= b <= 70) || (97 <= b <= 102)
}

pub open spec fn hex_digit_value(b: u8) -> int {
    if 48 <= b <= 57 {
        b - 48
    } else if 65 <= b <= 70 {
        b - 55
    } else {
        b - 87
    }
}

pub open spec fn all_hex_digits(s: Seq<u8>) -> bool {
    forall|i: int| 0 <= i < s.len() ==> is_hex_digit(#[trigger] s[i])
}

/// Value of a string of hexadecimal digits, most significant first.
pub open spec fn hex_value(s: Seq<u8>) -> nat
    decreases s.len(),
{
    if s.len() == 0 {
        0
    } else {
        (hex_value(s.drop_last()) * 16 + hex_digit_value(s.last())) as nat
    }
}

/// What `u8::from_str_radix(s, 16)` returns: an optional `+` sign, then one
/// or more hexadecimal digits whose value fits in a byte.
pub open spec fn parse_hex_byte(s: Seq<u8>) -> Option<u8> {
    if s.len() > 0 && s[0] == 43 {
        hex_digits_byte(s.drop_first())
    } else {
        hex_digits_byte(s)
    }
}

/// One or more hexadecimal digits whose value fits in a byte.
pub open spec fn hex_digits_byte(digits: Seq<u8>) -> Option<u8> {
    if digits.len() > 0 && all_hex_digits(digits) && hex_value(digits) <= 255 {
        Some(hex_value(digits) as u8)
    } else {
        None
    }
}

/// The whole check, over the bytes of a raw line.
pub open spec fn checksum_result(line: Seq<u8>) -> ChecksumResult {
    let body = strip_breaks(strip_markers(line));
    let star = last_star(body);
    if star < 0 {
        ChecksumResult::Absent
    } else {
        let computed = xor_all(body.subrange(0, star));
        match parse_hex_byte(trim_spaces(body.subrange(star + 1, body.len() as int))) {
            Some(expected) => if expected == computed {
                ChecksumResult::Valid
            } else {
                ChecksumResult::Mismatch { expected, computed }
            },
            None => ChecksumResult::Mismatch { expected: 0, computed },
        }
    }
}

/// Validate the XOR checksum of a raw NMEA line.
///
/// The checksum covers every byte between the leading `$`/`!` and the last
/// `*`. A checksum field that is not hexadecimal reports as a mismatch against
/// an expected value of zero.
pub fn verify_checksum(line: &str) -> (r: ChecksumResult)
    ensures
        r == checksum_result(line.spec_bytes()),
{
    let bytes = line.as_bytes();
    let ghost b = bytes@;
    let (start, end) = frame_bounds(bytes);
    let ghost body = b.subrange(start as int, end as int);
    let star = match last_star_in(bytes, start, end) {
        None => return ChecksumResult::Absent,
        Some(star) => star,
    };
    let computed = xor_range(bytes, start, star);
    assert(body.subrange(0, star - start) =~= b.subrange(start as int, star as int));
    let (lo, hi) = trim_range(bytes, star + 1, end);
    assert(body.subrange(star - start + 1, body.len() as int) =~= b.subrange(
        star + 1,
        end as int,
    ));
    match parse_hex(bytes, lo, hi) {
        Some(expected) => {
            if expected == computed {
                ChecksumResult::Valid
            } else {
                ChecksumResult::Mismatch { expected, computed }
            }
        },
        None => ChecksumResult::Mismatch { expected: 0, computed },
    }
}

/// The line with its leading `$`/`!` and trailing line breaks cut off.
fn frame_bounds(bytes: &[u8]) -> (r: (usize, usize))
    ensures
        r.0 <= r.1 <= bytes@.len(),
        strip_breaks(strip_markers(bytes@)) == bytes@.subrange(r.0 as int, r.1 as int),
{
    let n = bytes.len();
    let ghost b = bytes@;
    let mut start: usize = 0;
    assert(b.subrange(0, n as int) =~= b);
    while start < n && (bytes[start] == 36 || bytes[start] == 33)
        invariant
            start <= n,
            n == b.len(),
            b == bytes@,
            strip_markers(b) == strip_markers(b.subrange(start as int, n as int)),
        decreases n - start,
    {
        assert(b.subrange(start as int, n as int).drop_first() =~= b.subrange(
            start + 1,
            n as int,
        ));
        start += 1;
    }
    assert(strip_markers(b) =~= b.subrange(start as int, n as int));

    let mut end: usize = n;
    while end > start && (bytes[end - 1] == 13 || bytes[end - 1] == 10)
        invariant
            start <= end <= n,
            n == b.len(),
            b == bytes@,
            strip_breaks(b.subrange(start as int, n as int)) == strip_breaks(
                b.subrange(start as int, end as int),
            ),
        decreases end,
    {
        assert(b.subrange(start as int, end as int).drop_last() =~= b.subrange(
            start as int,
            end - 1,
        ));
        end -= 1;
    }
    assert(strip_breaks(b.subrange(start as int, end as int)) =~= b.subrange(
        start as int,
        end as int,
    ));
    (start, end)
}

/// Position of the last `*` in `bytes[start..end]`.
fn last_star_in(bytes: &[u8], start: usize, end: usize) -> (r: Option<usize>)
    requires
        start <= end <= bytes@.len(),
    ensures
        match r {
            None => last_star(bytes@.subrange(start as int, end as int)) < 0,
            Some(k) => start <= k < end && last_star(bytes@.subrange(start as int, end as int))
                == k - start,
        },
{
    let ghost b = bytes@;
    let mut k: usize = end;
    while k > start && bytes[k - 1] != 42
        invariant
            start <= k <= end <= b.len(),
            b == bytes@,
            last_star(b.subrange(start as int, end as int)) == last_star(
                b.subrange(start as int, k as int),
            ),
        decreases k,
    {
        assert(b.subrange(start as int, k as int).drop_last() =~= b.subrange(
            start as int,
            k - 1,
        ));
        k -= 1;
    }
    if k == start {
        assert(b.subrange(start as int, k as int).len() == 0);
        None
    } else {
        Some(k - 1)
    }
}

/// XOR of `bytes[lo..hi]`.
fn xor_range(bytes: &[u8], lo: usize, hi: usize) -> (r: u8)
    requires
        lo <= hi <= bytes@.len(),
    ensures
        r == xor_all(bytes@.subrange(lo as int, hi as int)),
{
    let ghost b = bytes@;
    let mut computed: u8 = 0;
    let mut i: usize = lo;
    assert(b.subrange(lo as int, lo as int) =~= Seq::<u8>::empty());
    while i < hi
        invariant
            lo <= i <= hi <= b.len(),
            b == bytes@,
            computed == xor_all(b.subrange(lo as int, i as int)),
        decreases hi - i,
    {
        assert(b.subrange(lo as int, i + 1).drop_last() =~= b.subrange(lo as int, i as int));
        computed = computed ^ bytes[i];
        i += 1;
    }
    computed
}

/// `bytes[lo..hi]` with surrounding whitespace cut off.
fn trim_range(bytes: &[u8], lo: usize, hi: usize) -> (r: (usize, usize))
    requires
        lo <= hi <= bytes@.len(),
    ensures
        lo <= r.0 <= r.1 <= hi,
        trim_spaces(bytes@.subrange(lo as int, hi as int)) == bytes@.subrange(
            r.0 as int,
            r.1 as int,
        ),
{
    let ghost b = bytes@;
    let end = hi;
    let mut lo2: usize = lo;
    assert(b.subrange(lo as int, end as int) =~= b.subrange(lo2 as int, end as int));
    while lo2 < end && leading_space(bytes, lo2, end) > 0
        invariant
            lo <= lo2 <= end <= b.len(),
            b == bytes@,
            trim_start_spaces(b.subrange(lo as int, end as int)) == trim_start_spaces(
                b.subrange(lo2 as int, end as int),
            ),
        decreases end - lo2,
    {
        let w = leading_space(bytes, lo2, end);
        assert(b.subrange(lo2 as int, end as int).subrange(w as int, end - lo2) =~= b.subrange(
            lo2 + w,
            end as int,
        ));
        lo2 += w;
    }
    assert(trim_start_spaces(b.subrange(lo as int, end as int)) =~= b.subrange(
        lo2 as int,
        end as int,
    ));
    let mut hi2: usize = end;
    while hi2 > lo2 && trailing_space(bytes, lo2, hi2) > 0
        invariant
            lo2 <= hi2 <= end <= b.len(),
            b == bytes@,
            trim_end_spaces(b.subrange(lo2 as int, end as int)) == trim_end_spaces(
                b.subrange(lo2 as int, hi2 as int),
            ),
        decreases hi2,
    {
        let w = trailing_space(bytes, lo2, hi2);
        assert(b.subrange(lo2 as int, hi2 as int).subrange(0, hi2 - lo2 - w) =~= b.subrange(
            lo2 as int,
            hi2 - w,
        ));
        hi2 -= w;
    }
    assert(trim_end_spaces(b.subrange(lo2 as int, hi2 as int)) =~= b.subrange(
        lo2 as int,
        hi2 as int,
    ));
    (lo2, hi2)
}

fn leading_space(bytes: &[u8], lo: usize, hi: usize) -> (w: usize)
    requires
        lo <= hi <= bytes@.len(),
    ensures
        w == leading_space_width(bytes@.subrange(lo as int, hi as int)),
        w <= hi - lo,
{
    let ghost s = bytes@.subrange(lo as int, hi as int);
    let len = hi - lo;
    if len >= 1 && ((9 <= bytes[lo] && bytes[lo] <= 13) || bytes[lo] == 32) {
        1
    } else if len >= 2 && bytes[lo] == 0xC2 && (bytes[lo + 1] == 0x85 || bytes[lo + 1] == 0xA0) {
        2
    } else if len >= 3 && three_byte_space(bytes[lo], bytes[lo + 1], bytes[lo + 2]) {
        3
    } else {
        0
    }
}

fn trailing_space(bytes: &[u8], lo: usize, hi: usize) -> (w: usize)
    requires
        lo <= hi <= bytes@.len(),
    ensures
        w == trailing_space_width(bytes@.subrange(lo as int, hi as int)),
        w <= hi - lo,
{
    let len = hi - lo;
    if len >= 1 && ((9 <= bytes[hi - 1] && bytes[hi - 1] <= 13) || bytes[hi - 1] == 32) {
        1
    } else if len >= 2 && bytes[hi - 2] == 0xC2 && (bytes[hi - 1] == 0x85 || bytes[hi - 1] == 0xA0) {
        2
    } else if len >= 3 && three_byte_space(bytes[hi - 3], bytes[hi - 2], bytes[hi - 1]) {
        3
    } else {
        0
    }
}

fn three_byte_space(a: u8, b: u8, c: u8) -> (r: bool)
    ensures
        r == is_three_byte_space(a, b, c),
{
    (a == 0xE1 && b == 0x9A && c == 0x80) || (a == 0xE2 && b == 0x80 && ((0x80 <= c && c <= 0x8A)
        || c == 0xA8 || c == 0xA9 || c == 0xAF)) || (a == 0xE2 && b == 0x81 && c == 0x9F) || (a
        == 0xE3 && b == 0x80 && c == 0x80)
}

/// `u8::from_str_radix(field, 16)` on `bytes[lo..hi]`.
fn parse_hex(bytes: &[u8], lo: usize, hi: usize) -> (r: Option<u8>)
    requires
        lo <= hi <= bytes@.len(),
    ensures
        r == parse_hex_byte(bytes@.subrange(lo as int, hi as int)),
{
    let ghost s = bytes@.subrange(lo as int, hi as int);
    let mut first = lo;
    if hi > lo && bytes[lo] == 43 {
        first = lo + 1;
        assert(s[0] == bytes[lo as int]);
        assert(s.drop_first() =~= bytes@.subrange(first as int, hi as int));
    } else {
        assert(s.len() > 0 ==> s[0] == bytes[lo as int]);
        assert(s =~= bytes@.subrange(first as int, hi as int));
    }
    let ghost digits = bytes@.subrange(first as int, hi as int);
    if first == hi {
        return None;
    }
    // Saturating at 256 keeps the running value bounded while still telling
    // "fits in a byte" apart from "does not".
    let mut value: u32 = 0;
    let mut i = first;
    while i < hi
        invariant
            first <= i <= hi <= bytes@.len(),
            digits == bytes@.subrange(first as int, hi as int),
            digits.len() > 0,
            parse_hex_byte(bytes@.subrange(lo as int, hi as int)) == hex_digits_byte(digits),
            all_hex_digits(bytes@.subrange(first as int, i as int)),
            value == if hex_value(bytes@.subrange(first as int, i as int)) <= 256 {
                hex_value(bytes@.subrange(first as int, i as int))
            } else {
                256
            },
        decreases hi - i,
    {
        let c = bytes[i];
        let d: u32 = if 48 <= c && c <= 57 {
            (c - 48) as u32
        } else if 65 <= c && c <= 70 {
            (c - 55) as u32
        } else if 97 <= c && c <= 102 {
            (c - 87) as u32
        } else {
            proof {
                assert(digits[i - first] == c);
                assert(!is_hex_digit(digits[i - first]));
            }
            return None;
        };
        let ghost prefix = bytes@.subrange(first as int, i + 1);
        assert(prefix.drop_last() =~= bytes@.subrange(first as int, i as int));
        let next = value * 16 + d;
        value = if next > 256 {
            256
        } else {
            next
        };
        i += 1;
    }
    assert(digits =~= bytes@.subrange(first as int, i as int));
    if value <= 255 {
        Some(value as u8)
    } else {
        None
    }
}

/// A sentence framed as a receiver frames it — `$`, the payload, `*`, and the
/// payload's XOR as two uppercase hex digits — always checks as valid.
pub open spec fn upper_hex_digit(n: u8) -> u8 {
    if n < 10 {
        (48 + n) as u8
    } else {
        (55 + n) as u8
    }
}

pub open spec fn framed(payload: Seq<u8>) -> Seq<u8> {
    let x = xor_all(payload);
    seq![36u8] + payload + seq![42u8, upper_hex_digit(x / 16), upper_hex_digit(x % 16)]
}

pub open spec fn no_star(s: Seq<u8>) -> bool {
    forall|i: int| 0 <= i < s.len() ==> !is_star(#[trigger] s[i])
}

/// A payload whose first byte is not itself a `$`/`!` (which the check would
/// strip as framing) and which holds no `*`.
pub open spec fn well_formed_payload(p: Seq<u8>) -> bool {
    &&& no_star(p)
    &&& (p.len() > 0 ==> !is_sentence_marker(p[0]))
}

/// Law: a sentence framed with the XOR of its payload is accepted.
pub proof fn lemma_framed_sentence_is_valid(payload: Seq<u8>)
    requires
        well_formed_payload(payload),
    ensures
        checksum_result(framed(payload)) == ChecksumResult::Valid,
{
    let x = xor_all(payload);
    let hi = upper_hex_digit(x / 16);
    let lo = upper_hex_digit(x % 16);
    lemma_upper_hex_digit(x / 16);
    lemma_upper_hex_digit(x % 16);
    lemma_framing_stripped(payload, hi, lo);
    let after = payload + seq![42u8, hi, lo];
    lemma_last_star_after_clean_prefix(payload, hi, lo);
    assert(after.subrange(payload.len() + 1int, after.len() as int) =~= seq![hi, lo]);
    assert(after.subrange(0, payload.len() as int) =~= payload);
    lemma_two_digit_field(hi, lo);
}

proof fn lemma_last_star_after_clean_prefix(payload: Seq<u8>, hi: u8, lo: u8)
    requires
        no_star(payload),
        !is_star(hi),
        !is_star(lo),
    ensures
        last_star(payload + seq![42u8, hi, lo]) == payload.len(),
{
    let s = payload + seq![42u8, hi, lo];
    assert(s.drop_last() =~= payload + seq![42u8, hi]);
    assert(s.drop_last().drop_last() =~= payload + seq![42u8]);
    assert(last_star(payload + seq![42u8]) == payload.len());
    assert(last_star(s.drop_last()) == payload.len());
}

/// The digits of a two-character hex field, read back.
proof fn lemma_two_digit_field(hi: u8, lo: u8)
    requires
        is_hex_digit(hi),
        is_hex_digit(lo),
    ensures
        all_hex_digits(seq![hi, lo]),
        hex_value(seq![hi, lo]) == hex_digit_value(hi) * 16 + hex_digit_value(lo),
        trim_spaces(seq![hi, lo]) == seq![hi, lo],
{
    let field = seq![hi, lo];
    assert(field.drop_last() =~= seq![hi]);
    assert(seq![hi].drop_last() =~= Seq::<u8>::empty());
    assert(seq![hi].last() == hi);
    assert(hex_value(Seq::<u8>::empty()) == 0);
    assert(hex_value(seq![hi]) == hex_digit_value(hi));
    assert(field.last() == lo);
    assert(leading_space_width(field) == 0);
    assert(trim_start_spaces(field) == field);
    assert(trailing_space_width(field) == 0);
    assert(trim_end_spaces(field) == field);
}

/// Stripping the leading `$` leaves a body that starts with a non-marker.
proof fn lemma_framing_stripped(payload: Seq<u8>, hi: u8, lo: u8)
    requires
        well_formed_payload(payload),
        !is_line_break(lo),
    ensures
        strip_breaks(strip_markers(seq![36u8] + payload + seq![42u8, hi, lo])) == payload + seq![
            42u8,
            hi,
            lo,
        ],
{
    let line = seq![36u8] + payload + seq![42u8, hi, lo];
    let after = payload + seq![42u8, hi, lo];
    assert(line.drop_first() =~= after);
    if payload.len() > 0 {
        assert(after[0] == payload[0]);
    } else {
        assert(after[0] == 42u8);
    }
    assert(strip_markers(after) == after);
    assert(strip_markers(line) == after);
    assert(after.last() == lo);
    assert(strip_breaks(after) == after);
}

proof fn lemma_upper_hex_digit(n: u8)
    requires
        n < 16,
    ensures
        is_hex_digit(upper_hex_digit(n)),
        hex_digit_value(upper_hex_digit(n)) == n,
        !is_star(upper_hex_digit(n)),
        !is_line_break(upper_hex_digit(n)),
{
}

/// XOR is its own inverse, so replacing one payload byte shifts the XOR by the
/// difference of the old and new byte.
proof fn lemma_xor_update(s: Seq<u8>, k: int, v: u8)
    requires
        0 <= k < s.len(),
    ensures
        xor_all(s.update(k, v)) == xor_all(s) ^ s[k] ^ v,
    decreases s.len(),
{
    let t = s.update(k, v);
    if k == s.len() - 1 {
        assert(t.drop_last() =~= s.drop_last());
        let a = xor_all(s.drop_last());
        let old = s[k];
        assert((a ^ v) == (a ^ old) ^ old ^ v) by (bit_vector);
    } else {
        assert(t.drop_last() =~= s.drop_last().update(k, v));
        lemma_xor_update(s.drop_last(), k, v);
        let a = xor_all(s.drop_last());
        let old = s[k];
        let last = s.last();
        assert((a ^ old ^ v ^ last) == (a ^ last) ^ old ^ v) by (bit_vector);
    }
}

/// Law: a framed sentence with exactly one payload byte changed (to a byte
/// that is neither `*` nor, at the front, a `$`/`!`) is reported as a
/// mismatch rather than accepted.
pub proof fn lemma_single_byte_corruption_detected(payload: Seq<u8>, k: int, v: u8)
    requires
        well_formed_payload(payload),
        0 <= k < payload.len(),
        v != payload[k],
        well_formed_payload(payload.update(k, v)),
    ensures
        checksum_result(seq![36u8] + payload.update(k, v) + framed(payload).subrange(
            payload.len() + 1int,
            payload.len() + 4int,
        )) matches ChecksumResult::Mismatch { expected, computed } && expected == xor_all(payload)
            && computed != expected,
{
    let bad = payload.update(k, v);
    let x = xor_all(payload);
    let hi = upper_hex_digit(x / 16);
    let lo = upper_hex_digit(x % 16);
    lemma_upper_hex_digit(x / 16);
    lemma_upper_hex_digit(x % 16);
    assert(framed(payload).subrange(payload.len() + 1int, payload.len() + 4int) =~= seq![
        42u8,
        hi,
        lo,
    ]);
    lemma_framing_stripped(bad, hi, lo);
    let after = bad + seq![42u8, hi, lo];
    lemma_last_star_after_clean_prefix(bad, hi, lo);
    assert(after.subrange(bad.len() + 1int, after.len() as int) =~= seq![hi, lo]);
    assert(after.subrange(0, bad.len() as int) =~= bad);
    lemma_two_digit_field(hi, lo);
    lemma_xor_update(payload, k, v);
    let old = payload[k];
    assert(old != v ==> (x ^ old ^ v) != x) by (bit_vector);
}

} // verus!
