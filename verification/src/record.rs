//! What a capture of the live stream reports about itself.
//!
//! A recording is the raw stream, verbatim, damaged sentences included; the
//! writing is I/O and lives with the application. What stays here is the
//! status the UI shows, and in particular the size readout.

use vstd::prelude::*;
use vstd::string::StrSliceExecFns;
use std::path::PathBuf;

use crate::text::{decimal, digit_char, digit_of, push_char, push_decimal, push_text};

verus! {

/// What the UI shows about an in-progress capture.
#[derive(Debug, Clone, PartialEq, Eq)]
pub struct RecordingStatus {
    pub path: PathBuf,
    pub sentences: u64,
    pub bytes: u64,
    pub dropped: u64,
    /// The file could not be written; the capture is no longer trustworthy.
    pub failed: bool,
}

/// `2^s`.
pub open spec fn two_to(s: nat) -> nat
    decreases s,
{
    if s == 0 {
        1
    } else {
        2 * two_to((s - 1) as nat)
    }
}

/// Number of binary digits of `n` (zero for zero).
pub open spec fn bit_length(n: nat) -> nat
    decreases n,
{
    if n == 0 {
        0
    } else {
        1 + bit_length(n / 2)
    }
}

/// `n / d` rounded to the nearest integer, an exact half going to the even
/// neighbour.
pub open spec fn nearest_even_quotient(n: nat, d: nat) -> nat
    recommends
        d > 0,
{
    let q = n / d;
    let r = n % d;
    if 2 * r > d || (2 * r == d && q % 2 == 1) {
        q + 1
    } else {
        q
    }
}

/// The value an unsigned integer takes as an `f64`: the nearest number with
/// at most 53 significant bits, ties to even.
pub open spec fn f64_value(n: nat) -> nat {
    let s: nat = if bit_length(n) > 53 {
        (bit_length(n) - 53) as nat
    } else {
        0
    };
    nearest_even_quotient(n, two_to(s)) * two_to(s)
}

/// A count of tenths written with one decimal place: `12` is `1.2`.
pub open spec fn one_decimal(tenths: nat) -> Seq<char> {
    decimal(tenths / 10) + seq!['.', digit_char(tenths % 10)]
}

/// The size readout for a byte count: whole bytes below a kilobyte, then
/// kilobytes and megabytes (binary multiples) to one decimal place, rounded
/// as `{:.1}` rounds the exact value of the `f64` quotient.
pub open spec fn size_text(bytes: nat) -> Seq<char> {
    if bytes < 1024 {
        decimal(bytes) + seq![' ', 'B']
    } else if bytes < 1048576 {
        one_decimal(nearest_even_quotient(bytes * 10, 1024)) + seq![' ', 'k', 'B']
    } else {
        one_decimal(nearest_even_quotient(f64_value(bytes) * 10, 1048576)) + seq![' ', 'M', 'B']
    }
}

proof fn lemma_bit_length_bound(n: nat, k: nat)
    requires
        n < two_to(k),
    ensures
        bit_length(n) <= k,
    decreases k,
{
    if k > 0 && n > 0 {
        lemma_bit_length_bound(n / 2, (k - 1) as nat);
    }
}

proof fn lemma_two_to_64()
    ensures
        two_to(64) == 0x1_0000_0000_0000_0000,
{
    reveal_with_fuel(two_to, 65);
}

fn bit_length_of(n: u64) -> (r: u64)
    ensures
        r == bit_length(n as nat),
        r <= 64,
{
    proof {
        lemma_two_to_64();
        lemma_bit_length_bound(n as nat, 64);
    }
    let mut v: u64 = n;
    let mut len: u64 = 0;
    while v > 0
        invariant
            bit_length(n as nat) == len + bit_length(v as nat),
            bit_length(n as nat) <= 64,
        decreases v,
    {
        v = v / 2;
        len = len + 1;
    }
    len
}

fn nearest_even_quotient_of(n: u128, d: u128) -> (r: u128)
    requires
        0 < d <= 0x1_0000_0000,
        n < 0x1_0000_0000_0000_0000_0000,
    ensures
        r == nearest_even_quotient(n as nat, d as nat),
        r <= n / d + 1,
{
    let q = n / d;
    let r = n % d;
    if 2 * r > d || (2 * r == d && q % 2 == 1) {
        q + 1
    } else {
        q
    }
}

/// `n as f64`, held exactly as the integer it is.
fn f64_value_of(n: u64) -> (r: u128)
    ensures
        r == f64_value(n as nat),
        r <= 0x1_0000_0000_0000_0800,
{
    let len = bit_length_of(n);
    let s: u64 = if len > 53 {
        len - 53
    } else {
        0
    };
    let mut unit: u128 = 1;
    let mut i: u64 = 0;
    while i < s
        invariant
            i <= s <= 11,
            unit == two_to(i as nat),
            1 <= unit <= 2048,
        decreases s - i,
    {
        proof {
            reveal_with_fuel(two_to, 2);
            assert(i + 1 <= 11);
            assert(two_to((i + 1) as nat) == 2 * two_to(i as nat));
            if i < 11 {
                lemma_two_to_small(i as nat);
            }
        }
        unit = unit * 2;
        i = i + 1;
    }
    let q = nearest_even_quotient_of(n as u128, unit);
    proof {
        let nn = n as int;
        let u = unit as int;
        assert((nn / u) * u <= nn) by (nonlinear_arith)
            requires
                u > 0,
                nn >= 0,
        ;
        assert(q * u <= nn + u) by (nonlinear_arith)
            requires
                q <= nn / u + 1,
                (nn / u) * u <= nn,
                u > 0,
        ;
    }
    q * unit
}

proof fn lemma_two_to_small(i: nat)
    requires
        i < 11,
    ensures
        two_to(i + 1) <= 2048,
{
    reveal_with_fuel(two_to, 12);
}

/// Appends `tenths / 10`, a point, and the tenths digit.
fn push_one_decimal(out: &mut String, tenths: u128)
    requires
        tenths < 0x1_0000_0000_0000_0000,
    ensures
        final(out)@ == old(out)@ + one_decimal(tenths as nat),
{
    push_decimal(out, (tenths / 10) as u64);
    push_char(out, '.');
    push_char(out, digit_of((tenths % 10) as u64));
    assert(final(out)@ =~= old(out)@ + one_decimal(tenths as nat));
}

impl RecordingStatus {
    /// Human-readable size, since a capture's worth is judged by how much of it
    /// there is.
    pub fn size_label(&self) -> (r: String)
        ensures
            r@ == size_text(self.bytes as nat),
    {
        let b = self.bytes;
        let mut out = String::new();
        if b < 1024 {
            push_decimal(&mut out, b);
            push_char(&mut out, ' ');
            push_char(&mut out, 'B');
        } else if b < 1048576 {
            let tenths = nearest_even_quotient_of(b as u128 * 10, 1024);
            push_one_decimal(&mut out, tenths);
            push_char(&mut out, ' ');
            push_char(&mut out, 'k');
            push_char(&mut out, 'B');
        } else {
            let value = f64_value_of(b);
            let tenths = nearest_even_quotient_of(value * 10, 1048576);
            push_one_decimal(&mut out, tenths);
            push_char(&mut out, ' ');
            push_char(&mut out, 'M');
            push_char(&mut out, 'B');
        }
        assert(out@ =~= size_text(b as nat));
        out
    }
}

/// `k` zeros.
pub open spec fn zeros(k: nat) -> Seq<char>
    decreases k,
{
    if k == 0 {
        Seq::empty()
    } else {
        zeros((k - 1) as nat).push('0')
    }
}

/// `n` in decimal, zero-padded on the left to at least `width` digits.
pub open spec fn zero_padded(n: nat, width: nat) -> Seq<char> {
    if decimal(n).len() >= width {
        decimal(n)
    } else {
        zeros((width - decimal(n).len()) as nat) + decimal(n)
    }
}

/// A year as `%Y` writes it: four digits, zero-padded, for years 0 to 9999;
/// outside that range a sign, then at least four digits.
pub open spec fn year_text(year: int) -> Seq<char> {
    if 0 <= year <= 9999 {
        zero_padded(year as nat, 4)
    } else if year > 9999 {
        seq!['+'] + zero_padded(year as nat, 4)
    } else {
        seq!['-'] + zero_padded((-year) as nat, 4)
    }
}

/// `waypoint-YYYYmmdd-HHMMSS.nmea` for the given calendar fields.
pub open spec fn capture_text(
    year: int,
    month: nat,
    day: nat,
    hour: nat,
    minute: nat,
    second: nat,
) -> Seq<char> {
    "waypoint-"@ + year_text(year) + zero_padded(month, 2) + zero_padded(day, 2) + seq!['-']
        + zero_padded(hour, 2) + zero_padded(minute, 2) + zero_padded(second, 2) + ".nmea"@
}

/// Appends `n`, zero-padded to at least `width` digits.
fn push_padded(out: &mut String, n: u64, width: usize)
    ensures
        final(out)@ == old(out)@ + zero_padded(n as nat, width as nat),
{
    let mut digits = String::new();
    push_decimal(&mut digits, n);
    assert(digits@ =~= decimal(n as nat));
    let len = digits.as_str().unicode_len();
    if len < width {
        let mut k: usize = 0;
        let ghost start = out@;
        while k < width - len
            invariant
                k <= width - len,
                out@ == start + zeros(k as nat),
            decreases width - len - k,
        {
            push_char(out, '0');
            k += 1;
        }
    }
    push_text(out, digits.as_str());
}

/// A name for a capture nobody wanted to choose — sortable, unambiguous, and
/// obviously ours — from the UTC calendar fields of when it began:
/// `waypoint-YYYYmmdd-HHMMSS.nmea`. A nanosecond count of a second or more
/// marks a leap second, written as second 60.
pub fn capture_name(
    year: i32,
    month: u32,
    day: u32,
    hour: u32,
    minute: u32,
    second: u32,
    nanosecond: u32,
) -> (r: String)
    requires
        1 <= month <= 12,
        1 <= day <= 31,
        hour <= 23,
        minute <= 59,
        second <= 59,
        nanosecond < 2_000_000_000,
    ensures
        r@ == capture_text(
            year as int,
            month as nat,
            day as nat,
            hour as nat,
            minute as nat,
            (second + nanosecond / 1_000_000_000) as nat,
        ),
{
    let second = second + nanosecond / 1_000_000_000;
    let mut out = String::new();
    push_text(&mut out, "waypoint-");
    if 0 <= year && year <= 9999 {
        push_padded(&mut out, year as u64, 4);
    } else if year > 9999 {
        push_char(&mut out, '+');
        push_padded(&mut out, year as u64, 4);
    } else {
        push_char(&mut out, '-');
        let magnitude: u64 = (0i64 - year as i64) as u64;
        push_padded(&mut out, magnitude, 4);
    }
    push_padded(&mut out, month as u64, 2);
    push_padded(&mut out, day as u64, 2);
    push_char(&mut out, '-');
    push_padded(&mut out, hour as u64, 2);
    push_padded(&mut out, minute as u64, 2);
    push_padded(&mut out, second as u64, 2);
    push_text(&mut out, ".nmea");
    assert(out@ =~= capture_text(
        year as int,
        month as nat,
        day as nat,
        hour as nat,
        minute as nat,
        second as nat,
    ));
    out
}

} // verus!
