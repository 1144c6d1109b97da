//! Cutting a raw serial stream into lines.
//!
//! Reads arrive in arbitrary chunks. Opening a port mid-stream usually lands
//! partway through a sentence, so everything before the first `$` is
//! discarded, and the first line emitted starts there. A stream that goes on
//! for [`MAX_LINE_BYTES`] without a line break is not NMEA — almost always a
//! baud rate mismatch producing framing garbage — so it is thrown away and the
//! framer starts over, again discarding up to the next `$`, with a warning.

use vstd::prelude::*;
use vstd::utf8::{encode_scalar, encode_utf8};

use crate::text::{chars_of, string_of, trim_both, trim_range};

verus! {

/// Longest run without a line break that is still taken for a line.
pub const MAX_LINE_BYTES: usize = 4096;

/// Where the first `c` in `s` is.
pub open spec fn first_of(s: Seq<char>, c: char) -> Option<int>
    decreases s.len(),
{
    if s.len() == 0 {
        None
    } else if s[0] == c {
        Some(0)
    } else {
        match first_of(s.drop_first(), c) {
            Some(i) => Some(i + 1),
            None => None,
        }
    }
}

/// What a completed line (line break included) yields: the line trimmed,
/// once the framer is in step. Before that, only what follows its first `$`
/// counts, and a line with no `$` yields nothing.
pub open spec fn emitted(line: Seq<char>, synced: bool) -> Seq<Seq<char>> {
    if synced {
        seq![trim_both(line, false)]
    } else {
        match first_of(line, '$') {
            Some(d) => seq![trim_both(line.skip(d), false)],
            None => Seq::empty(),
        }
    }
}

/// Whether the framer is in step once `line` (line break included) has
/// completed: it already was, or a `$` has now been seen.
pub open spec fn in_step_after(line: Seq<char>, synced: bool) -> bool {
    synced || first_of(line, '$') is Some
}

/// The lines `text` completes, given whether the framer is already in step,
/// what is left over, and whether the framer is then in step. The framer
/// stays out of step, passing nothing on, until a completed line has held a
/// `$`.
pub open spec fn frame(text: Seq<char>, synced: bool) -> (Seq<Seq<char>>, Seq<char>, bool)
    decreases text.len(),
{
    match first_of(text, '\n') {
        None => (Seq::empty(), text, synced),
        Some(i) => {
            proof {
                lemma_first_of_bounds(text, '\n');
            }
            let (lines, rest, now_synced) = frame(
                text.skip(i + 1),
                in_step_after(text.take(i + 1), synced),
            );
            (emitted(text.take(i + 1), synced) + lines, rest, now_synced)
        },
    }
}

/// The UTF-8 size of a piece of text, which is what the length limit counts.
pub open spec fn byte_len(s: Seq<char>) -> nat {
    encode_utf8(s).len()
}

/// The views of a list of strings.
pub open spec fn texts(v: Seq<String>) -> Seq<Seq<char>> {
    v.map_values(|s: String| s@)
}

/// Splits a stream of text into lines as it arrives.
pub struct LineFramer {
    pending: Vec<char>,
    synced: bool,
}

impl LineFramer {
    /// Text received that does not yet end in a line break.
    pub closed spec fn pending(&self) -> Seq<char> {
        self.pending@
    }

    /// Whether a line break has been seen since the start or the last reset.
    pub closed spec fn synced(&self) -> bool {
        self.synced
    }

    pub closed spec fn wf(&self) -> bool {
        &&& first_of(self.pending@, '\n') is None
        &&& byte_len(self.pending@) <= MAX_LINE_BYTES
    }

    /// Nothing received, not yet in step.
    pub fn new() -> (r: Self)
        ensures
            r.wf(),
            r.pending() == Seq::<char>::empty(),
            !r.synced(),
    {
        LineFramer { pending: Vec::new(), synced: false }
    }

    /// Take in one chunk of the stream. Returns the lines it completes, in
    /// order, and whether the framer had to throw away a run too long to be a
    /// line (and so starts over, out of step).
    pub fn feed(&mut self, chunk: &str) -> (r: (Vec<String>, bool))
        requires
            old(self).wf(),
        ensures
            final(self).wf(),
            ({
                let (lines, rest, synced) = frame(old(self).pending() + chunk@, old(self).synced());
                &&& texts(r.0@) == lines
                &&& r.1 == (byte_len(rest) > MAX_LINE_BYTES)
                &&& r.1 ==> final(self).pending() == Seq::<char>::empty() && !final(self).synced()
                &&& !r.1 ==> final(self).pending() == rest && final(self).synced() == synced
            }),
    {
        let incoming = chars_of(chunk);
        let mut text = Vec::new();
        let mut k: usize = 0;
        while k < self.pending.len()
            invariant
                k <= self.pending@.len(),
                text@ == self.pending@.take(k as int),
            decreases self.pending@.len() - k,
        {
            text.push(self.pending[k]);
            k += 1;
            assert(text@ =~= self.pending@.take(k as int));
        }
        let mut j: usize = 0;
        let ghost base = text@;
        assert(base =~= self.pending@);
        while j < incoming.len()
            invariant
                j <= incoming@.len(),
                text@ == base + incoming@.take(j as int),
            decreases incoming@.len() - j,
        {
            text.push(incoming[j]);
            j += 1;
            assert(text@ =~= base + incoming@.take(j as int));
        }
        assert(incoming@.take(incoming@.len() as int) =~= incoming@);
        let ghost whole = text@;
        let n = text.len();
        let mut lines: Vec<String> = Vec::new();
        let mut start: usize = 0;
        let mut synced = self.synced;
        let mut i: usize = 0;
        assert(whole.skip(0) =~= whole);
        while i < n
            invariant
                start <= i <= n,
                n == whole.len(),
                text@ == whole,
                first_of(whole.subrange(start as int, i as int), '\n') is None,
                ({
                    let (all, rest, end_synced) = frame(whole, old(self).synced());
                    let (later, later_rest, later_synced) = frame(whole.skip(start as int), synced);
                    &&& all == texts(lines@) + later
                    &&& rest == later_rest
                    &&& end_synced == later_synced
                }),
            decreases n - i,
        {
            if text[i] == '\n' {
                proof {
                    assert(whole.skip(start as int).take(i - start) =~= whole.subrange(
                        start as int,
                        i as int,
                    ));
                    lemma_found_at(whole.skip(start as int), '\n', (i - start) as int);
                    assert(whole.skip(start as int).take(i - start + 1) =~= whole.subrange(
                        start as int,
                        i + 1,
                    ));
                    assert(whole.skip(start as int).skip(i - start + 1) =~= whole.skip(i + 1));
                }
                let ghost line = whole.subrange(start as int, i + 1);
                let ghost before = lines@;
                let from = if synced {
                    Some(start)
                } else {
                    find_char(&text, start, i + 1, '$')
                };
                match from {
                    Some(d) => {
                        let (a, b) = trim_range(&text, d, i + 1, false);
                        let piece = string_of(&text, a, b);
                        lines.push(piece);
                        proof {
                            if !synced {
                                assert(line.skip(d - start) =~= whole.subrange(d as int, i + 1));
                            } else {
                                assert(whole.subrange(start as int, i + 1) =~= line);
                            }
                        }
                        assert(texts(lines@) =~= texts(before) + emitted(line, synced));
                    },
                    None => {
                        assert(texts(lines@) =~= texts(before) + emitted(line, synced));
                    },
                }
                synced = from.is_some();
                start = i + 1;
                assert(whole.subrange(start as int, start as int) =~= Seq::<char>::empty());
            } else {
                proof {
                    lemma_absent_extends(
                        whole.subrange(start as int, i as int),
                        '\n',
                        text@[i as int],
                    );
                    assert(whole.subrange(start as int, i as int).push(text@[i as int])
                        =~= whole.subrange(start as int, i + 1));
                }
            }
            i += 1;
        }
        proof {
            assert(whole.subrange(start as int, n as int) =~= whole.skip(start as int));
        }
        let rest_len = byte_count(&text, start, n);
        if rest_len > MAX_LINE_BYTES {
            self.pending = Vec::new();
            self.synced = false;
            (lines, true)
        } else {
            let mut rest: Vec<char> = Vec::new();
            let mut m: usize = start;
            while m < n
                invariant
                    start <= m <= n,
                    n == whole.len(),
                    text@ == whole,
                    rest@ == whole.subrange(start as int, m as int),
                decreases n - m,
            {
                rest.push(text[m]);
                m += 1;
                assert(rest@ =~= whole.subrange(start as int, m as int));
            }
            self.pending = rest;
            self.synced = synced;
            (lines, false)
        }
    }
}

/// Where `c` is found, it is there, and inside the text.
pub proof fn lemma_first_of_bounds(s: Seq<char>, c: char)
    ensures
        first_of(s, c) matches Some(i) ==> 0 <= i < s.len() && s[i] == c,
    decreases s.len(),
{
    if s.len() > 0 && s[0] != c {
        lemma_first_of_bounds(s.drop_first(), c);
    }
}

proof fn lemma_found_at(s: Seq<char>, c: char, i: int)
    requires
        0 <= i < s.len(),
        s[i] == c,
        first_of(s.take(i), c) is None,
    ensures
        first_of(s, c) == Some(i),
    decreases i,
{
    if i > 0 {
        assert(s.take(i)[0] == s[0]);
        assert(s.take(i).drop_first() =~= s.drop_first().take(i - 1));
        lemma_found_at(s.drop_first(), c, i - 1);
    }
}

proof fn lemma_absent_extends(s: Seq<char>, c: char, x: char)
    requires
        first_of(s, c) is None,
        x != c,
    ensures
        first_of(s.push(x), c) is None,
    decreases s.len(),
{
    if s.len() > 0 {
        assert(s.push(x)[0] == s[0]);
        assert(s[0] != c);
        assert(s.push(x).drop_first() =~= s.drop_first().push(x));
        lemma_absent_extends(s.drop_first(), c, x);
        assert(first_of(s.drop_first().push(x), c) is None);
    } else {
        assert(s.push(x)[0] == x);
        assert(s.push(x).drop_first() =~= Seq::<char>::empty());
        assert(first_of(Seq::<char>::empty(), c) is None);
    }
}

/// The first `c` in `v[lo..hi]`, as a position in `v`.
fn find_char(v: &Vec<char>, lo: usize, hi: usize, c: char) -> (r: Option<usize>)
    requires
        lo <= hi <= v@.len(),
    ensures
        match first_of(v@.subrange(lo as int, hi as int), c) {
            Some(j) => r is Some && r->0 == lo + j && lo <= r->0 < hi,
            None => r is None,
        },
{
    let ghost sub = v@.subrange(lo as int, hi as int);
    let mut k = lo;
    assert(v@.subrange(lo as int, lo as int) =~= Seq::<char>::empty());
    while k < hi
        invariant
            lo <= k <= hi <= v@.len(),
            sub == v@.subrange(lo as int, hi as int),
            first_of(v@.subrange(lo as int, k as int), c) is None,
        decreases hi - k,
    {
        if v[k] == c {
            proof {
                assert(sub.take(k - lo) =~= v@.subrange(lo as int, k as int));
                lemma_found_at(sub, c, k - lo);
            }
            return Some(k);
        }
        proof {
            lemma_absent_extends(v@.subrange(lo as int, k as int), c, v@[k as int]);
            assert(v@.subrange(lo as int, k as int).push(v@[k as int]) =~= v@.subrange(
                lo as int,
                k + 1,
            ));
        }
        k += 1;
    }
    None
}

/// Bytes a character takes in UTF-8.
fn char_width(c: char) -> (r: usize)
    ensures
        r == encode_utf8(seq![c]).len(),
        1 <= r <= 4,
{
    assert(seq![c].drop_first() =~= Seq::<char>::empty());
    assert(seq![c][0] == c);
    assert(encode_utf8(seq![c]) == encode_scalar(c as u32) + encode_utf8(Seq::<char>::empty()));
    let u = c as u32;
    if u < 0x80 {
        1
    } else if u < 0x800 {
        2
    } else if u < 0x10000 {
        3
    } else {
        4
    }
}

proof fn lemma_encode_concat(a: Seq<char>, b: Seq<char>)
    ensures
        encode_utf8(a + b) == encode_utf8(a) + encode_utf8(b),
    decreases a.len(),
{
    if a.len() > 0 {
        assert((a + b).drop_first() =~= a.drop_first() + b);
        assert((a + b)[0] == a[0]);
        lemma_encode_concat(a.drop_first(), b);
    } else {
        assert(a + b =~= b);
    }
}

/// The UTF-8 size of `v[lo..hi]`, or a number above the line limit once it
/// passes it.
fn byte_count(v: &Vec<char>, lo: usize, hi: usize) -> (r: usize)
    requires
        lo <= hi <= v@.len(),
    ensures
        (r > MAX_LINE_BYTES) == (byte_len(v@.subrange(lo as int, hi as int)) > MAX_LINE_BYTES),
        r <= MAX_LINE_BYTES ==> r == byte_len(v@.subrange(lo as int, hi as int)),
{
    let mut total: usize = 0;
    let mut i = lo;
    while i < hi
        invariant
            lo <= i <= hi <= v@.len(),
            total == byte_len(v@.subrange(lo as int, i as int)),
            total <= MAX_LINE_BYTES,
        decreases hi - i,
    {
        let w = char_width(v[i]);
        proof {
            assert(v@.subrange(lo as int, i + 1) =~= v@.subrange(lo as int, i as int) + seq![v@[i as int]]);
            lemma_encode_concat(v@.subrange(lo as int, i as int), seq![v@[i as int]]);
        }
        total = total + w;
        i += 1;
        if total > MAX_LINE_BYTES {
            proof {
                lemma_encode_concat(v@.subrange(lo as int, i as int), v@.subrange(i as int, hi as int));
                assert(v@.subrange(lo as int, i as int) + v@.subrange(i as int, hi as int) =~= v@.subrange(lo as int, hi as int));
            }
            return total;
        }
    }
    total
}

proof fn lemma_found_in_prefix(x: Seq<char>, y: Seq<char>, c: char)
    requires
        first_of(x, c) is Some,
    ensures
        first_of(x + y, c) == first_of(x, c),
    decreases x.len(),
{
    assert((x + y)[0] == x[0]);
    if x[0] != c {
        assert((x + y).drop_first() =~= x.drop_first() + y);
        lemma_found_in_prefix(x.drop_first(), y, c);
    }
}

proof fn lemma_frame_concat(x: Seq<char>, y: Seq<char>, synced: bool)
    ensures
        ({
            let (l1, r1, s1) = frame(x, synced);
            let (l2, r2, s2) = frame(r1 + y, s1);
            frame(x + y, synced) == (l1 + l2, r2, s2)
        }),
    decreases x.len(),
{
    match first_of(x, '\n') {
        None => {
            let (l2, r2, s2) = frame(x + y, synced);
            assert(Seq::<Seq<char>>::empty() + l2 =~= l2);
        },
        Some(i) => {
            lemma_first_of_bounds(x, '\n');
            lemma_found_in_prefix(x, y, '\n');
            assert((x + y).take(i + 1) =~= x.take(i + 1));
            assert((x + y).skip(i + 1) =~= x.skip(i + 1) + y);
            let next = in_step_after(x.take(i + 1), synced);
            lemma_frame_concat(x.skip(i + 1), y, next);
            let (l1, r1, s1) = frame(x.skip(i + 1), next);
            let (l2, r2, s2) = frame(r1 + y, s1);
            let head = emitted(x.take(i + 1), synced);
            assert(head + (l1 + l2) =~= (head + l1) + l2);
        },
    }
}

/// Law: how the stream is cut into reads does not change the lines it
/// yields. Two reads give the lines and leave the framer exactly as one read
/// of both would — unless the first read left an overlong run behind, which
/// is thrown away on the spot.
pub proof fn lemma_chunking_is_immaterial(pending: Seq<char>, synced: bool, a: Seq<char>, b: Seq<char>)
    ensures
        ({
            let (l1, r1, s1) = frame(pending + a, synced);
            let (l2, r2, s2) = frame(r1 + b, s1);
            frame(pending + (a + b), synced) == (l1 + l2, r2, s2)
        }),
{
    assert(pending + (a + b) =~= (pending + a) + b);
    lemma_frame_concat(pending + a, b, synced);
}

} // verus!
