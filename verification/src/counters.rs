//! Stream health counters, and the bounded histories a session keeps (the raw
//! sentences, the track, the plotted samples). This is a debugger, so how many
//! sentences were rejected, and why, matters as much as the decoded values.

use std::collections::VecDeque;

use vstd::prelude::*;
use vstd::string::StrSliceExecFns;

use crate::status::SentenceOutcome;
use crate::text::text_of;

verus! {

/// Cap on the raw sentence ring shown in the debug view.
pub const MAX_RAW_SENTENCES: usize = 200;

/// Text order: by character code point, a proper prefix first. For UTF-8 this
/// is the byte order `str`'s `Ord` uses.
pub open spec fn text_less(a: Seq<char>, b: Seq<char>) -> bool
    decreases a.len(),
{
    if a.len() == 0 {
        b.len() > 0
    } else if b.len() == 0 {
        false
    } else if (a[0] as int) < (b[0] as int) {
        true
    } else if (a[0] as int) > (b[0] as int) {
        false
    } else {
        text_less(a.drop_first(), b.drop_first())
    }
}

pub open spec fn key_of(entry: (String, u64)) -> Seq<char> {
    entry.0@
}

/// Keys strictly increasing, hence distinct.
pub open spec fn keys_increasing(v: Seq<(String, u64)>) -> bool {
    forall|i: int, j: int| 0 <= i < j < v.len() ==> text_less(key_of(v[i]), key_of(v[j]))
}

/// Sum of all per-type counts.
pub open spec fn count_sum(v: Seq<(String, u64)>) -> nat
    decreases v.len(),
{
    if v.len() == 0 {
        0
    } else {
        count_sum(v.drop_last()) + v.last().1 as nat
    }
}

/// The count recorded for `kind` (zero when it has none).
pub open spec fn type_count(v: Seq<(String, u64)>, kind: Seq<char>) -> nat
    decreases v.len(),
{
    if v.len() == 0 {
        0
    } else if key_of(v.last()) == kind {
        v.last().1 as nat
    } else {
        type_count(v.drop_last(), kind)
    }
}

pub open spec fn has_type(v: Seq<(String, u64)>, kind: Seq<char>) -> bool {
    exists|i: int| 0 <= i < v.len() && key_of(#[trigger] v[i]) == kind
}

/// Stream health counters.
#[derive(Debug, Clone, Default, PartialEq, Eq)]
pub struct SentenceCounters {
    pub total: u64,
    pub decoded: u64,
    pub checksum_failed: u64,
    pub parse_failed: u64,
    pub unsupported: u64,
    /// Per sentence type (e.g. `GGA`), counting successfully decoded
    /// sentences, in order of type name.
    pub by_type: Vec<(String, u64)>,
}

/// `after` is `before` with one more line counted under `outcome`.
pub open spec fn counted(
    before: SentenceCounters,
    after: SentenceCounters,
    outcome: SentenceOutcome,
) -> bool {
    &&& after.total == before.total + 1
    &&& after.decoded == before.decoded + (if outcome is Decoded { 1int } else { 0 })
    &&& after.checksum_failed == before.checksum_failed + (if outcome is ChecksumFailed {
        1int
    } else {
        0
    })
    &&& after.parse_failed == before.parse_failed + (if outcome is ParseError { 1int } else { 0 })
    &&& after.unsupported == before.unsupported + (if outcome is Unsupported { 1int } else { 0 })
    &&& forall|k: Seq<char>|
        #[trigger] type_count(after.by_type@, k) == type_count(before.by_type@, k) + (
        if outcome matches SentenceOutcome::Decoded(kind) && kind@ == k {
            1int
        } else {
            0
        })
    &&& forall|k: Seq<char>|
        #[trigger] has_type(after.by_type@, k) <==> has_type(before.by_type@, k) || (
        outcome matches SentenceOutcome::Decoded(kind) && kind@ == k)
}

impl SentenceCounters {
    /// The counts agree with each other: every line is counted under exactly
    /// one outcome, and the per-type tallies add up to the decoded count.
    pub open spec fn consistent(&self) -> bool {
        &&& self.total == self.decoded + self.checksum_failed + self.parse_failed
            + self.unsupported
        &&& count_sum(self.by_type@) == self.decoded
        &&& keys_increasing(self.by_type@)
    }

    pub fn new() -> (r: Self)
        ensures
            r.consistent(),
            r.total == 0,
            r.by_type@.len() == 0,
    {
        SentenceCounters {
            total: 0,
            decoded: 0,
            checksum_failed: 0,
            parse_failed: 0,
            unsupported: 0,
            by_type: Vec::new(),
        }
    }

    /// Count one line under its outcome.
    pub fn record(&mut self, outcome: &SentenceOutcome)
        requires
            old(self).consistent(),
            old(self).total < u64::MAX,
        ensures
            final(self).consistent(),
            counted(*old(self), *final(self), *outcome),
    {
        self.total = self.total + 1;
        match outcome {
            SentenceOutcome::Decoded(kind) => {
                self.decoded = self.decoded + 1;
                bump_type(&mut self.by_type, kind.as_str());
            },
            SentenceOutcome::ChecksumFailed => {
                self.checksum_failed = self.checksum_failed + 1;
            },
            SentenceOutcome::Unsupported => {
                self.unsupported = self.unsupported + 1;
            },
            SentenceOutcome::ParseError(_) => {
                self.parse_failed = self.parse_failed + 1;
            },
        }
    }
}

/// Whether `a` orders before `b`.
fn text_before(a: &str, b: &str) -> (r: bool)
    ensures
        r == text_less(a@, b@),
{
    let n = a.unicode_len();
    let m = b.unicode_len();
    let mut i: usize = 0;
    assert(a@.skip(0) =~= a@);
    assert(b@.skip(0) =~= b@);
    while i < n && i < m && a.get_char(i) == b.get_char(i)
        invariant
            n == a@.len(),
            m == b@.len(),
            i <= n,
            i <= m,
            text_less(a@, b@) == text_less(a@.skip(i as int), b@.skip(i as int)),
        decreases n - i,
    {
        proof {
            assert(a@.skip(i as int).drop_first() =~= a@.skip(i + 1));
            assert(b@.skip(i as int).drop_first() =~= b@.skip(i + 1));
        }
        i += 1;
    }
    if i == n {
        i < m
    } else if i == m {
        false
    } else {
        let ca = a.get_char(i);
        let cb = b.get_char(i);
        assert(a@.skip(i as int)[0] == ca);
        assert(b@.skip(i as int)[0] == cb);
        (ca as u32) < (cb as u32)
    }
}

proof fn lemma_count_sum_split(a: Seq<(String, u64)>, b: Seq<(String, u64)>)
    ensures
        count_sum(a + b) == count_sum(a) + count_sum(b),
    decreases b.len(),
{
    if b.len() == 0 {
        assert(a + b =~= a);
    } else {
        lemma_count_sum_split(a, b.drop_last());
        assert((a + b).drop_last() =~= a + b.drop_last());
    }
}

proof fn lemma_type_count_split(a: Seq<(String, u64)>, b: Seq<(String, u64)>, k: Seq<char>)
    requires
        !has_type(b, k),
    ensures
        type_count(a + b, k) == type_count(a, k),
    decreases b.len(),
{
    if b.len() == 0 {
        assert(a + b =~= a);
    } else {
        assert((a + b).drop_last() =~= a + b.drop_last());
        assert(key_of(b[b.len() - 1]) != k);
        assert forall|i: int| 0 <= i < b.drop_last().len() implies key_of(
            #[trigger] b.drop_last()[i],
        ) != k by {
            assert(b.drop_last()[i] == b[i]);
        }
        lemma_type_count_split(a, b.drop_last(), k);
    }
}

proof fn lemma_type_count_absent(v: Seq<(String, u64)>, k: Seq<char>)
    requires
        !has_type(v, k),
    ensures
        type_count(v, k) == 0,
{
    lemma_type_count_split(Seq::empty(), v, k);
    assert(Seq::<(String, u64)>::empty() + v =~= v);
}

proof fn lemma_text_less_irreflexive(a: Seq<char>)
    ensures
        !text_less(a, a),
    decreases a.len(),
{
    if a.len() > 0 {
        lemma_text_less_irreflexive(a.drop_first());
    }
}

proof fn lemma_text_less_transitive(a: Seq<char>, b: Seq<char>, c: Seq<char>)
    requires
        text_less(a, b),
        text_less(b, c),
    ensures
        text_less(a, c),
    decreases a.len(),
{
    if a.len() > 0 && b.len() > 0 && c.len() > 0 && a[0] == b[0] && b[0] == c[0] {
        lemma_text_less_transitive(a.drop_first(), b.drop_first(), c.drop_first());
    }
}

proof fn lemma_text_less_total(a: Seq<char>, b: Seq<char>)
    ensures
        a == b || text_less(a, b) || text_less(b, a),
    decreases a.len(),
{
    if a.len() > 0 && b.len() > 0 && a[0] == b[0] {
        lemma_text_less_total(a.drop_first(), b.drop_first());
        if a.drop_first() == b.drop_first() {
            assert(a =~= seq![a[0]] + a.drop_first());
            assert(b =~= seq![b[0]] + b.drop_first());
        }
    } else if a.len() > 0 && b.len() > 0 {
        assert((a[0] as int) != (b[0] as int));
    } else if a.len() == 0 && b.len() == 0 {
        assert(a =~= b);
    }
}

/// Add one to the tally of `kind`, inserting it in order when it is new.
fn bump_type(v: &mut Vec<(String, u64)>, kind: &str)
    requires
        keys_increasing(old(v)@),
        count_sum(old(v)@) < u64::MAX,
    ensures
        keys_increasing(final(v)@),
        count_sum(final(v)@) == count_sum(old(v)@) + 1,
        forall|k: Seq<char>|
            #[trigger] type_count(final(v)@, k) == type_count(old(v)@, k) + if k == kind@ {
                1int
            } else {
                0
            },
        forall|k: Seq<char>|
            #[trigger] has_type(final(v)@, k) <==> has_type(old(v)@, k) || k == kind@,
{
    let ghost s = v@;
    let n = v.len();
    // First position whose key does not order before `kind`.
    let mut j: usize = 0;
    while j < n && text_before(v[j].0.as_str(), kind)
        invariant
            j <= n,
            n == s.len(),
            v@ == s,
            forall|i: int| 0 <= i < j ==> text_less(key_of(#[trigger] s[i]), kind@),
        decreases n - j,
    {
        j += 1;
    }
    proof {
        assert(s =~= s.subrange(0, j as int) + s.subrange(j as int, n as int));
        lemma_count_sum_split(s.subrange(0, j as int), s.subrange(j as int, n as int));
    }
    if j < n && same_key(&v[j].0, kind) {
        // Already tallied: increment in place.
        let (name, count) = v.remove(j);
        proof {
            assert(s[j as int] == (name, count));
            lemma_count_sum_bound(s, j as int);
        }
        v.insert(j, (name, count + 1));
        proof {
            let t = v@;
            assert(t =~= s.update(j as int, (name, (count + 1) as u64)));
            lemma_count_sum_update(s, j as int, (name, (count + 1) as u64));
            assert forall|k: Seq<char>| #[trigger]
                type_count(t, k) == type_count(s, k) + if k == kind@ {
                    1int
                } else {
                    0
                } by {
                lemma_type_count_update(s, j as int, (name, (count + 1) as u64), k);
            }
            assert forall|k: Seq<char>| #[trigger] has_type(t, k) <==> has_type(s, k) || k == kind@ by {
                if has_type(s, k) {
                    let i = choose|i: int| 0 <= i < s.len() && key_of(#[trigger] s[i]) == k;
                    assert(key_of(t[i]) == k);
                }
                if has_type(t, k) {
                    let i = choose|i: int| 0 <= i < t.len() && key_of(#[trigger] t[i]) == k;
                    assert(key_of(s[i]) == k);
                }
                if k == kind@ {
                    assert(key_of(s[j as int]) == k);
                }
            }
            assert forall|a: int, b: int| 0 <= a < b < t.len() implies text_less(
                key_of(t[a]),
                key_of(t[b]),
            ) by {
                assert(key_of(t[a]) == key_of(s[a]) && key_of(t[b]) == key_of(s[b]));
            }
        }
    } else {
        let entry = (text_of(kind), 1u64);
        v.insert(j, entry);
        proof {
            let t = v@;
            let left = s.subrange(0, j as int);
            let right = s.subrange(j as int, n as int);
            assert(t =~= left + seq![entry] + right);
            lemma_count_sum_split(left + seq![entry], right);
            lemma_count_sum_split(left, seq![entry]);
            assert(seq![entry].drop_last() =~= Seq::<(String, u64)>::empty());
            assert(seq![entry].last() == entry);
            assert(count_sum(Seq::<(String, u64)>::empty()) == 0);
            assert(count_sum(seq![entry]) == 1);
            assert(count_sum(t) == count_sum(s) + 1);
            // Everything from position j on orders after `kind`.
            assert forall|i: int| j <= i < n implies text_less(kind@, key_of(#[trigger] s[i])) by {
                lemma_text_less_total(kind@, key_of(s[j as int]));
                if i > j {
                    lemma_text_less_transitive(kind@, key_of(s[j as int]), key_of(s[i]));
                }
            }
            assert(!has_type(s, kind@)) by {
                if has_type(s, kind@) {
                    let i = choose|i: int| 0 <= i < s.len() && key_of(#[trigger] s[i]) == kind@;
                    if i < j {
                        lemma_text_less_irreflexive(kind@);
                    } else {
                        lemma_text_less_irreflexive(kind@);
                    }
                }
            }
            assert forall|a: int, b: int| 0 <= a < b < t.len() implies text_less(
                key_of(t[a]),
                key_of(t[b]),
            ) by {
                if b < j {
                    assert(t[a] == s[a] && t[b] == s[b]);
                } else if b == j {
                    assert(t[a] == s[a]);
                } else if a < j {
                    assert(t[a] == s[a] && t[b] == s[b - 1]);
                    lemma_text_less_transitive(key_of(s[a]), kind@, key_of(s[b - 1]));
                } else if a == j {
                    assert(t[b] == s[b - 1]);
                } else {
                    assert(t[a] == s[a - 1] && t[b] == s[b - 1]);
                }
            }
            assert forall|k: Seq<char>| #[trigger] has_type(t, k) <==> has_type(s, k) || k == kind@ by {
                if has_type(s, k) {
                    let i = choose|i: int| 0 <= i < s.len() && key_of(#[trigger] s[i]) == k;
                    if i < j {
                        assert(t[i] == s[i]);
                    } else {
                        assert(t[i + 1] == s[i]);
                    }
                }
                if k == kind@ {
                    assert(key_of(t[j as int]) == k);
                }
                if has_type(t, k) {
                    let i = choose|i: int| 0 <= i < t.len() && key_of(#[trigger] t[i]) == k;
                    if i < j {
                        assert(t[i] == s[i]);
                    } else if i > j {
                        assert(t[i] == s[i - 1]);
                    }
                }
            }
            assert forall|k: Seq<char>| #[trigger]
                type_count(t, k) == type_count(s, k) + if k == kind@ {
                    1int
                } else {
                    0
                } by {
                lemma_type_count_insert(s, j as int, entry, k);
            }
        }
    }
}

fn same_key(name: &String, kind: &str) -> (r: bool)
    ensures
        r == (name@ == kind@),
{
    crate::text::same_text(name.as_str(), kind)
}

proof fn lemma_count_sum_bound(s: Seq<(String, u64)>, j: int)
    requires
        0 <= j < s.len(),
    ensures
        s[j].1 <= count_sum(s),
    decreases s.len(),
{
    if j < s.len() - 1 {
        lemma_count_sum_bound(s.drop_last(), j);
    }
}

proof fn lemma_count_sum_update(s: Seq<(String, u64)>, j: int, e: (String, u64))
    requires
        0 <= j < s.len(),
    ensures
        count_sum(s.update(j, e)) == count_sum(s) - s[j].1 + e.1,
    decreases s.len(),
{
    if j == s.len() - 1 {
        assert(s.update(j, e).drop_last() =~= s.drop_last());
    } else {
        assert(s.update(j, e).drop_last() =~= s.drop_last().update(j, e));
        lemma_count_sum_update(s.drop_last(), j, e);
    }
}

/// Replacing the entry at `j` (same key, count one higher) moves only that
/// key's tally, given keys are distinct.
proof fn lemma_type_count_update(s: Seq<(String, u64)>, j: int, e: (String, u64), k: Seq<char>)
    requires
        keys_increasing(s),
        0 <= j < s.len(),
        key_of(e) == key_of(s[j]),
        e.1 == s[j].1 + 1,
    ensures
        type_count(s.update(j, e), k) == type_count(s, k) + if k == key_of(s[j]) {
            1int
        } else {
            0
        },
    decreases s.len(),
{
    let t = s.update(j, e);
    if j == s.len() - 1 {
        assert(t.drop_last() =~= s.drop_last());
    } else {
        assert(t.drop_last() =~= s.drop_last().update(j, e));
        assert(keys_increasing(s.drop_last()));
        lemma_type_count_update(s.drop_last(), j, e, k);
        if k == key_of(s[j]) {
            assert(text_less(key_of(s[j]), key_of(s[s.len() - 1])));
            lemma_text_less_irreflexive(k);
        }
    }
}

/// Inserting a new key at `j` gives it a tally of one and moves no other.
proof fn lemma_type_count_insert(s: Seq<(String, u64)>, j: int, e: (String, u64), k: Seq<char>)
    requires
        0 <= j <= s.len(),
        !has_type(s, key_of(e)),
        e.1 == 1,
    ensures
        type_count(s.insert(j, e), k) == type_count(s, k) + if k == key_of(e) {
            1int
        } else {
            0
        },
    decreases s.len(),
{
    let t = s.insert(j, e);
    if j == s.len() {
        assert(t.drop_last() =~= s);
        if k == key_of(e) {
            lemma_type_count_absent(s, k);
        }
    } else {
        assert(t.drop_last() =~= s.drop_last().insert(j, e));
        assert(!has_type(s.drop_last(), key_of(e))) by {
            if has_type(s.drop_last(), key_of(e)) {
                let i = choose|i: int|
                    0 <= i < s.drop_last().len() && key_of(#[trigger] s.drop_last()[i]) == key_of(e);
                assert(s[i] == s.drop_last()[i]);
            }
        }
        lemma_type_count_insert(s.drop_last(), j, e, k);
        assert(t.last() == s.last());
        assert(key_of(s.last()) != key_of(e));
    }
}

/// Cap on retained track points. Trip statistics are accumulated incrementally,
/// so dropping the oldest points never changes the computed totals.
pub const MAX_TRACK_POINTS: usize = 200_000;

/// Cap on retained metric samples (one per fix epoch; about an hour at 1 Hz).
pub const MAX_HISTORY: usize = 3_600;

/// The ring after `item` is appended to `before`, the oldest entry having been
/// dropped first if the ring already held `cap`.
pub open spec fn pushed_capped<T>(before: Seq<T>, item: T, cap: nat) -> Seq<T> {
    if before.len() == cap {
        before.drop_first().push(item)
    } else {
        before.push(item)
    }
}

/// Append to a bounded history (the raw sentence log, the track, the plotted
/// samples), dropping the oldest entry once it holds `cap`.
pub fn push_capped<T>(ring: &mut VecDeque<T>, item: T, cap: usize)
    requires
        cap > 0,
    ensures
        final(ring)@ == pushed_capped(old(ring)@, item, cap as nat),
{
    if ring.len() == cap {
        let _ = ring.pop_front();
        assert(old(ring)@.subrange(1, old(ring)@.len() as int) =~= old(ring)@.drop_first());
    }
    ring.push_back(item);
}

/// Law: a ring kept within its cap stays within it, the item just pushed is
/// always its newest entry, and the entries before it are the newest of what
/// was there.
pub proof fn lemma_ring_bounded<T>(before: Seq<T>, item: T, cap: nat)
    requires
        0 < cap,
        before.len() <= cap,
    ensures
        ({
            let after = pushed_capped(before, item, cap);
            &&& after.len() <= cap
            &&& after.last() == item
            &&& after.drop_last() == before.subrange(before.len() + 1 - after.len(), before.len() as int)
        }),
{
    if before.len() == cap {
        assert(before.drop_first().push(item).drop_last() =~= before.subrange(1, before.len() as int));
    } else {
        assert(before.push(item).drop_last() =~= before.subrange(0, before.len() as int));
    }
}

} // verus!
