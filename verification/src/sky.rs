//! The satellite table: GSV groups reassembled per constellation, and GSA's
//! used-in-fix marks applied across the cycles multi-constellation receivers
//! emit.
//!
//! The per-satellite readings (elevation, azimuth, signal strength) are carried
//! through untouched, so the table is generic over their type.

use vstd::prelude::*;
use std::collections::HashSet;

use crate::status::{Constellation, constellation_rank};
use crate::text::{same_text, text_of};

verus! {

/// One satellite as reported by GSV, plus whether GSA says it's used in the fix.
#[derive(Debug, Clone, PartialEq)]
pub struct SatelliteInfo<R> {
    pub prn: u32,
    pub constellation: Constellation,
    /// Degrees above the horizon, 0-90.
    pub elevation: Option<R>,
    /// Degrees clockwise from true north, 0-359.
    pub azimuth: Option<R>,
    /// Carrier-to-noise density, dB-Hz. `None` means in view but not tracked.
    pub snr: Option<R>,
    pub used_in_fix: bool,
}

/// Order of the table: by constellation, then by PRN.
pub open spec fn listed_before_or_with<R>(a: SatelliteInfo<R>, b: SatelliteInfo<R>) -> bool {
    ||| constellation_rank(a.constellation) < constellation_rank(b.constellation)
    ||| (constellation_rank(a.constellation) == constellation_rank(b.constellation) && a.prn
        <= b.prn)
}

/// `x` placed after every element, from the back, that does not list after it.
pub open spec fn insert_listed<R>(s: Seq<SatelliteInfo<R>>, x: SatelliteInfo<R>) -> Seq<
    SatelliteInfo<R>,
>
    decreases s.len(),
{
    if s.len() == 0 {
        seq![x]
    } else if listed_before_or_with(s.last(), x) {
        s.push(x)
    } else {
        insert_listed(s.drop_last(), x).push(s.last())
    }
}

/// Stable sort by (constellation, PRN): what `sort_by_key` produces.
pub open spec fn sort_listed<R>(s: Seq<SatelliteInfo<R>>) -> Seq<SatelliteInfo<R>>
    decreases s.len(),
{
    if s.len() == 0 {
        s
    } else {
        insert_listed(sort_listed(s.drop_last()), s.last())
    }
}

pub open spec fn is_listed_in_order<R>(s: Seq<SatelliteInfo<R>>) -> bool {
    forall|i: int, j: int| 0 <= i < j < s.len() ==> listed_before_or_with(s[i], s[j])
}

/// The satellites of every constellation but `c`, in their order.
pub open spec fn others<R>(s: Seq<SatelliteInfo<R>>, c: Constellation) -> Seq<SatelliteInfo<R>>
    decreases s.len(),
{
    if s.len() == 0 {
        s
    } else if s.last().constellation != c {
        others(s.drop_last(), c).push(s.last())
    } else {
        others(s.drop_last(), c)
    }
}

pub open spec fn with_used<R>(s: SatelliteInfo<R>, used: Set<u32>) -> SatelliteInfo<R> {
    SatelliteInfo {
        prn: s.prn,
        constellation: s.constellation,
        elevation: s.elevation,
        azimuth: s.azimuth,
        snr: s.snr,
        used_in_fix: used.contains(s.prn),
    }
}

/// Every satellite marked used exactly when its PRN is in `used`.
pub open spec fn mark_used<R>(s: Seq<SatelliteInfo<R>>, used: Set<u32>) -> Seq<SatelliteInfo<R>> {
    Seq::new(s.len(), |i: int| with_used(s[i], used))
}

/// Progress through one constellation's GSV group.
pub struct GsvProgress<R> {
    pub expected_sentences: u16,
    pub next_sentence: u16,
    pub sats: Seq<SatelliteInfo<R>>,
}

/// One GSV sentence folded into a constellation's progress: the new progress,
/// and the completed group when this sentence completes it.
///
/// Sentence 1 restarts the group. Any other sentence must be the one expected
/// next, from a group of the same size; otherwise the partial group is dropped.
pub open spec fn gsv_step<R>(
    p: GsvProgress<R>,
    number_of_sentences: u16,
    sentence_num: u16,
    sats: Seq<SatelliteInfo<R>>,
) -> (GsvProgress<R>, Option<Seq<SatelliteInfo<R>>>) {
    let in_order = sentence_num == 1 || (p.next_sentence == sentence_num && p.expected_sentences
        == number_of_sentences);
    let expected = if sentence_num == 1 {
        number_of_sentences
    } else {
        p.expected_sentences
    };
    let gathered = if sentence_num == 1 {
        sats
    } else {
        p.sats + sats
    };
    if !in_order {
        (
            GsvProgress {
                expected_sentences: p.expected_sentences,
                next_sentence: 0,
                sats: Seq::empty(),
            },
            None,
        )
    } else if sentence_num == number_of_sentences {
        (GsvProgress { expected_sentences: expected, next_sentence: 0, sats: Seq::empty() }, Some(gathered))
    } else {
        (
            GsvProgress {
                expected_sentences: expected,
                next_sentence: (sentence_num + 1) as u16,
                sats: gathered,
            },
            None,
        )
    }
}

/// The table after committing `group` for constellation `c`: that
/// constellation's satellites replaced by the group, marked against `used`,
/// and everything kept in (constellation, PRN) order.
pub open spec fn commit_table<R>(
    table: Seq<SatelliteInfo<R>>,
    c: Constellation,
    group: Seq<SatelliteInfo<R>>,
    used: Set<u32>,
) -> Seq<SatelliteInfo<R>> {
    sort_listed(others(table, c) + mark_used(group, used))
}

/// One GSA sentence folded into the cycle: the talkers seen and the used set.
pub open spec fn gsa_step(
    talkers: Set<Seq<char>>,
    used: Set<u32>,
    talker: Seq<char>,
    prns: Set<u32>,
) -> (Set<Seq<char>>, Set<u32>) {
    if talkers.contains(talker) && !talker_accumulates(talker) {
        (Set::empty().insert(talker), prns)
    } else {
        (talkers.insert(talker), used + prns)
    }
}

struct GsvAccumulator<R> {
    expected_sentences: u16,
    next_sentence: u16,
    sats: Vec<SatelliteInfo<R>>,
}

/// Satellites in view, reassembled from GSV groups across constellations and
/// marked with GSA's used-in-fix set.
pub struct SkyTracker<R> {
    satellites: Vec<SatelliteInfo<R>>,
    /// One accumulator per constellation, indexed by its rank.
    partial: Vec<GsvAccumulator<R>>,
    used_prns: HashSet<u32>,
    gsa_talkers_seen: Vec<String>,
}

/// The satellites of one constellation, in table order.
pub open spec fn in_constellation<R>(s: Seq<SatelliteInfo<R>>, c: Constellation) -> Seq<
    SatelliteInfo<R>,
>
    decreases s.len(),
{
    if s.len() == 0 {
        Seq::empty()
    } else if s.last().constellation == c {
        in_constellation(s.drop_last(), c).push(s.last())
    } else {
        in_constellation(s.drop_last(), c)
    }
}

/// The satellites behind a list of borrows.
pub open spec fn unrefs<R>(s: Seq<&SatelliteInfo<R>>) -> Seq<SatelliteInfo<R>> {
    s.map_values(|x: &SatelliteInfo<R>| *x)
}

/// No GSV group in progress.
pub open spec fn idle_progress<R>() -> GsvProgress<R> {
    GsvProgress { expected_sentences: 0, next_sentence: 0, sats: Seq::empty() }
}

pub open spec fn talker_texts(s: Seq<String>) -> Seq<Seq<char>> {
    s.map_values(|t: String| t@)
}

pub open spec fn talker_accumulates(talker: Seq<char>) -> bool {
    talker == "GN"@ || talker == "PQ"@
}

impl<R> SkyTracker<R> {
    pub closed spec fn wf(&self) -> bool {
        self.partial.len() == 6
    }

    /// The committed satellite table.
    pub closed spec fn sats(&self) -> Seq<SatelliteInfo<R>> {
        self.satellites@
    }

    /// PRNs GSA has reported as used in the current cycle.
    pub closed spec fn used(&self) -> Set<u32> {
        self.used_prns@
    }

    /// GSA talkers seen in the current cycle.
    pub closed spec fn talkers(&self) -> Set<Seq<char>> {
        talker_texts(self.gsa_talkers_seen@).to_set()
    }

    /// How far the GSV group of `c` has been gathered.
    pub closed spec fn progress(&self, c: Constellation) -> GsvProgress<R> {
        let acc = self.partial@[constellation_rank(c)];
        GsvProgress {
            expected_sentences: acc.expected_sentences,
            next_sentence: acc.next_sentence,
            sats: acc.sats@,
        }
    }

    /// Nothing in view, nothing used, no group in progress.
    pub fn new() -> (r: Self)
        ensures
            r.wf(),
            r.sats() == Seq::<SatelliteInfo<R>>::empty(),
            r.used() == Set::<u32>::empty(),
            r.talkers() == Set::<Seq<char>>::empty(),
            forall|c: Constellation| #[trigger] r.progress(c) == idle_progress::<R>(),
    {
        let mut partial: Vec<GsvAccumulator<R>> = Vec::new();
        let mut k: usize = 0;
        while k < 6
            invariant
                k <= 6,
                partial.len() == k,
                forall|i: int|
                    0 <= i < k ==> (#[trigger] partial@[i]).expected_sentences == 0
                        && partial@[i].next_sentence == 0 && partial@[i].sats@.len() == 0,
            decreases 6 - k,
        {
            partial.push(GsvAccumulator { expected_sentences: 0, next_sentence: 0, sats: Vec::new() });
            k += 1;
        }
        let r = SkyTracker {
            satellites: Vec::new(),
            partial,
            used_prns: HashSet::new(),
            gsa_talkers_seen: Vec::new(),
        };
        assert(talker_texts(r.gsa_talkers_seen@) =~= Seq::<Seq<char>>::empty());
        assert(r.talkers() =~= Set::<Seq<char>>::empty());
        assert forall|c: Constellation|
            r.progress(c) == (GsvProgress::<R> {
                expected_sentences: 0,
                next_sentence: 0,
                sats: Seq::empty(),
            }) by {
            let i = constellation_rank(c);
            assert(r.partial@[i].sats@ =~= Seq::<SatelliteInfo<R>>::empty());
        }
        r
    }

    pub fn satellites(&self) -> (r: &Vec<SatelliteInfo<R>>)
        ensures
            r@ == self.sats(),
    {
        &self.satellites
    }

    /// Satellites in view grouped by constellation, for per-constellation
    /// counts: one entry per constellation that has any, in constellation
    /// order, each holding that constellation's satellites in table order.
    pub fn satellites_by_constellation(&self) -> (r: Vec<(Constellation, Vec<&SatelliteInfo<R>>)>)
        ensures
            forall|i: int|
                0 <= i < r@.len() ==> {
                    &&& unrefs(#[trigger] r@[i].1@) == in_constellation(self.sats(), r@[i].0)
                    &&& r@[i].1@.len() > 0
                },
            forall|i: int, j: int|
                0 <= i < j < r@.len() ==> constellation_rank(#[trigger] r@[i].0)
                    < constellation_rank(#[trigger] r@[j].0),
            forall|c: Constellation|
                #![trigger in_constellation(self.sats(), c)]
                in_constellation(self.sats(), c).len() > 0 ==> exists|i: int|
                    0 <= i < r@.len() && r@[i].0 == c,
    {
        let ghost sats = self.satellites@;
        let n = self.satellites.len();
        let mut out: Vec<(Constellation, Vec<&SatelliteInfo<R>>)> = Vec::new();
        let mut k: u8 = 0;
        while k < 6
            invariant
                k <= 6,
                sats == self.satellites@,
                n == sats.len(),
                forall|i: int|
                    0 <= i < out@.len() ==> {
                        &&& unrefs(#[trigger] out@[i].1@) == in_constellation(sats, out@[i].0)
                        &&& out@[i].1@.len() > 0
                        &&& constellation_rank(out@[i].0) < k
                    },
                forall|i: int, j: int|
                    0 <= i < j < out@.len() ==> constellation_rank(#[trigger] out@[i].0)
                        < constellation_rank(#[trigger] out@[j].0),
                forall|c: Constellation|
                    #![trigger in_constellation(sats, c)]
                    constellation_rank(c) < k && in_constellation(sats, c).len() > 0 ==> exists|
                        i: int,
                    | 0 <= i < out@.len() && out@[i].0 == c,
            decreases 6 - k,
        {
            let c = Constellation::at_rank(k);
            let mut group: Vec<&SatelliteInfo<R>> = Vec::new();
            let mut i: usize = 0;
            while i < n
                invariant
                    i <= n,
                    n == sats.len(),
                    sats == self.satellites@,
                    unrefs(group@) == in_constellation(sats.take(i as int), c),
                decreases n - i,
            {
                let sat = &self.satellites[i];
                assert(sats.take(i + 1).drop_last() =~= sats.take(i as int));
                if sat.constellation == c {
                    group.push(sat);
                    assert(unrefs(group@) =~= in_constellation(sats.take(i as int), c).push(*sat));
                }
                i += 1;
            }
            assert(sats.take(n as int) =~= sats);
            if group.len() > 0 {
                let ghost before = out@;
                out.push((c, group));
                assert forall|a: int, b: int| 0 <= a < b < out@.len() implies constellation_rank(
                    #[trigger] out@[a].0,
                ) < constellation_rank(#[trigger] out@[b].0) by {
                    assert(out@[a] == before[a]);
                    assert(unrefs(before[a].1@) == in_constellation(sats, before[a].0));
                    if b < before.len() {
                        assert(out@[b] == before[b]);
                    }
                }
                assert forall|c2: Constellation|
                    constellation_rank(c2) < k + 1 && #[trigger] in_constellation(sats, c2).len()
                        > 0 implies exists|i: int| 0 <= i < out@.len() && out@[i].0 == c2 by {
                    if constellation_rank(c2) == k {
                        assert(out@[before.len() as int].0 == c2);
                    } else {
                        let w = choose|i: int| 0 <= i < before.len() && before[i].0 == c2;
                        assert(out@[w].0 == c2);
                    }
                }
            } else {
                assert forall|c2: Constellation|
                    constellation_rank(c2) < k + 1 && #[trigger] in_constellation(sats, c2).len()
                        > 0 implies exists|i: int| 0 <= i < out@.len() && out@[i].0 == c2 by {
                    if constellation_rank(c2) == k {
                        assert(c2 == c);
                    }
                }
            }
            k += 1;
        }
        out
    }

    pub fn sats_in_view(&self) -> (r: usize)
        ensures
            r == self.sats().len(),
    {
        self.satellites.len()
    }

    /// Fold one GSV sentence into the accumulator of its constellation,
    /// committing the constellation's satellite list only once the group is
    /// complete.
    ///
    /// A group restarts at sentence 1. A sentence out of order, or from a group
    /// of a different size, means one was missed: the partial group is dropped
    /// rather than a truncated list committed.
    pub fn apply_gsv(
        &mut self,
        constellation: Constellation,
        number_of_sentences: u16,
        sentence_num: u16,
        sats: Vec<SatelliteInfo<R>>,
    )
        requires
            old(self).wf(),
            sentence_num < u16::MAX,
        ensures
            final(self).wf(),
            final(self).used() == old(self).used(),
            final(self).talkers() == old(self).talkers(),
            forall|c: Constellation|
                c != constellation ==> final(self).progress(c) == old(self).progress(c),
            ({
                let (next, committed) = gsv_step(
                    old(self).progress(constellation),
                    number_of_sentences,
                    sentence_num,
                    sats@,
                );
                &&& final(self).progress(constellation) == next
                &&& final(self).sats() == match committed {
                    Some(group) => commit_table(
                        old(self).sats(),
                        constellation,
                        group,
                        old(self).used(),
                    ),
                    None => old(self).sats(),
                }
            }),
    {
        let i = constellation.rank() as usize;
        let ghost old_partial = self.partial@;
        let mut acc = self.partial.remove(i);

        if sentence_num == 1 {
            acc.sats = Vec::new();
            acc.expected_sentences = number_of_sentences;
            acc.next_sentence = 1;
        } else if acc.next_sentence != sentence_num || acc.expected_sentences != number_of_sentences {
            acc.sats = Vec::new();
            acc.next_sentence = 0;
            let ghost a = acc;
            self.partial.insert(i, acc);
            proof {
                self.lemma_partial_restored(old_partial, i as int, a);
                assert(a.sats@ =~= Seq::<SatelliteInfo<R>>::empty());
            }
            return;
        }

        let mut incoming = sats;
        let ghost gathered = acc.sats@ + incoming@;
        acc.sats.append(&mut incoming);
        acc.next_sentence = sentence_num + 1;
        assert(sentence_num == 1 ==> gathered =~= sats@);

        if sentence_num == number_of_sentences {
            let mut complete = Vec::new();
            std::mem::swap(&mut complete, &mut acc.sats);
            acc.next_sentence = 0;
            let ghost a = acc;
            self.partial.insert(i, acc);
            proof {
                self.lemma_partial_restored(old_partial, i as int, a);
                assert(a.sats@ =~= Seq::<SatelliteInfo<R>>::empty());
            }
            self.commit_group(constellation, complete);
        } else {
            let ghost a = acc;
            self.partial.insert(i, acc);
            proof {
                self.lemma_partial_restored(old_partial, i as int, a);
            }
        }
    }

    /// After taking out and putting back the accumulator at `i`, every other
    /// constellation's progress is as it was.
    proof fn lemma_partial_restored(&self, before: Seq<GsvAccumulator<R>>, i: int, a: GsvAccumulator<R>)
        requires
            before.len() == 6,
            0 <= i < 6,
            self.partial@ == before.remove(i).insert(i, a),
        ensures
            self.partial.len() == 6,
            self.partial@[i] == a,
            forall|c: Constellation|
                constellation_rank(c) != i ==> self.partial@[constellation_rank(c)] == before[constellation_rank(c)],
    {
        assert forall|c: Constellation| constellation_rank(c) != i implies self.partial@[constellation_rank(c)] == before[constellation_rank(c)] by {
            let k = constellation_rank(c);
            if k < i {
                assert(self.partial@[k] == before.remove(i)[k]);
            } else {
                assert(self.partial@[k] == before.remove(i)[k - 1]);
            }
        }
    }

    /// Replace the satellites of `constellation` with `complete`, marked with
    /// the current used set, and keep the table sorted.
    fn commit_group(&mut self, constellation: Constellation, complete: Vec<SatelliteInfo<R>>)
        ensures
            final(self).partial@ == old(self).partial@,
            final(self).used_prns@ == old(self).used_prns@,
            final(self).gsa_talkers_seen@ == old(self).gsa_talkers_seen@,
            final(self).sats() == sort_listed(
                others(old(self).sats(), constellation) + mark_used(complete@, old(self).used()),
            ),
    {
        let mut table = Vec::new();
        std::mem::swap(&mut table, &mut self.satellites);
        let ghost before = table@;

        // The other constellations, in their order.
        let mut combined: Vec<SatelliteInfo<R>> = Vec::new();
        let n = table.len();
        let mut k: usize = 0;
        while k < n
            invariant
                k <= n,
                n == before.len(),
                table@ == before.subrange(k as int, n as int),
                combined@ == others(before.subrange(0, k as int), constellation),
            decreases n - k,
        {
            let sat = table.remove(0);
            assert(before.subrange(0, k + 1).drop_last() =~= before.subrange(0, k as int));
            if sat.constellation != constellation {
                combined.push(sat);
            }
            k += 1;
            assert(table@ =~= before.subrange(k as int, n as int));
        }
        assert(before.subrange(0, n as int) =~= before);

        // The completed group, marked against the used set.
        let ghost used = self.used_prns@;
        let ghost kept = combined@;
        let mut group = complete;
        let ghost fresh = group@;
        let m = group.len();
        let mut j: usize = 0;
        while j < m
            invariant
                j <= m,
                m == fresh.len(),
                group@ == fresh.subrange(j as int, m as int),
                combined@ == kept + mark_used(fresh.subrange(0, j as int), used),
                used == self.used_prns@,
            decreases m - j,
        {
            let mut sat = group.remove(0);
            sat.used_in_fix = contains_prn(&self.used_prns, sat.prn);
            combined.push(sat);
            j += 1;
            assert(group@ =~= fresh.subrange(j as int, m as int));
            assert(combined@ =~= kept + mark_used(fresh.subrange(0, j as int), used));
        }
        assert(fresh.subrange(0, m as int) =~= fresh);

        self.satellites = sort_by_listing(combined);
    }

    /// Fold one GSA sentence's used-PRN list in, and re-mark the table.
    ///
    /// Multi-constellation receivers emit several GSA sentences per cycle, and
    /// how a new cycle is detected depends on the talker. A `GN` (or `PQ`)
    /// talker emits one GSA per constellation under the same talker ID, so a
    /// repeated talker there is normal and must accumulate; only
    /// [`Self::begin_epoch`] ends such a cycle. For per-constellation talkers
    /// (`GP`, `GL`, …) a repeated ID does mean the cycle restarted.
    pub fn apply_gsa_prns(&mut self, talker_id: &str, prns: Vec<u32>)
        requires
            old(self).wf(),
        ensures
            final(self).wf(),
            forall|c: Constellation| final(self).progress(c) == old(self).progress(c),
            (final(self).talkers(), final(self).used()) == gsa_step(
                old(self).talkers(),
                old(self).used(),
                talker_id@,
                prns@.to_set(),
            ),
            final(self).sats() == mark_used(old(self).sats(), final(self).used()),
    {
        let accumulates = same_text(talker_id, "GN") || same_text(talker_id, "PQ");
        proof {
            reveal_strlit("GN");
            reveal_strlit("PQ");
        }
        let seen = self.seen_talker(talker_id);
        if seen && !accumulates {
            self.gsa_talkers_seen = Vec::new();
            self.used_prns.clear();
        }
        if !seen || !accumulates {
            self.gsa_talkers_seen.push(text_of(talker_id));
        }
        let ghost base = self.used_prns@;
        let ghost seen_now = self.gsa_talkers_seen@;
        let n = prns.len();
        let mut k: usize = 0;
        assert(prns@.subrange(0, 0).to_set() =~= Set::<u32>::empty());
        assert(base + Set::<u32>::empty() =~= base);
        while k < n
            invariant
                k <= n,
                n == prns.len(),
                self.used_prns@ == base + prns@.subrange(0, k as int).to_set(),
                self.gsa_talkers_seen@ == seen_now,
                self.partial@ == old(self).partial@,
                self.satellites@ == old(self).satellites@,
            decreases n - k,
        {
            let prn = prns[k];
            insert_prn(&mut self.used_prns, prn);
            proof {
                assert(prns@.subrange(0, k + 1) =~= prns@.subrange(0, k as int).push(prn));
                prns@.subrange(0, k as int).lemma_push_to_set_commute(prn);
                assert(self.used_prns@ =~= base + prns@.subrange(0, k + 1).to_set());
            }
            k += 1;
        }
        assert(prns@.subrange(0, n as int) =~= prns@);
        proof {
            let texts = talker_texts(self.gsa_talkers_seen@);
            let before = talker_texts(old(self).gsa_talkers_seen@);
            if seen && !accumulates {
                assert(texts =~= seq![talker_id@]);
                assert(texts.to_set() =~= Set::<Seq<char>>::empty().insert(talker_id@)) by {
                    Seq::<Seq<char>>::empty().lemma_push_to_set_commute(talker_id@);
                    assert(Seq::<Seq<char>>::empty().push(talker_id@) =~= texts);
                    assert(Seq::<Seq<char>>::empty().to_set() =~= Set::<Seq<char>>::empty());
                }
            } else if !seen {
                assert(texts =~= before.push(talker_id@));
                before.lemma_push_to_set_commute(talker_id@);
            } else {
                assert(texts =~= before);
                assert(old(self).talkers().insert(talker_id@) =~= old(self).talkers());
            }
        }
        if seen && !accumulates {
            assert(self.used_prns@ =~= prns@.to_set());
        }
        self.remark_table();
    }

    /// Whether `talker_id` has already reported a GSA this cycle.
    fn seen_talker(&self, talker_id: &str) -> (r: bool)
        ensures
            r == self.talkers().contains(talker_id@),
    {
        let n = self.gsa_talkers_seen.len();
        let mut k: usize = 0;
        while k < n
            invariant
                k <= n,
                n == self.gsa_talkers_seen.len(),
                forall|j: int| 0 <= j < k ==> self.gsa_talkers_seen@[j]@ != talker_id@,
            decreases n - k,
        {
            if same_text(self.gsa_talkers_seen[k].as_str(), talker_id) {
                assert(talker_texts(self.gsa_talkers_seen@)[k as int] == talker_id@);
                return true;
            }
            k += 1;
        }
        assert(!talker_texts(self.gsa_talkers_seen@).contains(talker_id@));
        false
    }

    /// Mark every satellite in the table against the current used set.
    fn remark_table(&mut self)
        ensures
            final(self).partial@ == old(self).partial@,
            final(self).used_prns@ == old(self).used_prns@,
            final(self).gsa_talkers_seen@ == old(self).gsa_talkers_seen@,
            final(self).sats() == mark_used(old(self).sats(), old(self).used()),
    {
        let mut table = Vec::new();
        std::mem::swap(&mut table, &mut self.satellites);
        let ghost before = table@;
        let ghost used = self.used_prns@;
        let n = table.len();
        let mut k: usize = 0;
        while k < n
            invariant
                k <= n,
                n == before.len(),
                table@ == before.subrange(k as int, n as int),
                self.satellites@ == mark_used(before.subrange(0, k as int), used),
                used == self.used_prns@,
                self.partial@ == old(self).partial@,
                self.used_prns@ == old(self).used_prns@,
                self.gsa_talkers_seen@ == old(self).gsa_talkers_seen@,
            decreases n - k,
        {
            let mut sat = table.remove(0);
            sat.used_in_fix = contains_prn(&self.used_prns, sat.prn);
            self.satellites.push(sat);
            k += 1;
            assert(table@ =~= before.subrange(k as int, n as int));
            assert(self.satellites@ =~= mark_used(before.subrange(0, k as int), used));
        }
        assert(before.subrange(0, n as int) =~= before);
    }

    /// Mark the start of a fix epoch (GGA). The used-PRN set is rebuilt from
    /// the GSA sentences that follow, which is the only reliable cycle boundary
    /// for receivers that emit every GSA under the `GN` talker.
    pub fn begin_epoch(&mut self)
        requires
            old(self).wf(),
        ensures
            final(self).wf(),
            final(self).sats() == old(self).sats(),
            forall|c: Constellation| final(self).progress(c) == old(self).progress(c),
            final(self).used() == Set::<u32>::empty(),
            final(self).talkers() == Set::<Seq<char>>::empty(),
    {
        self.gsa_talkers_seen = Vec::new();
        self.used_prns.clear();
        assert(talker_texts(self.gsa_talkers_seen@) =~= Seq::<Seq<char>>::empty());
        assert(self.talkers() =~= Set::<Seq<char>>::empty());
    }
}


/// The satellites of consecutive GSV sentences, concatenated.
pub open spec fn flatten<R>(groups: Seq<Seq<SatelliteInfo<R>>>) -> Seq<SatelliteInfo<R>>
    decreases groups.len(),
{
    if groups.len() == 0 {
        Seq::empty()
    } else {
        flatten(groups.drop_last()) + groups.last()
    }
}

/// Sentences 1 to `k` of an `n`-sentence group fed in order, starting from
/// progress `p`: the progress after the last one, and what it committed.
pub open spec fn feed_in_order<R>(
    p: GsvProgress<R>,
    n: u16,
    groups: Seq<Seq<SatelliteInfo<R>>>,
    k: nat,
) -> (GsvProgress<R>, Option<Seq<SatelliteInfo<R>>>)
    decreases k,
{
    if k == 0 {
        (p, None)
    } else {
        let (q, _) = feed_in_order(p, n, groups, (k - 1) as nat);
        gsv_step(q, n, k as u16, groups[k - 1])
    }
}

/// Law: a GSV group fed in order commits nothing until its last sentence,
/// and then commits exactly the satellites of all its sentences, whatever
/// state the constellation's accumulator was left in before.
pub proof fn lemma_group_commits_only_when_complete<R>(
    p: GsvProgress<R>,
    n: u16,
    groups: Seq<Seq<SatelliteInfo<R>>>,
    k: nat,
)
    requires
        1 <= k <= n,
        n < u16::MAX,
        groups.len() == n,
    ensures
        k < n ==> feed_in_order(p, n, groups, k) == (GsvProgress {
            expected_sentences: n,
            next_sentence: (k + 1) as u16,
            sats: flatten(groups.take(k as int)),
        }, None::<Seq<SatelliteInfo<R>>>),
        k == n ==> feed_in_order(p, n, groups, k) == (GsvProgress::<R> {
            expected_sentences: n,
            next_sentence: 0,
            sats: Seq::empty(),
        }, Some(flatten(groups))),
    decreases k,
{
    if k == 1 {
        assert(groups.take(1).drop_last() =~= Seq::<Seq<SatelliteInfo<R>>>::empty());
        assert(groups.take(1).last() == groups[0]);
        assert(flatten(Seq::<Seq<SatelliteInfo<R>>>::empty()) =~= Seq::<SatelliteInfo<R>>::empty());
        assert(flatten(groups.take(1)) =~= Seq::<SatelliteInfo<R>>::empty() + groups[0]);
        assert(flatten(groups.take(1)) =~= groups[0]);
        if n == 1 {
            assert(groups.take(1) =~= groups);
        }
    } else {
        lemma_group_commits_only_when_complete(p, n, groups, (k - 1) as nat);
        assert(groups.take(k as int).drop_last() =~= groups.take(k - 1));
        assert(groups.take(k as int).last() == groups[k - 1]);
        if k == n {
            assert(groups.take(k as int) =~= groups);
        }
    }
}

/// Law: a sentence that is not the next one expected (and does not start a
/// new group) never commits, and drops what was gathered so far.
pub proof fn lemma_out_of_order_sentence_never_commits<R>(
    p: GsvProgress<R>,
    n: u16,
    num: u16,
    sats: Seq<SatelliteInfo<R>>,
)
    requires
        num != 1,
        num != p.next_sentence || n != p.expected_sentences,
    ensures
        gsv_step(p, n, num, sats).1 is None,
        gsv_step(p, n, num, sats).0.sats.len() == 0,
        gsv_step(p, n, num, sats).0.next_sentence == 0,
{
}

/// Law: under a `GN` (or `PQ`) talker, successive GSA sentences of one cycle
/// accumulate: the used set is everything any of them reported.
pub proof fn lemma_combined_talker_accumulates(
    talkers: Set<Seq<char>>,
    used: Set<u32>,
    talker: Seq<char>,
    a: Set<u32>,
    b: Set<u32>,
)
    requires
        talker_accumulates(talker),
    ensures
        ({
            let (t1, u1) = gsa_step(talkers, used, talker, a);
            let (t2, u2) = gsa_step(t1, u1, talker, b);
            u2 == used + a + b && t2 == talkers.insert(talker)
        }),
{
    let (t1, u1) = gsa_step(talkers, used, talker, a);
    assert(t1.insert(talker) =~= t1);
}

/// Law: for a per-constellation talker, a second GSA from the same talker
/// starts a new cycle: only what it reports is used.
pub proof fn lemma_repeated_talker_restarts_cycle(
    talkers: Set<Seq<char>>,
    used: Set<u32>,
    talker: Seq<char>,
    a: Set<u32>,
    b: Set<u32>,
)
    requires
        !talker_accumulates(talker),
    ensures
        ({
            let (t1, u1) = gsa_step(talkers, used, talker, a);
            let (t2, u2) = gsa_step(t1, u1, talker, b);
            u2 == b && t2 == Set::<Seq<char>>::empty().insert(talker)
        }),
{
}

/// Law: the first GSA of a cycle from a talker not yet heard adds what it
/// reports to the used set, whichever talker it is: a GPS GSA followed by a
/// GLONASS one marks the satellites of both.
pub proof fn lemma_new_talker_adds_to_cycle(
    talkers: Set<Seq<char>>,
    used: Set<u32>,
    talker: Seq<char>,
    prns: Set<u32>,
)
    requires
        !talkers.contains(talker),
    ensures
        gsa_step(talkers, used, talker, prns) == (talkers.insert(talker), used + prns),
{
}

/// Law: within one cycle, GSAs from distinct talkers each heard once leave
/// every PRN any of them reported marked used.
pub proof fn lemma_distinct_talkers_accumulate(
    talkers: Set<Seq<char>>,
    used: Set<u32>,
    first: Seq<char>,
    second: Seq<char>,
    a: Set<u32>,
    b: Set<u32>,
)
    requires
        !talkers.contains(first),
        !talkers.contains(second),
        first != second,
    ensures
        ({
            let (t1, u1) = gsa_step(talkers, used, first, a);
            let (t2, u2) = gsa_step(t1, u1, second, b);
            u2 == used + a + b && t2 == talkers.insert(first).insert(second)
        }),
{
    lemma_new_talker_adds_to_cycle(talkers, used, first, a);
    lemma_new_talker_adds_to_cycle(talkers.insert(first), used + a, second, b);
}

proof fn lemma_insert_listed_elements<R>(s: Seq<SatelliteInfo<R>>, x: SatelliteInfo<R>)
    ensures
        insert_listed(s, x).len() == s.len() + 1,
        forall|i: int|
            0 <= i < insert_listed(s, x).len() ==> #[trigger] insert_listed(s, x)[i] == x
                || s.contains(insert_listed(s, x)[i]),
    decreases s.len(),
{
    if s.len() > 0 && !listed_before_or_with(s.last(), x) {
        let t = s.drop_last();
        lemma_insert_listed_elements(t, x);
        let r = insert_listed(s, x);
        assert forall|i: int| 0 <= i < r.len() implies #[trigger] r[i] == x || s.contains(r[i]) by {
            if i < r.len() - 1 {
                if r[i] != x {
                    let j = choose|j: int| 0 <= j < t.len() && t[j] == r[i];
                    assert(s[j] == r[i]);
                }
            } else {
                assert(s[s.len() - 1] == r[i]);
            }
        }
    } else if s.len() > 0 {
        let r = insert_listed(s, x);
        assert forall|i: int| 0 <= i < r.len() implies #[trigger] r[i] == x || s.contains(r[i]) by {
            if i < s.len() {
                assert(s[i] == r[i]);
            }
        }
    }
}

proof fn lemma_insert_listed_in_order<R>(s: Seq<SatelliteInfo<R>>, x: SatelliteInfo<R>)
    requires
        is_listed_in_order(s),
    ensures
        is_listed_in_order(insert_listed(s, x)),
    decreases s.len(),
{
    if s.len() == 0 {
    } else if listed_before_or_with(s.last(), x) {
        let r = s.push(x);
        assert forall|i: int, j: int| 0 <= i < j < r.len() implies listed_before_or_with(
            r[i],
            r[j],
        ) by {
            if j == s.len() {
                if i < s.len() - 1 {
                    assert(listed_before_or_with(s[i], s[s.len() - 1]));
                }
            } else {
                assert(r[i] == s[i] && r[j] == s[j]);
            }
        }
    } else {
        let t = s.drop_last();
        assert(is_listed_in_order(t));
        lemma_insert_listed_in_order(t, x);
        lemma_insert_listed_elements(t, x);
        let rt = insert_listed(t, x);
        let r = rt.push(s.last());
        assert forall|i: int, j: int| 0 <= i < j < r.len() implies listed_before_or_with(
            r[i],
            r[j],
        ) by {
            if j == r.len() - 1 {
                assert(r[i] == rt[i]);
                if rt[i] != x {
                    let k = choose|k: int| 0 <= k < t.len() && t[k] == rt[i];
                    assert(listed_before_or_with(s[k], s[s.len() - 1]));
                }
            } else {
                assert(r[i] == rt[i] && r[j] == rt[j]);
            }
        }
    }
}

proof fn lemma_insert_listed_multiset<R>(s: Seq<SatelliteInfo<R>>, x: SatelliteInfo<R>)
    ensures
        insert_listed(s, x).to_multiset() =~= s.to_multiset().insert(x),
    decreases s.len(),
{
    broadcast use vstd::seq_lib::group_to_multiset_ensures;

    if s.len() == 0 {
        assert(seq![x] =~= s.push(x));
    } else if listed_before_or_with(s.last(), x) {
    } else {
        let t = s.drop_last();
        lemma_insert_listed_multiset(t, x);
        assert(t.push(s.last()) =~= s);
    }
}

/// Law: the satellite table is always listed by constellation, then PRN,
/// and holds exactly the satellites it was built from.
pub proof fn lemma_sort_listed<R>(s: Seq<SatelliteInfo<R>>)
    ensures
        is_listed_in_order(sort_listed(s)),
        sort_listed(s).to_multiset() =~= s.to_multiset(),
    decreases s.len(),
{
    broadcast use vstd::seq_lib::group_to_multiset_ensures;

    if s.len() > 0 {
        lemma_sort_listed(s.drop_last());
        lemma_insert_listed_in_order(sort_listed(s.drop_last()), s.last());
        lemma_insert_listed_multiset(sort_listed(s.drop_last()), s.last());
        assert(s.drop_last().push(s.last()) =~= s);
    }
}

/// Law: committing a completed group leaves the table in order, holding the
/// other constellations' satellites and the group's, and nothing else.
pub proof fn lemma_commit_table<R>(
    table: Seq<SatelliteInfo<R>>,
    c: Constellation,
    group: Seq<SatelliteInfo<R>>,
    used: Set<u32>,
)
    ensures
        is_listed_in_order(commit_table(table, c, group, used)),
        commit_table(table, c, group, used).to_multiset() =~= (others(table, c) + mark_used(
            group,
            used,
        )).to_multiset(),
{
    lemma_sort_listed(others(table, c) + mark_used(group, used));
}

fn contains_prn(prns: &HashSet<u32>, prn: u32) -> (r: bool)
    ensures
        r == prns@.contains(prn),
{
    broadcast use vstd::std_specs::hash::group_hash_axioms;

    prns.contains(&prn)
}

fn insert_prn(prns: &mut HashSet<u32>, prn: u32)
    ensures
        final(prns)@ == old(prns)@.insert(prn),
{
    broadcast use vstd::std_specs::hash::group_hash_axioms;

    prns.insert(prn);
}

fn listed_before_or_with_exec<R>(a: &SatelliteInfo<R>, b: &SatelliteInfo<R>) -> (r: bool)
    ensures
        r == listed_before_or_with(*a, *b),
{
    let ra = a.constellation.rank();
    let rb = b.constellation.rank();
    ra < rb || (ra == rb && a.prn <= b.prn)
}

/// `out` with `x` inserted after every element, from the back, that does not
/// list after it.
fn insert_by_listing<R>(out: &mut Vec<SatelliteInfo<R>>, x: SatelliteInfo<R>)
    ensures
        final(out)@ == insert_listed(old(out)@, x),
{
    let ghost s = out@;
    let mut j = out.len();
    assert(s.subrange(0, j as int) =~= s);
    assert(s.subrange(j as int, s.len() as int) =~= Seq::<SatelliteInfo<R>>::empty());
    while j > 0 && !listed_before_or_with_exec(&out[j - 1], &x)
        invariant
            j <= s.len(),
            out@ == s,
            insert_listed(s, x) == insert_listed(s.subrange(0, j as int), x) + s.subrange(
                j as int,
                s.len() as int,
            ),
        decreases j,
    {
        let ghost p = s.subrange(0, j as int);
        assert(p.drop_last() =~= s.subrange(0, j - 1));
        assert(p.last() == s[j - 1]);
        assert(insert_listed(p, x) == insert_listed(s.subrange(0, j - 1), x).push(s[j - 1]));
        assert(insert_listed(s.subrange(0, j - 1), x).push(s[j - 1]) + s.subrange(
            j as int,
            s.len() as int,
        ) =~= insert_listed(s.subrange(0, j - 1), x) + s.subrange(j - 1, s.len() as int));
        j -= 1;
    }
    out.insert(j, x);
    proof {
        let p = s.subrange(0, j as int);
        if j == 0 {
            assert(p.len() == 0);
            assert(insert_listed(p, x) == seq![x]);
        } else {
            assert(p.last() == s[j - 1]);
            assert(insert_listed(p, x) == p.push(x));
        }
        assert(out@ =~= insert_listed(p, x) + s.subrange(j as int, s.len() as int));
    }
}

/// Stable sort by (constellation, PRN).
fn sort_by_listing<R>(v: Vec<SatelliteInfo<R>>) -> (r: Vec<SatelliteInfo<R>>)
    ensures
        r@ == sort_listed(v@),
{
    let mut rest = v;
    let ghost s = rest@;
    let n = rest.len();
    let mut out: Vec<SatelliteInfo<R>> = Vec::new();
    let mut k: usize = 0;
    assert(s.subrange(0, 0) =~= Seq::<SatelliteInfo<R>>::empty());
    assert(s.subrange(0, n as int) =~= s);
    while k < n
        invariant
            k <= n,
            n == s.len(),
            rest@ == s.subrange(k as int, n as int),
            out@ == sort_listed(s.subrange(0, k as int)),
        decreases n - k,
    {
        let x = rest.remove(0);
        let ghost p = s.subrange(0, k + 1);
        assert(p.drop_last() =~= s.subrange(0, k as int));
        assert(p.last() == x);
        insert_by_listing(&mut out, x);
        k += 1;
        assert(rest@ =~= s.subrange(k as int, n as int));
    }
    out
}

} // verus!
