//! One receiver's picture, and how a raw line off the wire changes it.
//!
//! Every line, from whichever source, passes through [`Receiver::ingest_line`]:
//! it is trimmed, blank lines are ignored, the checksum is checked once here,
//! and only a line that does not fail it is handed to the sentence parser.
//! Whatever became of it is counted and kept in the raw log, so a debugger can
//! show what was rejected as well as what was decoded.

use vstd::prelude::*;
use vstd::utf8::encode_utf8;
use std::collections::VecDeque;

use crate::checksum::{checksum_result, verify_checksum, ChecksumResult};
use crate::counters::{
    counted, push_capped, pushed_capped, SentenceCounters, MAX_HISTORY, MAX_RAW_SENTENCES,
    MAX_TRACK_POINTS,
};
use crate::fix::{
    apply_sentence, counts_toward_trip, fix_after, no_fix, sky_after, FixState, Sentence,
};
use crate::sky::{idle_progress, SatelliteInfo, SkyTracker};
use crate::status::Constellation;
use crate::status::{RawSentence, SentenceOutcome};
use crate::text::{chars_of, is_white, string_of, trim_both, trim_range, drop_leading, drop_trailing};

verus! {

/// What the sentence parser made of a line the checksum let through.
pub enum Parsed<C, R, T, D> {
    /// Decoded: its sentence type (such as `GGA`) and what it carries.
    Decoded { kind: String, sentence: Sentence<C, R, T, D> },
    /// Well-formed, but of a type the parser does not know.
    Unsupported,
    /// The parser's complaint.
    Failed { message: String },
}

/// How a parse result is counted.
pub open spec fn outcome_of<C, R, T, D>(p: Parsed<C, R, T, D>) -> SentenceOutcome {
    match p {
        Parsed::Decoded { kind, .. } => SentenceOutcome::Decoded(kind),
        Parsed::Unsupported => SentenceOutcome::Unsupported,
        Parsed::Failed { message } => SentenceOutcome::ParseError(message),
    }
}

/// A parse result the receiver can fold in: a GSV sentence number that leaves
/// room for the next one.
pub open spec fn applicable<C, R, T, D>(p: Parsed<C, R, T, D>) -> bool {
    p matches Parsed::Decoded { sentence: Sentence::Gsv { sentence_num, .. }, .. }
        ==> sentence_num < u16::MAX
}

/// What became of a line.
#[derive(Debug, Clone, Copy, PartialEq, Eq, Structural)]
pub enum Ingested {
    /// Blank: not a sentence, not counted.
    Ignored,
    /// Counted and logged.
    Counted,
    /// Counted, logged, and a decoded GGA: the fix epoch is complete, so the
    /// track, plots and trip statistics may advance.
    EpochClosed,
}

/// `after` is the raw log `before` with one entry appended (and the oldest
/// dropped at the cap), holding `text` and `outcome`.
pub open spec fn logged(
    before: Seq<RawSentence>,
    after: Seq<RawSentence>,
    text: Seq<char>,
    outcome: SentenceOutcome,
) -> bool {
    &&& after.len() > 0
    &&& after == pushed_capped(before, after.last(), MAX_RAW_SENTENCES as nat)
    &&& after.last().text@ == text
    &&& after.last().outcome == outcome
}

/// The fix, satellite table, counters and raw log of one receiver.
pub struct Receiver<C, R, T, D> {
    pub fix: FixState<C, R, T, D>,
    pub sky: SkyTracker<R>,
    pub counters: SentenceCounters,
    /// The most recent lines as received, for the debug view.
    pub raw: VecDeque<RawSentence>,
}

/// `after` is `before` once the checksum-passing line `text` has been parsed
/// as `p`: counted and logged under `p`'s outcome and, when decoded, folded
/// into the fix and the satellite table.
pub open spec fn parsed_into<C, R, T, D>(
    before: Receiver<C, R, T, D>,
    after: Receiver<C, R, T, D>,
    text: Seq<char>,
    p: Parsed<C, R, T, D>,
    r: Ingested,
) -> bool {
    &&& counted(before.counters, after.counters, outcome_of(p))
    &&& logged(before.raw@, after.raw@, text, outcome_of(p))
    &&& match p {
        Parsed::Decoded { sentence, .. } => {
            &&& after.fix == fix_after(before.fix, sentence)
            &&& sky_after(before.sky, after.sky, sentence)
            &&& r == if sentence is Gga {
                Ingested::EpochClosed
            } else {
                Ingested::Counted
            }
        },
        _ => {
            &&& after.fix == before.fix
            &&& after.sky == before.sky
            &&& r == Ingested::Counted
        },
    }
}

impl<C: Copy, R: Copy, T: Copy, D: Copy> Receiver<C, R, T, D> {
    /// The parts agree: the satellite table is well formed, the counters add
    /// up, and the raw log is within its cap.
    pub open spec fn wf(&self) -> bool {
        &&& self.sky.wf()
        &&& self.counters.consistent()
        &&& self.raw@.len() <= MAX_RAW_SENTENCES
    }

    /// Nothing received yet.
    pub fn new() -> (r: Self)
        ensures
            r.wf(),
            r.fix == no_fix::<C, R, T, D>(),
            r.sky.sats() == Seq::<SatelliteInfo<R>>::empty(),
            r.sky.used() == Set::<u32>::empty(),
            r.sky.talkers() == Set::<Seq<char>>::empty(),
            forall|c: Constellation| #[trigger] r.sky.progress(c) == idle_progress::<R>(),
            r.counters.total == 0,
            r.counters.by_type@.len() == 0,
            r.raw@.len() == 0,
    {
        Receiver {
            fix: FixState::new(),
            sky: SkyTracker::new(),
            counters: SentenceCounters::new(),
            raw: VecDeque::new(),
        }
    }

    /// Count a line under its outcome and keep it in the raw log.
    fn record_raw(&mut self, text: String, outcome: SentenceOutcome)
        requires
            old(self).wf(),
            old(self).counters.total < u64::MAX,
        ensures
            final(self).wf(),
            final(self).fix == old(self).fix,
            final(self).sky == old(self).sky,
            counted(old(self).counters, final(self).counters, outcome),
            final(self).raw@ == pushed_capped(
                old(self).raw@,
                RawSentence { text, outcome },
                MAX_RAW_SENTENCES as nat,
            ),
    {
        self.counters.record(&outcome);
        push_capped(&mut self.raw, RawSentence { text, outcome }, MAX_RAW_SENTENCES);
    }

    /// Take in one raw line. Surrounding whitespace (line endings included) is
    /// trimmed off and a blank line ignored. A line whose checksum does not
    /// match is counted as a checksum failure and goes no further; any other
    /// line is handed to `parse`, and counted and logged under what it made
    /// of it. A decoded sentence is folded into the fix and the satellite
    /// table.
    pub fn ingest_line<F: FnOnce(&str) -> Parsed<C, R, T, D>>(&mut self, line: &str, parse: F) -> (r:
        Ingested)
        requires
            old(self).wf(),
            old(self).counters.total < u64::MAX,
            forall|s: &str| #[trigger] call_requires(parse, (s,)),
            forall|s: &str, p: Parsed<C, R, T, D>|
                #[trigger] call_ensures(parse, (s,), p) ==> applicable(p),
        ensures
            final(self).wf(),
            ({
                let t = trim_both(line@, false);
                if t.len() == 0 {
                    &&& r == Ingested::Ignored
                    &&& final(self).fix == old(self).fix
                    &&& final(self).sky == old(self).sky
                    &&& final(self).counters == old(self).counters
                    &&& final(self).raw@ == old(self).raw@
                } else if checksum_result(encode_utf8(t)) is Mismatch {
                    &&& r == Ingested::Counted
                    &&& final(self).fix == old(self).fix
                    &&& final(self).sky == old(self).sky
                    &&& counted(old(self).counters, final(self).counters, SentenceOutcome::ChecksumFailed)
                    &&& logged(old(self).raw@, final(self).raw@, t, SentenceOutcome::ChecksumFailed)
                } else {
                    exists|s: &str, p: Parsed<C, R, T, D>|
                        #![trigger call_ensures(parse, (s,), p)]
                        s@ == t && call_ensures(parse, (s,), p) && parsed_into(
                            *old(self),
                            *final(self),
                            t,
                            p,
                            r,
                        )
                }
            }),
    {
        let v = chars_of(line);
        let n = v.len();
        assert(v@.subrange(0, n as int) =~= line@);
        let (a, b) = trim_range(&v, 0, n, false);
        if a == b {
            return Ingested::Ignored;
        }
        let text = string_of(&v, a, b);
        let ghost t = text@;
        let check = verify_checksum(text.as_str());
        if let ChecksumResult::Mismatch { .. } = check {
            self.record_raw(text, SentenceOutcome::ChecksumFailed);
            return Ingested::Counted;
        }
        let ghost before = *self;
        let s = text.as_str();
        let parsed = parse(s);
        let ghost p = parsed;
        assert(call_ensures(parse, (s,), p));
        match parsed {
            Parsed::Decoded { kind, sentence } => {
                self.record_raw(text, SentenceOutcome::Decoded(kind));
                let epoch = apply_sentence(&mut self.fix, &mut self.sky, sentence);
                if epoch {
                    Ingested::EpochClosed
                } else {
                    Ingested::Counted
                }
            },
            Parsed::Unsupported => {
                self.record_raw(text, SentenceOutcome::Unsupported);
                Ingested::Counted
            },
            Parsed::Failed { message } => {
                self.record_raw(text, SentenceOutcome::ParseError(message));
                Ingested::Counted
            },
        }
    }
}

proof fn lemma_white_drops_away(w: Seq<char>)
    requires
        forall|i: int| 0 <= i < w.len() ==> is_white(#[trigger] w[i]),
    ensures
        drop_leading(w, false).len() == 0,
    decreases w.len(),
{
    if w.len() > 0 {
        lemma_white_drops_away(w.drop_first());
    }
}

proof fn lemma_trailing_white_dropped(d: Seq<char>, w: Seq<char>)
    requires
        forall|i: int| 0 <= i < w.len() ==> is_white(#[trigger] w[i]),
    ensures
        drop_trailing(d + w, false) == drop_trailing(d, false),
    decreases w.len(),
{
    if w.len() == 0 {
        assert(d + w =~= d);
    } else {
        assert((d + w).last() == w.last());
        assert((d + w).drop_last() =~= d + w.drop_last());
        lemma_trailing_white_dropped(d, w.drop_last());
    }
}

proof fn lemma_leading_drop_of_concat(s: Seq<char>, w: Seq<char>)
    requires
        forall|i: int| 0 <= i < w.len() ==> is_white(#[trigger] w[i]),
    ensures
        drop_leading(s + w, false) == if drop_leading(s, false).len() > 0 {
            drop_leading(s, false) + w
        } else {
            Seq::<char>::empty()
        },
    decreases s.len(),
{
    if s.len() == 0 {
        assert(s + w =~= w);
        lemma_white_drops_away(w);
    } else {
        assert((s + w)[0] == s[0]);
        if is_white(s[0]) {
            assert((s + w).drop_first() =~= s.drop_first() + w);
            lemma_leading_drop_of_concat(s.drop_first(), w);
        }
    }
}

/// Law: whitespace after a line (the CRLF a capture writes back, say) changes
/// nothing about how it is taken in. [`Receiver::ingest_line`] depends on the
/// line only through its trimmed text, and that is the same with or without
/// the trailing whitespace — which is why a recorded session replays to the
/// same counts and fix as the live one.
pub proof fn lemma_trailing_whitespace_is_immaterial(line: Seq<char>, tail: Seq<char>)
    requires
        forall|i: int| 0 <= i < tail.len() ==> is_white(#[trigger] tail[i]),
    ensures
        trim_both(line + tail, false) == trim_both(line, false),
{
    lemma_leading_drop_of_concat(line, tail);
    if drop_leading(line, false).len() > 0 {
        lemma_trailing_white_dropped(drop_leading(line, false), tail);
    }
}

/// The CRLF ending NMEA 0183 puts on the wire, in particular.
pub proof fn lemma_crlf_is_immaterial(line: Seq<char>)
    ensures
        trim_both(line + seq!['\r', '\n'], false) == trim_both(line, false),
{
    let tail = seq!['\r', '\n'];
    assert(is_white(tail[0]) && is_white(tail[1]));
    lemma_trailing_whitespace_is_immaterial(line, tail);
}

/// Law: each parse result is counted and logged under its own outcome. A line
/// the parser rejects is a parse failure carrying the parser's message; one it
/// does not know is unsupported; one it decodes is counted as decoded under
/// its type. Exactly one of those counters rises, and neither rejection
/// changes the fix or the satellite table. Only a decoded GGA closes a fix
/// epoch.
pub proof fn lemma_parse_results_are_told_apart<C, R, T, D>(
    before: Receiver<C, R, T, D>,
    after: Receiver<C, R, T, D>,
    text: Seq<char>,
    p: Parsed<C, R, T, D>,
    r: Ingested,
)
    requires
        parsed_into(before, after, text, p, r),
    ensures
        after.counters.total == before.counters.total + 1,
        after.counters.checksum_failed == before.counters.checksum_failed,
        after.raw@.last().text@ == text,
        p matches Parsed::Failed { message } ==> {
            &&& after.counters.parse_failed == before.counters.parse_failed + 1
            &&& after.counters.unsupported == before.counters.unsupported
            &&& after.counters.decoded == before.counters.decoded
            &&& after.raw@.last().outcome == SentenceOutcome::ParseError(message)
            &&& after.fix == before.fix
            &&& after.sky == before.sky
            &&& r == Ingested::Counted
        },
        p is Unsupported ==> {
            &&& after.counters.unsupported == before.counters.unsupported + 1
            &&& after.counters.parse_failed == before.counters.parse_failed
            &&& after.counters.decoded == before.counters.decoded
            &&& after.raw@.last().outcome == SentenceOutcome::Unsupported
            &&& after.fix == before.fix
            &&& after.sky == before.sky
            &&& r == Ingested::Counted
        },
        p matches Parsed::Decoded { kind, .. } ==> {
            &&& after.counters.decoded == before.counters.decoded + 1
            &&& after.counters.parse_failed == before.counters.parse_failed
            &&& after.counters.unsupported == before.counters.unsupported
            &&& after.raw@.last().outcome == SentenceOutcome::Decoded(kind)
        },
        p matches Parsed::Decoded { sentence, .. } ==> (r == Ingested::EpochClosed
            <==> sentence is Gga),
{
}

/// What a closed fix epoch adds to a session's history: a plotted sample
/// always, and a track point, made by `point_at` from the position, only when
/// the fix counts toward the trip. Returns whether the track advanced, after
/// which the trip totals advance too.
pub fn advance_epoch<C: Copy, R: Copy, T: Copy, D: Copy, S, P, F: FnOnce(C, C) -> P>(
    fix: &FixState<C, R, T, D>,
    history: &mut VecDeque<S>,
    sample: S,
    track: &mut VecDeque<P>,
    point_at: F,
) -> (moved: bool)
    requires
        forall|lat: C, lon: C| #[trigger] call_requires(point_at, (lat, lon)),
    ensures
        final(history)@ == pushed_capped(old(history)@, sample, MAX_HISTORY as nat),
        moved == counts_toward_trip(*fix),
        moved ==> exists|p: P|
            #[trigger] call_ensures(point_at, (fix.latitude->0, fix.longitude->0), p)
                && final(track)@ == pushed_capped(old(track)@, p, MAX_TRACK_POINTS as nat),
        !moved ==> final(track)@ == old(track)@,
{
    push_capped(history, sample, MAX_HISTORY);
    if !fix.counts_for_trip() {
        return false;
    }
    match (fix.latitude, fix.longitude) {
        (Some(lat), Some(lon)) => {
            let point = point_at(lat, lon);
            let ghost p = point;
            push_capped(track, point, MAX_TRACK_POINTS);
            assert(call_ensures(point_at, (lat, lon), p));
            true
        },
        _ => false,
    }
}

} // verus!
