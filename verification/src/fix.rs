//! Folding decoded sentences into the current fix.
//!
//! Each sentence type contributes the fields it carries; a field a sentence
//! leaves empty never erases what an earlier sentence reported. The values
//! themselves (coordinates, readings, times, dates) are only carried, so the
//! fix is generic over their types.

use vstd::prelude::*;

use crate::sky::{SatelliteInfo, SkyTracker, commit_table, gsa_step, gsv_step};
use crate::status::{Constellation, FixMode, FixQuality, is_trustworthy};

verus! {

/// The receiver's current fix. `C` is the type of a coordinate in degrees,
/// `R` of a reading (metres, knots, degrees, dilution of precision), `T` of a
/// time of day and `D` of a date.
#[derive(Debug, Clone, Copy, PartialEq, Default)]
pub struct FixState<C, R, T, D> {
    pub fix_mode: FixMode,
    pub fix_quality: FixQuality,
    /// RMC status field: `A` (active) vs `V` (void).
    pub rmc_valid: bool,
    pub latitude: Option<C>,
    pub longitude: Option<C>,
    pub altitude_m: Option<R>,
    pub geoid_separation_m: Option<R>,
    /// Speed over ground, knots (as reported by RMC/VTG).
    pub speed_knots: Option<R>,
    /// Course over ground, degrees true.
    pub course_deg: Option<R>,
    /// True heading from HDT, when the receiver provides it. Distinct from course.
    pub heading_deg: Option<R>,
    pub hdop: Option<R>,
    pub vdop: Option<R>,
    pub pdop: Option<R>,
    /// Satellites used in the fix, per GGA.
    pub sats_used: Option<u32>,
    pub fix_time: Option<T>,
    pub fix_date: Option<D>,
}

/// A decoded sentence, reduced to what the fix and the satellite table use.
pub enum Sentence<C, R, T, D> {
    /// Fix data: quality, position, altitude, HDOP, satellites used. Marks
    /// the end of a fix epoch.
    Gga {
        fix_quality: Option<FixQuality>,
        fix_time: Option<T>,
        latitude: Option<C>,
        longitude: Option<C>,
        altitude_m: Option<R>,
        geoid_separation_m: Option<R>,
        hdop: Option<R>,
        sats_used: Option<u32>,
    },
    /// Recommended minimum: the primary source of speed and course, and the
    /// only sentence carrying the date.
    Rmc {
        valid: bool,
        fix_time: Option<T>,
        fix_date: Option<D>,
        latitude: Option<C>,
        longitude: Option<C>,
        speed_knots: Option<R>,
        course_deg: Option<R>,
    },
    /// 2D/3D fix mode, the DOP triple, and the PRNs used in the solution.
    Gsa {
        mode: FixMode,
        pdop: Option<R>,
        hdop: Option<R>,
        vdop: Option<R>,
        talker_id: String,
        prns: Vec<u32>,
    },
    /// One sentence of a satellites-in-view group.
    Gsv {
        constellation: Constellation,
        number_of_sentences: u16,
        sentence_num: u16,
        sats: Vec<SatelliteInfo<R>>,
    },
    /// Course and speed over ground, duplicating RMC on most receivers.
    Vtg { speed_knots: Option<R>, course_deg: Option<R> },
    /// Bare position and time, with a validity flag.
    Gll { valid: bool, latitude: Option<C>, longitude: Option<C>, fix_time: Option<T> },
    /// True heading.
    Hdt { heading_deg: Option<R> },
    /// Time and date.
    Zda { time: Option<T>, date: Option<D> },
    /// Decoded, but carrying nothing the fix uses.
    Other,
}

/// No fix, nothing reported yet.
pub open spec fn no_fix<C, R, T, D>() -> FixState<C, R, T, D> {
    FixState {
        fix_mode: FixMode::NoFix,
        fix_quality: FixQuality::Invalid,
        rmc_valid: false,
        latitude: None,
        longitude: None,
        altitude_m: None,
        geoid_separation_m: None,
        speed_knots: None,
        course_deg: None,
        heading_deg: None,
        hdop: None,
        vdop: None,
        pdop: None,
        sats_used: None,
        fix_time: None,
        fix_date: None,
    }
}

/// A trustworthy quality, a 2D or 3D fix, and a position.
pub open spec fn counts_toward_trip<C, R, T, D>(f: FixState<C, R, T, D>) -> bool {
    is_trustworthy(f.fix_quality) && f.fix_mode != FixMode::NoFix && f.latitude is Some
        && f.longitude is Some
}

/// The reported value when there is one, else the one already known.
pub open spec fn newer<X>(reported: Option<X>, known: Option<X>) -> Option<X> {
    if reported is Some {
        reported
    } else {
        known
    }
}

/// The fix after one sentence.
pub open spec fn fix_after<C, R, T, D>(f: FixState<C, R, T, D>, s: Sentence<C, R, T, D>) -> FixState<
    C,
    R,
    T,
    D,
> {
    match s {
        Sentence::Gga {
            fix_quality,
            fix_time,
            latitude,
            longitude,
            altitude_m,
            geoid_separation_m,
            hdop,
            sats_used,
        } => FixState {
            fix_quality: match fix_quality {
                Some(q) => q,
                None => f.fix_quality,
            },
            fix_time: newer(fix_time, f.fix_time),
            latitude: newer(latitude, f.latitude),
            longitude: newer(longitude, f.longitude),
            altitude_m: newer(altitude_m, f.altitude_m),
            geoid_separation_m: newer(geoid_separation_m, f.geoid_separation_m),
            hdop: newer(hdop, f.hdop),
            sats_used: newer(sats_used, f.sats_used),
            ..f
        },
        Sentence::Rmc { valid, fix_time, fix_date, latitude, longitude, speed_knots, course_deg } => {
            if valid {
                FixState {
                    rmc_valid: true,
                    fix_time: newer(fix_time, f.fix_time),
                    fix_date: newer(fix_date, f.fix_date),
                    latitude: newer(latitude, f.latitude),
                    longitude: newer(longitude, f.longitude),
                    speed_knots: newer(speed_knots, f.speed_knots),
                    course_deg: newer(course_deg, f.course_deg),
                    ..f
                }
            } else {
                FixState {
                    rmc_valid: false,
                    fix_time: newer(fix_time, f.fix_time),
                    fix_date: newer(fix_date, f.fix_date),
                    ..f
                }
            }
        },
        Sentence::Gsa { mode, pdop, hdop, vdop, .. } => FixState {
            fix_mode: mode,
            pdop: newer(pdop, f.pdop),
            hdop: newer(hdop, f.hdop),
            vdop: newer(vdop, f.vdop),
            ..f
        },
        Sentence::Vtg { speed_knots, course_deg } => FixState {
            speed_knots: newer(speed_knots, f.speed_knots),
            course_deg: newer(course_deg, f.course_deg),
            ..f
        },
        Sentence::Gll { valid, latitude, longitude, fix_time } => {
            if valid {
                FixState {
                    latitude: newer(latitude, f.latitude),
                    longitude: newer(longitude, f.longitude),
                    fix_time: newer(fix_time, f.fix_time),
                    ..f
                }
            } else {
                f
            }
        },
        Sentence::Hdt { heading_deg } => FixState { heading_deg: newer(heading_deg, f.heading_deg), ..f },
        Sentence::Zda { time, date } => FixState {
            fix_time: newer(time, f.fix_time),
            fix_date: newer(date, f.fix_date),
            ..f
        },
        Sentence::Gsv { .. } | Sentence::Other => f,
    }
}

fn newer_of<X: Copy>(reported: Option<X>, known: Option<X>) -> (r: Option<X>)
    ensures
        r == newer(reported, known),
{
    match reported {
        Some(x) => Some(x),
        None => known,
    }
}

impl<C: Copy, R: Copy, T: Copy, D: Copy> FixState<C, R, T, D> {
    /// No fix, nothing reported yet.
    pub fn new() -> (r: Self)
        ensures
            r == no_fix::<C, R, T, D>(),
    {
        FixState {
            fix_mode: FixMode::NoFix,
            fix_quality: FixQuality::Invalid,
            rmc_valid: false,
            latitude: None,
            longitude: None,
            altitude_m: None,
            geoid_separation_m: None,
            speed_knots: None,
            course_deg: None,
            heading_deg: None,
            hdop: None,
            vdop: None,
            pdop: None,
            sats_used: None,
            fix_time: None,
            fix_date: None,
        }
    }

    /// Latitude and longitude, when both are known.
    pub fn position(&self) -> (r: Option<(C, C)>)
        ensures
            r == match (self.latitude, self.longitude) {
                (Some(lat), Some(lon)) => Some((lat, lon)),
                _ => None,
            },
    {
        match (self.latitude, self.longitude) {
            (Some(lat), Some(lon)) => Some((lat, lon)),
            _ => None,
        }
    }

    /// Whether this epoch's fix may move the track and the trip totals: a
    /// trustworthy quality, a 2D or 3D fix, and a position. Without a valid
    /// fix the receiver still reports a stale position, which would otherwise
    /// register as a jump back and forth.
    pub fn counts_for_trip(&self) -> (r: bool)
        ensures
            r == counts_toward_trip(*self),
    {
        self.fix_quality.is_valid() && self.fix_mode.has_fix() && self.latitude.is_some()
            && self.longitude.is_some()
    }
}

/// What a sentence does to the satellite table: GGA opens a new GSA cycle,
/// GSA marks the satellites used, GSV gathers (and, once complete, commits) a
/// constellation's group, and nothing else touches it.
pub open spec fn sky_after<C, R, T, D>(
    before: SkyTracker<R>,
    after: SkyTracker<R>,
    sentence: Sentence<C, R, T, D>,
) -> bool {
    match sentence {
        Sentence::Gga { .. } => {
            &&& after.sats() == before.sats()
            &&& forall|c: Constellation| after.progress(c) == before.progress(c)
            &&& after.used() == Set::<u32>::empty()
            &&& after.talkers() == Set::<Seq<char>>::empty()
        },
        Sentence::Gsa { talker_id, prns, .. } => {
            &&& (after.talkers(), after.used()) == gsa_step(
                before.talkers(),
                before.used(),
                talker_id@,
                prns@.to_set(),
            )
            &&& forall|c: Constellation| after.progress(c) == before.progress(c)
            &&& after.sats() == crate::sky::mark_used(before.sats(), after.used())
        },
        Sentence::Gsv { constellation, number_of_sentences, sentence_num, sats } => {
            let (next, committed) = gsv_step(
                before.progress(constellation),
                number_of_sentences,
                sentence_num,
                sats@,
            );
            &&& after.progress(constellation) == next
            &&& forall|c: Constellation|
                c != constellation ==> after.progress(c) == before.progress(c)
            &&& after.used() == before.used()
            &&& after.talkers() == before.talkers()
            &&& after.sats() == match committed {
                Some(group) => commit_table(
                    before.sats(),
                    constellation,
                    group,
                    before.used(),
                ),
                None => before.sats(),
            }
        },
        _ => {
            &&& after.sats() == before.sats()
            &&& forall|c: Constellation| after.progress(c) == before.progress(c)
            &&& after.used() == before.used()
            &&& after.talkers() == before.talkers()
        },
    }
}

/// Fold one decoded sentence into the fix and the satellite table. Returns
/// whether the sentence closed a fix epoch (a GGA), after which the track,
/// plots and trip statistics advance.
///
/// GGA also opens a new GSA cycle: the used set is rebuilt from the GSA
/// sentences that follow it.
pub fn apply_sentence<C: Copy, R: Copy, T: Copy, D: Copy>(
    fix: &mut FixState<C, R, T, D>,
    sky: &mut SkyTracker<R>,
    sentence: Sentence<C, R, T, D>,
) -> (epoch: bool)
    requires
        old(sky).wf(),
        sentence matches Sentence::Gsv { sentence_num, .. } ==> sentence_num < u16::MAX,
    ensures
        final(sky).wf(),
        *final(fix) == fix_after(*old(fix), sentence),
        epoch == sentence is Gga,
        sky_after(*old(sky), *final(sky), sentence),
{
    match sentence {
        Sentence::Gga {
            fix_quality,
            fix_time,
            latitude,
            longitude,
            altitude_m,
            geoid_separation_m,
            hdop,
            sats_used,
        } => {
            sky.begin_epoch();
            if let Some(q) = fix_quality {
                fix.fix_quality = q;
            }
            fix.fix_time = newer_of(fix_time, fix.fix_time);
            fix.latitude = newer_of(latitude, fix.latitude);
            fix.longitude = newer_of(longitude, fix.longitude);
            fix.altitude_m = newer_of(altitude_m, fix.altitude_m);
            fix.geoid_separation_m = newer_of(geoid_separation_m, fix.geoid_separation_m);
            fix.hdop = newer_of(hdop, fix.hdop);
            fix.sats_used = newer_of(sats_used, fix.sats_used);
            true
        },
        Sentence::Rmc { valid, fix_time, fix_date, latitude, longitude, speed_knots, course_deg } => {
            fix.rmc_valid = valid;
            fix.fix_time = newer_of(fix_time, fix.fix_time);
            fix.fix_date = newer_of(fix_date, fix.fix_date);
            if valid {
                fix.latitude = newer_of(latitude, fix.latitude);
                fix.longitude = newer_of(longitude, fix.longitude);
                fix.speed_knots = newer_of(speed_knots, fix.speed_knots);
                fix.course_deg = newer_of(course_deg, fix.course_deg);
            }
            false
        },
        Sentence::Gsa { mode, pdop, hdop, vdop, talker_id, prns } => {
            fix.fix_mode = mode;
            fix.pdop = newer_of(pdop, fix.pdop);
            fix.hdop = newer_of(hdop, fix.hdop);
            fix.vdop = newer_of(vdop, fix.vdop);
            sky.apply_gsa_prns(talker_id.as_str(), prns);
            false
        },
        Sentence::Gsv { constellation, number_of_sentences, sentence_num, sats } => {
            sky.apply_gsv(constellation, number_of_sentences, sentence_num, sats);
            false
        },
        Sentence::Vtg { speed_knots, course_deg } => {
            fix.speed_knots = newer_of(speed_knots, fix.speed_knots);
            fix.course_deg = newer_of(course_deg, fix.course_deg);
            false
        },
        Sentence::Gll { valid, latitude, longitude, fix_time } => {
            if valid {
                fix.latitude = newer_of(latitude, fix.latitude);
                fix.longitude = newer_of(longitude, fix.longitude);
                fix.fix_time = newer_of(fix_time, fix.fix_time);
            }
            false
        },
        Sentence::Hdt { heading_deg } => {
            fix.heading_deg = newer_of(heading_deg, fix.heading_deg);
            false
        },
        Sentence::Zda { time, date } => {
            fix.fix_time = newer_of(time, fix.fix_time);
            fix.fix_date = newer_of(date, fix.fix_date);
            false
        },
        Sentence::Other => false,
    }
}

/// Law: no sentence erases a value already known. Each sentence only adds or
/// replaces what it reports; an empty field leaves the earlier value standing.
pub proof fn lemma_known_values_are_never_erased<C, R, T, D>(
    f: FixState<C, R, T, D>,
    s: Sentence<C, R, T, D>,
)
    ensures
        ({
            let g = fix_after(f, s);
            &&& f.latitude is Some ==> g.latitude is Some
            &&& f.longitude is Some ==> g.longitude is Some
            &&& f.altitude_m is Some ==> g.altitude_m is Some
            &&& f.geoid_separation_m is Some ==> g.geoid_separation_m is Some
            &&& f.speed_knots is Some ==> g.speed_knots is Some
            &&& f.course_deg is Some ==> g.course_deg is Some
            &&& f.heading_deg is Some ==> g.heading_deg is Some
            &&& f.hdop is Some ==> g.hdop is Some
            &&& f.vdop is Some ==> g.vdop is Some
            &&& f.pdop is Some ==> g.pdop is Some
            &&& f.sats_used is Some ==> g.sats_used is Some
            &&& f.fix_time is Some ==> g.fix_time is Some
            &&& f.fix_date is Some ==> g.fix_date is Some
        }),
{
}

/// Law: a void RMC (status `V`) moves neither the position nor the speed and
/// course; only its time and date are taken.
pub proof fn lemma_void_rmc_moves_nothing<C, R, T, D>(
    f: FixState<C, R, T, D>,
    fix_time: Option<T>,
    fix_date: Option<D>,
    latitude: Option<C>,
    longitude: Option<C>,
    speed_knots: Option<R>,
    course_deg: Option<R>,
)
    ensures
        ({
            let g = fix_after(
                f,
                Sentence::Rmc {
                    valid: false,
                    fix_time,
                    fix_date,
                    latitude,
                    longitude,
                    speed_knots,
                    course_deg,
                },
            );
            &&& g.latitude == f.latitude
            &&& g.longitude == f.longitude
            &&& g.speed_knots == f.speed_knots
            &&& g.course_deg == f.course_deg
            &&& !g.rmc_valid
        }),
{
}

/// Law: an invalid GLL changes nothing at all.
pub proof fn lemma_void_gll_changes_nothing<C, R, T, D>(
    f: FixState<C, R, T, D>,
    latitude: Option<C>,
    longitude: Option<C>,
    fix_time: Option<T>,
)
    ensures
        fix_after(f, Sentence::Gll { valid: false, latitude, longitude, fix_time }) == f,
{
}

/// Law: a sentence that reports a field sets it. Whatever the fix held
/// before, each value a sentence carries (in an RMC or GLL, only a valid one)
/// is the fix's value for that field afterwards.
pub proof fn lemma_reported_values_are_taken<C, R, T, D>(
    f: FixState<C, R, T, D>,
    s: Sentence<C, R, T, D>,
)
    ensures
        ({
            let g = fix_after(f, s);
            &&& s matches Sentence::Gga { fix_quality: Some(q), .. } ==> g.fix_quality == q
            &&& s matches Sentence::Gga { latitude: Some(v), .. } ==> g.latitude == Some(v)
            &&& s matches Sentence::Gga { longitude: Some(v), .. } ==> g.longitude == Some(v)
            &&& s matches Sentence::Gga { altitude_m: Some(v), .. } ==> g.altitude_m == Some(v)
            &&& s matches Sentence::Gga { geoid_separation_m: Some(v), .. }
                ==> g.geoid_separation_m == Some(v)
            &&& s matches Sentence::Gga { hdop: Some(v), .. } ==> g.hdop == Some(v)
            &&& s matches Sentence::Gga { sats_used: Some(v), .. } ==> g.sats_used == Some(v)
            &&& s matches Sentence::Gga { fix_time: Some(v), .. } ==> g.fix_time == Some(v)
            &&& s matches Sentence::Rmc { valid: true, latitude: Some(v), .. } ==> g.latitude
                == Some(v)
            &&& s matches Sentence::Rmc { valid: true, longitude: Some(v), .. } ==> g.longitude
                == Some(v)
            &&& s matches Sentence::Rmc { valid: true, speed_knots: Some(v), .. }
                ==> g.speed_knots == Some(v)
            &&& s matches Sentence::Rmc { valid: true, course_deg: Some(v), .. } ==> g.course_deg
                == Some(v)
            &&& s matches Sentence::Rmc { valid: true, .. } ==> g.rmc_valid
            &&& s matches Sentence::Rmc { fix_time: Some(v), .. } ==> g.fix_time == Some(v)
            &&& s matches Sentence::Rmc { fix_date: Some(v), .. } ==> g.fix_date == Some(v)
            &&& s matches Sentence::Gsa { mode, .. } ==> g.fix_mode == mode
            &&& s matches Sentence::Gsa { pdop: Some(v), .. } ==> g.pdop == Some(v)
            &&& s matches Sentence::Gsa { hdop: Some(v), .. } ==> g.hdop == Some(v)
            &&& s matches Sentence::Gsa { vdop: Some(v), .. } ==> g.vdop == Some(v)
            &&& s matches Sentence::Vtg { speed_knots: Some(v), .. } ==> g.speed_knots == Some(v)
            &&& s matches Sentence::Vtg { course_deg: Some(v), .. } ==> g.course_deg == Some(v)
            &&& s matches Sentence::Gll { valid: true, latitude: Some(v), .. } ==> g.latitude
                == Some(v)
            &&& s matches Sentence::Gll { valid: true, longitude: Some(v), .. } ==> g.longitude
                == Some(v)
            &&& s matches Sentence::Gll { valid: true, fix_time: Some(v), .. } ==> g.fix_time
                == Some(v)
            &&& s matches Sentence::Hdt { heading_deg: Some(v) } ==> g.heading_deg == Some(v)
            &&& s matches Sentence::Zda { time: Some(v), .. } ==> g.fix_time == Some(v)
            &&& s matches Sentence::Zda { date: Some(v), .. } ==> g.fix_date == Some(v)
        }),
{
}

/// Law: which fixes move the track and the trip. An epoch counts exactly when
/// the GGA quality is one of GPS, DGPS, PPS, RTK or float RTK, GSA reports a
/// 2D or a 3D fix, and both coordinates are known.
pub proof fn lemma_which_fixes_count<C, R, T, D>(f: FixState<C, R, T, D>)
    ensures
        counts_toward_trip(f) <==> (f.fix_quality == FixQuality::Gps || f.fix_quality
            == FixQuality::DGps || f.fix_quality == FixQuality::Pps || f.fix_quality
            == FixQuality::Rtk || f.fix_quality == FixQuality::FloatRtk) && (f.fix_mode
            == FixMode::Fix2D || f.fix_mode == FixMode::Fix3D) && f.latitude is Some
            && f.longitude is Some,
{
}

/// Law: a 2D fix counts toward the trip just as a 3D one does; only the lack
/// of a fix (or of a trustworthy quality, or of a position) holds it back.
pub proof fn lemma_two_d_counts_as_three_d<C, R, T, D>(f: FixState<C, R, T, D>)
    ensures
        counts_toward_trip(FixState { fix_mode: FixMode::Fix2D, ..f }) == counts_toward_trip(
            FixState { fix_mode: FixMode::Fix3D, ..f },
        ),
        !counts_toward_trip(FixState { fix_mode: FixMode::NoFix, ..f }),
{
}

} // verus!
