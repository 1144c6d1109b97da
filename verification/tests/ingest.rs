use std::collections::VecDeque;

use chrono::{NaiveDate, NaiveTime};
use nmea::sentences::gsa::GsaMode2;
use nmea::sentences::rmc::RmcStatusOfFix;
use nmea::sentences::{FixType, GnssType};
use nmea::{parse_str, ParseResult};

use waypoint_core::{
    advance_epoch, Constellation, FixMode, FixQuality, Ingested, Parsed, RawSentence, Receiver, SatelliteInfo,
    Sentence, SentenceOutcome,
};

type Core = Receiver<f64, f32, NaiveTime, NaiveDate>;
type P = Parsed<f64, f32, NaiveTime, NaiveDate>;

const GGA: &str = "$GPGGA,123519,4807.038,N,01131.000,E,1,08,0.9,545.4,M,46.9,M,,*47";

fn quality(t: FixType) -> FixQuality {
    match t {
        FixType::Invalid => FixQuality::Invalid,
        FixType::Gps => FixQuality::Gps,
        FixType::DGps => FixQuality::DGps,
        FixType::Pps => FixQuality::Pps,
        FixType::Rtk => FixQuality::Rtk,
        FixType::FloatRtk => FixQuality::FloatRtk,
        FixType::Estimated => FixQuality::Estimated,
        FixType::Manual => FixQuality::Manual,
        FixType::Simulation => FixQuality::Simulation,
    }
}

fn constellation(t: GnssType) -> Constellation {
    match t {
        GnssType::Gps => Constellation::Gps,
        GnssType::Glonass => Constellation::Glonass,
        GnssType::Galileo => Constellation::Galileo,
        GnssType::Beidou => Constellation::Beidou,
        GnssType::Qzss => Constellation::Qzss,
        GnssType::NavIC => Constellation::NavIC,
    }
}

/// The NMEA parser's reading of a line, in the library's terms.
fn parse_line(line: &str) -> P {
    match parse_str(line) {
        Ok(ParseResult::Unsupported(_)) => Parsed::Unsupported,
        Ok(parsed) => {
            let kind = format!("{:?}", nmea::SentenceType::from(&parsed));
            let sentence = match parsed {
                ParseResult::GGA(g) => Sentence::Gga {
                    fix_quality: g.fix_type.map(quality),
                    fix_time: g.fix_time,
                    latitude: g.latitude,
                    longitude: g.longitude,
                    altitude_m: g.altitude,
                    geoid_separation_m: g.geoid_separation,
                    hdop: g.hdop,
                    sats_used: g.fix_satellites,
                },
                ParseResult::RMC(r) => Sentence::Rmc {
                    valid: r.status_of_fix != RmcStatusOfFix::Invalid,
                    fix_time: r.fix_time,
                    fix_date: r.fix_date,
                    latitude: r.lat,
                    longitude: r.lon,
                    speed_knots: r.speed_over_ground,
                    course_deg: r.true_course,
                },
                ParseResult::GSA(g) => Sentence::Gsa {
                    mode: match g.mode2 {
                        GsaMode2::NoFix => FixMode::NoFix,
                        GsaMode2::Fix2D => FixMode::Fix2D,
                        GsaMode2::Fix3D => FixMode::Fix3D,
                    },
                    pdop: g.pdop,
                    hdop: g.hdop,
                    vdop: g.vdop,
                    talker_id: g.talker_id.as_str().to_string(),
                    prns: g.fix_sats_prn.iter().copied().collect(),
                },
                ParseResult::GSV(g) => {
                    let c = constellation(g.gnss_type);
                    assert!(g.sentence_num < u16::MAX, "GSV sentence number overflows");
                    Sentence::Gsv {
                        constellation: c,
                        number_of_sentences: g.number_of_sentences,
                        sentence_num: g.sentence_num,
                        sats: g
                            .sats_info
                            .iter()
                            .flatten()
                            .map(|s| SatelliteInfo {
                                prn: s.prn(),
                                constellation: c,
                                elevation: s.elevation(),
                                azimuth: s.azimuth(),
                                snr: s.snr(),
                                used_in_fix: false,
                            })
                            .collect(),
                    }
                }
                ParseResult::VTG(v) => Sentence::Vtg {
                    speed_knots: v.speed_over_ground,
                    course_deg: v.true_course,
                },
                ParseResult::GLL(g) => Sentence::Gll {
                    valid: g.valid,
                    latitude: g.latitude,
                    longitude: g.longitude,
                    fix_time: g.fix_time,
                },
                ParseResult::HDT(h) => Sentence::Hdt { heading_deg: h.heading },
                ParseResult::ZDA(z) => Sentence::Zda { time: z.utc_time, date: z.utc_date() },
                _ => Sentence::Other,
            };
            Parsed::Decoded { kind, sentence }
        }
        Err(err) => Parsed::Failed { message: err.to_string() },
    }
}

fn ingest(core: &mut Core, line: &str) -> Ingested {
    assert!(core.counters.total < u64::MAX);
    core.ingest_line(line, parse_line)
}

#[test]
fn gga_updates_position_and_quality() {
    let mut state = Core::new();
    ingest(&mut state, GGA);
    assert_eq!(state.counters.decoded, 1);
    assert_eq!(state.fix.sats_used, Some(8));
    assert_eq!(state.fix.hdop, Some(0.9));
    assert!((state.fix.latitude.unwrap() - 48.1173).abs() < 0.001);
    assert!((state.fix.altitude_m.unwrap() - 545.4).abs() < 0.01);
}

#[test]
fn checksum_failure_is_counted_not_parsed() {
    let mut state = Core::new();
    let fate = ingest(&mut state, &GGA.replace("545.4", "545.5"));
    assert_eq!(fate, Ingested::Counted);
    assert_eq!(state.counters.checksum_failed, 1);
    assert_eq!(state.counters.decoded, 0);
    assert_eq!(state.fix.latitude, None);
    assert_eq!(state.raw.back().unwrap().outcome, SentenceOutcome::ChecksumFailed);
}

#[test]
fn gsa_sets_fix_mode_and_used_prns() {
    let mut state = Core::new();
    ingest(&mut state, "$GPGSA,A,3,04,05,,09,12,,,24,,,,,2.5,1.3,2.1*39");
    assert_eq!(state.fix.fix_mode, FixMode::Fix3D);
    assert_eq!(state.fix.hdop, Some(1.3));
    assert_eq!(state.fix.pdop, Some(2.5));
    assert_eq!(state.fix.vdop, Some(2.1));
}

#[test]
fn gsv_group_commits_only_when_complete() {
    let mut state = Core::new();
    ingest(&mut state, "$GPGSV,2,1,08,01,40,083,46,02,17,308,41,12,07,344,39,14,22,228,45*75");
    // Partial group: nothing visible yet.
    assert_eq!(state.sky.sats_in_view(), 0);
    ingest(&mut state, "$GPGSV,2,2,08,15,58,190,44,17,21,238,40,19,08,033,39,24,54,047,44*76");
    assert_eq!(state.sky.sats_in_view(), 8);
    assert_eq!(state.sky.satellites()[0].constellation, Constellation::Gps);
    assert_eq!(state.sky.satellites()[0].elevation, Some(40.0));
}

/// Receivers that report every GSA under the `GN` talker emit one per
/// constellation; treating the repeat as a new cycle would leave only the
/// last constellation's satellites marked as used.
#[test]
fn multiple_gn_gsa_sentences_accumulate_used_satellites() {
    let mut state = Core::new();
    for line in [
        "$GPGSV,1,1,04,02,55,120,38,05,31,210,32,06,18,066,26,12,74,301,46*79",
        "$GLGSV,1,1,02,66,38,140,35,72,55,222,42*6E",
        "$GNGSA,A,3,02,05,06,12,,,,,,,,,1.7,0.8,1.4,1*38",
        "$GNGSA,A,3,66,72,,,,,,,,,,,1.7,0.8,1.4,2*3C",
    ] {
        ingest(&mut state, line);
    }
    let used: Vec<u32> = state
        .sky
        .satellites()
        .iter()
        .filter(|s| s.used_in_fix)
        .map(|s| s.prn)
        .collect();
    assert_eq!(used, vec![2, 5, 6, 12, 66, 72], "both constellations must stay marked");
}

#[test]
fn track_only_advances_on_a_valid_fix() {
    let mut state = Core::new();
    let mut track: VecDeque<(f64, f64)> = VecDeque::new();
    let mut history: VecDeque<Option<f32>> = VecDeque::new();
    let mut feed = |state: &mut Core, line: &str| {
        if ingest(state, line) == Ingested::EpochClosed {
            let fix = state.fix;
            advance_epoch(&fix, &mut history, fix.hdop, &mut track, |lat, lon| (lat, lon));
        }
        (track.len(), history.len())
    };

    // GGA alone: no GSA yet, so fix mode is still NoFix.
    assert_eq!(feed(&mut state, GGA), (0, 1));
    feed(&mut state, "$GPGSA,A,3,04,05,,09,12,,,24,,,,,2.5,1.3,2.1*39");
    assert_eq!(feed(&mut state, GGA), (1, 2));
}

#[test]
fn blank_lines_are_not_counted() {
    let mut state = Core::new();
    assert_eq!(ingest(&mut state, ""), Ingested::Ignored);
    assert_eq!(ingest(&mut state, " \r\n"), Ingested::Ignored);
    assert_eq!(state.counters.total, 0);
    assert!(state.raw.is_empty());
}

#[test]
fn every_kind_of_line_is_logged_with_its_outcome() {
    let mut state = Core::new();
    assert_eq!(ingest(&mut state, GGA), Ingested::EpochClosed);
    assert_eq!(ingest(&mut state, "$GPGGA,not,a,sentence*00"), Ingested::Counted);
    assert_eq!(ingest(&mut state, "$GPXYZ,1,2"), Ingested::Counted);
    assert_eq!(ingest(&mut state, "garbage"), Ingested::Counted);
    let outcomes: Vec<&SentenceOutcome> = state.raw.iter().map(|r: &RawSentence| &r.outcome).collect();
    assert_eq!(outcomes[0], &SentenceOutcome::Decoded("GGA".into()));
    assert_eq!(outcomes[1], &SentenceOutcome::ChecksumFailed);
    assert_eq!(state.counters.total, 4);
    assert_eq!(
        state.counters.total,
        state.counters.decoded + state.counters.checksum_failed + state.counters.parse_failed + state.counters.unsupported
    );
    assert_eq!(state.raw[0].text, GGA);
}

/// A capture writes each line back with CRLF; reading it again must give the
/// same counts and the same fix as the session it came from.
#[test]
fn lines_with_their_line_endings_replay_to_the_same_result() {
    let sentences = [
        "$GNGGA,000000.00,5128.67400,N,00000.25200,E,1,16,0.6,46.00,M,45.30,M,,*4D",
        "$GNGSA,A,3,03,04,07,08,09,16,26,,,,,,1.3,0.6,1.0,1*36",
        // Deliberately corrupt: must survive the round trip as a failure.
        "$GNGGA,000001.00,5128.67400,N,00000.25200,E,1,16,0.6,46.00,M,45.30,M,,*00",
    ];
    let mut live = Core::new();
    let mut replayed = Core::new();
    for line in sentences {
        ingest(&mut live, line);
        ingest(&mut replayed, &format!("  {line}\r\n"));
    }
    assert_eq!(replayed.counters, live.counters);
    assert_eq!(replayed.counters.checksum_failed, 1);
    assert_eq!(replayed.fix.position(), live.fix.position());
    assert_eq!(replayed.raw, live.raw);
}
