use waypoint_core::{
    push_capped, ConnectionStatus, Constellation, FixMode, FixQuality, RawSentence,
    SentenceCounters, SentenceOutcome, MAX_RAW_SENTENCES,
};
use std::collections::VecDeque;

#[test]
fn fix_modes_read_as_the_receiver_reports_them() {
    assert_eq!(FixMode::NoFix.label(), "No Fix");
    assert_eq!(FixMode::Fix2D.label(), "2D");
    assert_eq!(FixMode::Fix3D.label(), "3D");
    assert!(!FixMode::NoFix.has_fix());
    assert!(FixMode::Fix2D.has_fix());
    assert!(FixMode::Fix3D.has_fix());
    assert_eq!(FixMode::default(), FixMode::NoFix);
}

#[test]
fn only_real_solutions_are_valid_qualities() {
    let valid = [FixQuality::Gps, FixQuality::DGps, FixQuality::Pps, FixQuality::Rtk, FixQuality::FloatRtk];
    let invalid = [FixQuality::Invalid, FixQuality::Estimated, FixQuality::Manual, FixQuality::Simulation];
    for q in valid {
        assert!(q.is_valid(), "{q:?}");
    }
    for q in invalid {
        assert!(!q.is_valid(), "{q:?}");
    }
    assert_eq!(FixQuality::Rtk.label(), "RTK Fixed");
    assert_eq!(FixQuality::FloatRtk.label(), "RTK Float");
    assert_eq!(FixQuality::DGps.label(), "DGPS");
}

#[test]
fn constellations_have_short_and_long_names() {
    let short: Vec<&str> = Constellation::ALL.iter().map(|c| c.short()).collect();
    assert_eq!(short, vec!["GP", "GL", "GA", "BD", "QZ", "IN"]);
    let long: Vec<&str> = Constellation::ALL.iter().map(|c| c.label()).collect();
    assert_eq!(long, vec!["GPS", "GLONASS", "Galileo", "BeiDou", "QZSS", "NavIC"]);
    let ranks: Vec<u8> = Constellation::ALL.iter().map(|c| c.rank()).collect();
    assert_eq!(ranks, vec![0, 1, 2, 3, 4, 5]);
    for (k, c) in Constellation::ALL.iter().enumerate() {
        assert_eq!(Constellation::at_rank(k as u8), *c);
    }
}

#[test]
fn connection_labels() {
    assert_eq!(ConnectionStatus::Idle.label(), "Idle");
    assert_eq!(ConnectionStatus::Connecting.label(), "Connecting");
    assert_eq!(ConnectionStatus::Connected.label(), "Connected");
    assert_eq!(ConnectionStatus::Reconnecting { attempt: 3 }.label(), "Reconnecting (#3)");
    assert_eq!(ConnectionStatus::Disconnected.label(), "Disconnected");
    assert_eq!(
        ConnectionStatus::Failed { message: "port busy".into() }.label(),
        "Failed: port busy"
    );
    assert!(ConnectionStatus::Connected.is_healthy());
    assert!(!ConnectionStatus::Reconnecting { attempt: 1 }.is_healthy());
    assert_eq!(ConnectionStatus::default(), ConnectionStatus::Idle);
}

#[test]
fn every_line_is_counted_under_exactly_one_outcome() {
    let mut counters = SentenceCounters::new();
    let outcomes = [
        SentenceOutcome::Decoded("GGA".into()),
        SentenceOutcome::ChecksumFailed,
        SentenceOutcome::Decoded("RMC".into()),
        SentenceOutcome::Unsupported,
        SentenceOutcome::Decoded("GGA".into()),
        SentenceOutcome::ParseError("bad field".into()),
        SentenceOutcome::Decoded("GSA".into()),
    ];
    for outcome in &outcomes {
        counters.record(outcome);
    }
    assert_eq!(counters.total, 7);
    assert_eq!(counters.decoded, 4);
    assert_eq!(counters.checksum_failed, 1);
    assert_eq!(counters.unsupported, 1);
    assert_eq!(counters.parse_failed, 1);
    assert_eq!(
        counters.by_type,
        vec![("GGA".to_string(), 2), ("GSA".to_string(), 1), ("RMC".to_string(), 1)]
    );
    let sum: u64 = counters.by_type.iter().map(|(_, n)| n).sum();
    assert_eq!(sum, counters.decoded);
}

#[test]
fn the_raw_ring_keeps_the_newest_lines() {
    let mut raw: VecDeque<RawSentence> = VecDeque::new();
    for i in 0..(MAX_RAW_SENTENCES + 5) {
        push_capped(
            &mut raw,
            RawSentence { text: format!("line {i}"), outcome: SentenceOutcome::Unsupported },
            MAX_RAW_SENTENCES,
        );
        assert!(raw.len() <= MAX_RAW_SENTENCES);
    }
    assert_eq!(raw.len(), MAX_RAW_SENTENCES);
    assert_eq!(raw.front().unwrap().text, "line 5");
    assert_eq!(raw.back().unwrap().text, format!("line {}", MAX_RAW_SENTENCES + 4));
}

#[test]
fn a_small_ring_drops_its_oldest_entry() {
    let mut ring: VecDeque<u32> = VecDeque::from(vec![1, 2, 3]);
    push_capped(&mut ring, 4, 3);
    assert_eq!(ring, VecDeque::from(vec![2, 3, 4]));
    push_capped(&mut ring, 5, 4);
    assert_eq!(ring, VecDeque::from(vec![2, 3, 4, 5]));
}
