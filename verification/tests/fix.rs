use waypoint_core::{
    apply_sentence, Constellation, FixMode, FixQuality, FixState, SatelliteInfo, Sentence,
    SkyTracker,
};

type Fix = FixState<f64, f32, u32, u32>;
type S = Sentence<f64, f32, u32, u32>;

/// `$GPGGA,123519,4807.038,N,01131.000,E,1,08,0.9,545.4,M,46.9,M,,*47`
fn gga() -> S {
    Sentence::Gga {
        fix_quality: Some(FixQuality::Gps),
        fix_time: Some(123519),
        latitude: Some(48.1173),
        longitude: Some(11.516_666),
        altitude_m: Some(545.4),
        geoid_separation_m: Some(46.9),
        hdop: Some(0.9),
        sats_used: Some(8),
    }
}

/// `$GPGSA,A,3,04,05,,09,12,,,24,,,,,2.5,1.3,2.1*39`
fn gsa() -> S {
    Sentence::Gsa {
        mode: FixMode::Fix3D,
        pdop: Some(2.5),
        hdop: Some(1.3),
        vdop: Some(2.1),
        talker_id: "GP".into(),
        prns: vec![4, 5, 9, 12, 24],
    }
}

#[test]
fn gga_fills_position_quality_and_closes_an_epoch() {
    let mut fix = Fix::new();
    let mut sky = SkyTracker::<f32>::new();
    let epoch = apply_sentence(&mut fix, &mut sky, gga());
    assert!(epoch);
    assert_eq!(fix.sats_used, Some(8));
    assert_eq!(fix.hdop, Some(0.9));
    assert_eq!(fix.fix_quality, FixQuality::Gps);
    assert!((fix.latitude.unwrap() - 48.1173).abs() < 0.001);
    assert!((fix.altitude_m.unwrap() - 545.4).abs() < 0.01);
    assert_eq!(fix.position(), Some((48.1173, 11.516_666)));
}

#[test]
fn gsa_sets_the_fix_mode_and_dilution() {
    let mut fix = Fix::new();
    let mut sky = SkyTracker::<f32>::new();
    assert!(!apply_sentence(&mut fix, &mut sky, gsa()));
    assert_eq!(fix.fix_mode, FixMode::Fix3D);
    assert_eq!(fix.hdop, Some(1.3));
    assert_eq!(fix.pdop, Some(2.5));
    assert_eq!(fix.vdop, Some(2.1));
}

#[test]
fn the_trip_only_counts_a_real_fix() {
    let mut fix = Fix::new();
    let mut sky = SkyTracker::<f32>::new();
    // GGA alone: no GSA yet, so fix mode is still NoFix.
    apply_sentence(&mut fix, &mut sky, gga());
    assert!(!fix.counts_for_trip());
    apply_sentence(&mut fix, &mut sky, gsa());
    apply_sentence(&mut fix, &mut sky, gga());
    assert!(fix.counts_for_trip());
    // An estimated fix is not a trustworthy one.
    apply_sentence(
        &mut fix,
        &mut sky,
        Sentence::Gga {
            fix_quality: Some(FixQuality::Estimated),
            fix_time: None,
            latitude: None,
            longitude: None,
            altitude_m: None,
            geoid_separation_m: None,
            hdop: None,
            sats_used: None,
        },
    );
    assert!(!fix.counts_for_trip());
    // The position it did not report is still the one known before.
    assert_eq!(fix.position(), Some((48.1173, 11.516_666)));
}

#[test]
fn a_void_rmc_moves_nothing_but_its_clock() {
    let mut fix = Fix::new();
    let mut sky = SkyTracker::<f32>::new();
    apply_sentence(&mut fix, &mut sky, gga());
    let void = Sentence::Rmc {
        valid: false,
        fix_time: Some(123520),
        fix_date: Some(230394),
        latitude: Some(1.0),
        longitude: Some(2.0),
        speed_knots: Some(22.4),
        course_deg: Some(84.4),
    };
    apply_sentence(&mut fix, &mut sky, void);
    assert!(!fix.rmc_valid);
    assert_eq!(fix.position(), Some((48.1173, 11.516_666)));
    assert_eq!(fix.speed_knots, None);
    assert_eq!(fix.fix_time, Some(123520));
    assert_eq!(fix.fix_date, Some(230394));

    let active = Sentence::Rmc {
        valid: true,
        fix_time: None,
        fix_date: None,
        latitude: Some(1.0),
        longitude: Some(2.0),
        speed_knots: Some(22.4),
        course_deg: Some(84.4),
    };
    apply_sentence(&mut fix, &mut sky, active);
    assert!(fix.rmc_valid);
    assert_eq!(fix.position(), Some((1.0, 2.0)));
    assert_eq!(fix.speed_knots, Some(22.4));
    assert_eq!(fix.fix_time, Some(123520));
}

#[test]
fn the_remaining_sentences_fill_their_own_fields() {
    let mut fix = Fix::new();
    let mut sky = SkyTracker::<f32>::new();
    apply_sentence(&mut fix, &mut sky, Sentence::Vtg { speed_knots: Some(3.5), course_deg: None });
    apply_sentence(&mut fix, &mut sky, Sentence::Hdt { heading_deg: Some(271.0) });
    apply_sentence(&mut fix, &mut sky, Sentence::Zda { time: Some(10), date: Some(20) });
    apply_sentence(
        &mut fix,
        &mut sky,
        Sentence::Gll { valid: false, latitude: Some(9.0), longitude: Some(9.0), fix_time: Some(99) },
    );
    apply_sentence(&mut fix, &mut sky, Sentence::Other);
    assert_eq!(fix.speed_knots, Some(3.5));
    assert_eq!(fix.course_deg, None);
    assert_eq!(fix.heading_deg, Some(271.0));
    assert_eq!((fix.fix_time, fix.fix_date), (Some(10), Some(20)));
    assert_eq!(fix.position(), None);
    apply_sentence(
        &mut fix,
        &mut sky,
        Sentence::Gll { valid: true, latitude: Some(9.0), longitude: Some(8.0), fix_time: None },
    );
    assert_eq!(fix.position(), Some((9.0, 8.0)));
    assert_eq!(fix.fix_time, Some(10));
}

#[test]
fn sentences_reach_the_satellite_table() {
    let mut fix = Fix::new();
    let mut sky = SkyTracker::<f32>::new();
    let gp = Constellation::Gps;
    let sat = |prn| SatelliteInfo { prn, constellation: gp, elevation: None, azimuth: None, snr: None, used_in_fix: false };
    apply_sentence(
        &mut fix,
        &mut sky,
        Sentence::Gsv { constellation: gp, number_of_sentences: 1, sentence_num: 1, sats: vec![sat(4), sat(7)] },
    );
    apply_sentence(&mut fix, &mut sky, gsa());
    let used: Vec<u32> = sky.satellites().iter().filter(|s| s.used_in_fix).map(|s| s.prn).collect();
    assert_eq!(used, vec![4]);
    // GGA opens a new GSA cycle: a repeated GP talker after it accumulates
    // afresh rather than restarting mid-way.
    apply_sentence(&mut fix, &mut sky, gga());
    apply_sentence(
        &mut fix,
        &mut sky,
        Sentence::Gsa { mode: FixMode::Fix3D, pdop: None, hdop: None, vdop: None, talker_id: "GP".into(), prns: vec![7] },
    );
    let used: Vec<u32> = sky.satellites().iter().filter(|s| s.used_in_fix).map(|s| s.prn).collect();
    assert_eq!(used, vec![7]);
}
