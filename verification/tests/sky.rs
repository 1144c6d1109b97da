use waypoint_core::{Constellation, SatelliteInfo, SkyTracker};

fn sat(prn: u32, constellation: Constellation, elevation: f32, azimuth: f32, snr: f32) -> SatelliteInfo<f32> {
    SatelliteInfo {
        prn,
        constellation,
        elevation: Some(elevation),
        azimuth: Some(azimuth),
        snr: Some(snr),
        used_in_fix: false,
    }
}

fn used(sky: &SkyTracker<f32>) -> Vec<u32> {
    sky.satellites()
        .iter()
        .filter(|s| s.used_in_fix)
        .map(|s| s.prn)
        .collect()
}

/// The two sentences of `$GPGSV,2,1,08,...` / `$GPGSV,2,2,08,...`.
fn gps_group() -> (Vec<SatelliteInfo<f32>>, Vec<SatelliteInfo<f32>>) {
    let g = Constellation::Gps;
    (
        vec![sat(1, g, 40.0, 83.0, 46.0), sat(2, g, 17.0, 308.0, 41.0), sat(12, g, 7.0, 344.0, 39.0), sat(14, g, 22.0, 228.0, 45.0)],
        vec![sat(15, g, 58.0, 190.0, 44.0), sat(17, g, 21.0, 238.0, 40.0), sat(19, g, 8.0, 33.0, 39.0), sat(24, g, 54.0, 47.0, 44.0)],
    )
}

#[test]
fn a_gsv_group_commits_only_when_complete() {
    let mut sky = SkyTracker::<f32>::new();
    let (first, second) = gps_group();
    sky.apply_gsv(Constellation::Gps, 2, 1, first);
    // Partial group: nothing visible yet.
    assert_eq!(sky.sats_in_view(), 0);
    sky.apply_gsv(Constellation::Gps, 2, 2, second);
    assert_eq!(sky.sats_in_view(), 8);
    assert_eq!(sky.satellites()[0].constellation, Constellation::Gps);
    assert_eq!(sky.satellites()[0].elevation, Some(40.0));
}

#[test]
fn a_missed_gsv_sentence_drops_the_group() {
    let mut sky = SkyTracker::<f32>::new();
    let (first, second) = gps_group();
    sky.apply_gsv(Constellation::Gps, 3, 1, first);
    // Sentence 2 of 3 went missing.
    sky.apply_gsv(Constellation::Gps, 3, 3, second.clone());
    assert_eq!(sky.sats_in_view(), 0);
    // A group of a different size does not continue the old one either.
    sky.apply_gsv(Constellation::Gps, 2, 2, second);
    assert_eq!(sky.sats_in_view(), 0);
}

#[test]
fn combined_talker_gsa_sentences_accumulate_used_satellites() {
    let mut sky = SkyTracker::<f32>::new();
    let gp = Constellation::Gps;
    let gl = Constellation::Glonass;
    sky.apply_gsv(gp, 1, 1, vec![sat(2, gp, 55.0, 120.0, 38.0), sat(5, gp, 31.0, 210.0, 32.0), sat(6, gp, 18.0, 66.0, 26.0), sat(12, gp, 74.0, 301.0, 46.0)]);
    sky.apply_gsv(gl, 1, 1, vec![sat(66, gl, 38.0, 140.0, 35.0), sat(72, gl, 55.0, 222.0, 42.0)]);
    sky.apply_gsa_prns("GN", vec![2, 5, 6, 12]);
    sky.apply_gsa_prns("GN", vec![66, 72]);
    assert_eq!(used(&sky), vec![2, 5, 6, 12, 66, 72], "both constellations must stay marked");
}

#[test]
fn a_repeated_per_constellation_talker_starts_a_new_cycle() {
    let mut sky = SkyTracker::<f32>::new();
    let gp = Constellation::Gps;
    sky.apply_gsv(gp, 1, 1, vec![sat(2, gp, 1.0, 1.0, 1.0), sat(5, gp, 1.0, 1.0, 1.0)]);
    sky.apply_gsa_prns("GP", vec![2]);
    assert_eq!(used(&sky), vec![2]);
    sky.apply_gsa_prns("GP", vec![5]);
    assert_eq!(used(&sky), vec![5]);
    sky.begin_epoch();
    // An epoch boundary clears the used set; the table keeps its marks until
    // the next GSA says otherwise.
    sky.apply_gsa_prns("GN", vec![2]);
    assert_eq!(used(&sky), vec![2]);
}

#[test]
fn a_committed_group_is_marked_with_what_gsa_already_said() {
    let mut sky = SkyTracker::<f32>::new();
    let gp = Constellation::Gps;
    sky.apply_gsa_prns("GP", vec![5]);
    sky.apply_gsv(gp, 1, 1, vec![sat(5, gp, 1.0, 1.0, 1.0), sat(7, gp, 1.0, 1.0, 1.0)]);
    assert_eq!(used(&sky), vec![5]);
}

#[test]
fn the_table_lists_by_constellation_then_prn() {
    let mut sky = SkyTracker::<f32>::new();
    let ga = Constellation::Galileo;
    let gp = Constellation::Gps;
    sky.apply_gsv(ga, 1, 1, vec![sat(30, ga, 1.0, 1.0, 1.0), sat(3, ga, 1.0, 1.0, 1.0)]);
    sky.apply_gsv(gp, 1, 1, vec![sat(9, gp, 1.0, 1.0, 1.0), sat(1, gp, 1.0, 1.0, 1.0)]);
    let order: Vec<(Constellation, u32)> = sky.satellites().iter().map(|s| (s.constellation, s.prn)).collect();
    assert_eq!(order, vec![(gp, 1), (gp, 9), (ga, 3), (ga, 30)]);

    // A fresh group replaces only its own constellation.
    sky.apply_gsv(gp, 1, 1, vec![sat(4, gp, 1.0, 1.0, 1.0)]);
    let order: Vec<(Constellation, u32)> = sky.satellites().iter().map(|s| (s.constellation, s.prn)).collect();
    assert_eq!(order, vec![(gp, 4), (ga, 3), (ga, 30)]);

    let groups = sky.satellites_by_constellation();
    let counts: Vec<(Constellation, usize)> = groups.iter().map(|(c, g)| (*c, g.len())).collect();
    assert_eq!(counts, vec![(gp, 1), (ga, 2)]);
    assert_eq!(groups[1].1[1].prn, 30);
}
