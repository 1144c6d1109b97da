use waypoint_core::{optional, BottomPanel};

#[test]
fn the_bottom_panel_toggles_between_two() {
    assert_eq!(BottomPanel::Plots.toggled(), BottomPanel::RawSentences);
    assert_eq!(BottomPanel::RawSentences.toggled(), BottomPanel::Plots);
    for p in [BottomPanel::Plots, BottomPanel::RawSentences] {
        assert_ne!(p.toggled(), p);
        assert_eq!(p.toggled().toggled(), p);
    }
}

#[test]
fn absent_readings_show_a_dash() {
    assert_eq!(optional(Some(8u32), |n| format!("{n} sats")), "8 sats");
    assert_eq!(optional(None::<u32>, |n| format!("{n} sats")), "—");
}
