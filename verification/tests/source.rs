use std::path::PathBuf;

use waypoint_core::{
    may_record, offers, Backoff, Cancel, ConnectionStatus, SourceArgs, SourceChoice, SourceControls, SourceEvent,
    COMMON_BAUD_RATES,
};

fn args(serial: Option<&str>, tcp: Option<&str>, file: Option<&str>) -> SourceArgs {
    SourceArgs {
        serial: serial.map(String::from),
        tcp: tcp.map(String::from),
        file: file.map(PathBuf::from),
        list_ports: false,
    }
}

#[test]
fn a_log_replays_unless_instant_is_asked_for() {
    let a = args(None, None, Some("track.nmea"));
    assert_eq!(
        a.to_config(9600, false),
        Some(SourceChoice::File { path: PathBuf::from("track.nmea"), instant: false })
    );
    assert_eq!(
        a.to_config(9600, true),
        Some(SourceChoice::File { path: PathBuf::from("track.nmea"), instant: true })
    );
}

#[test]
fn live_sources_carry_their_address() {
    assert_eq!(
        args(Some("/dev/ttyUSB0"), None, None).to_config(4800, false),
        Some(SourceChoice::Serial { path: "/dev/ttyUSB0".into(), baud: 4800 })
    );
    assert_eq!(
        args(None, Some("127.0.0.1:10110"), None).to_config(4800, true),
        Some(SourceChoice::Tcp { addr: "127.0.0.1:10110".into() })
    );
    // Serial wins over TCP, which wins over a file.
    assert!(matches!(
        args(Some("COM3"), Some("h:1"), Some("f")).to_config(9600, false),
        Some(SourceChoice::Serial { .. })
    ));
    assert!(matches!(
        args(None, Some("h:1"), Some("f")).to_config(9600, false),
        Some(SourceChoice::Tcp { .. })
    ));
}

#[test]
fn listing_ports_selects_no_source() {
    let mut a = args(None, None, None);
    a.list_ports = true;
    assert_eq!(a.to_config(9600, false), None);
}

#[test]
fn cancelling_reaches_every_clone() {
    let cancel = Cancel::new();
    let shared = cancel.clone();
    assert!(!shared.is_cancelled());
    cancel.cancel();
    assert!(shared.is_cancelled());
    assert!(cancel.is_cancelled());
}

#[test]
fn common_baud_rates_start_with_the_nmea_default() {
    assert_eq!(COMMON_BAUD_RATES[0], 4800);
    assert!(COMMON_BAUD_RATES.contains(&9600));
    assert!(COMMON_BAUD_RATES.windows(2).all(|w| w[0] < w[1]));
}

#[test]
fn source_events_carry_lines_and_status() {
    let events = vec![
        SourceEvent::Line("$GPGGA*00".into()),
        SourceEvent::Status(ConnectionStatus::Connected),
        SourceEvent::Warning("slow".into()),
    ];
    assert!(matches!(&events[0], SourceEvent::Line(l) if l == "$GPGGA*00"));
    assert!(matches!(&events[1], SourceEvent::Status(s) if s.is_healthy()));
}

#[test]
fn a_log_replays_by_default() {
    let config = args(None, None, Some("track.nmea")).to_config(9600, false).unwrap();
    assert_eq!(config.controls(), SourceControls::Replay);
}

#[test]
fn instant_is_opt_in() {
    let config = args(None, None, Some("track.nmea")).to_config(9600, true).unwrap();
    assert_eq!(config.controls(), SourceControls::Instant);
}

#[test]
fn live_sources_are_never_replays() {
    assert_eq!(
        args(Some("/dev/ttyUSB0"), None, None).to_config(9600, false).unwrap().controls(),
        SourceControls::Live
    );
    assert_eq!(
        args(None, Some("127.0.0.1:10110"), None).to_config(9600, false).unwrap().controls(),
        SourceControls::Live
    );
    assert!(SourceControls::Live.is_live());
    assert!(!SourceControls::Replay.is_live());
    assert!(!SourceControls::Instant.is_live());
}

#[test]
fn only_a_live_source_can_be_recorded() {
    assert_eq!(may_record(Some(SourceControls::Live)), Ok(()));
    assert_eq!(
        may_record(Some(SourceControls::Replay)),
        Err("only a live source can be recorded".to_string())
    );
    assert_eq!(
        may_record(Some(SourceControls::Instant)),
        Err("only a live source can be recorded".to_string())
    );
    assert_eq!(may_record(None), Err("no source is running".to_string()));
}

#[test]
fn warnings_fail_only_an_unhealthy_connection() {
    let mut status = ConnectionStatus::Connected;
    status.absorb_warning("hiccup".into());
    assert_eq!(status, ConnectionStatus::Connected);
    let mut status = ConnectionStatus::Connecting;
    status.absorb_warning("refused".into());
    assert_eq!(status, ConnectionStatus::Failed { message: "refused".into() });
}

#[test]
fn reconnect_waits_double_up_to_the_cap() {
    let mut backoff = Backoff::new(500, 10_000);
    assert_eq!(backoff.status(), ConnectionStatus::Connecting);
    let waits: Vec<u64> = (0..7).map(|_| backoff.failed()).collect();
    assert_eq!(waits, vec![500, 1000, 2000, 4000, 8000, 10_000, 10_000]);
    assert_eq!(backoff.attempts(), 7);
    assert_eq!(backoff.status(), ConnectionStatus::Reconnecting { attempt: 7 });
    backoff.connected();
    assert_eq!(backoff.status(), ConnectionStatus::Connecting);
    assert_eq!(backoff.failed(), 500);
    assert_eq!(backoff.status(), ConnectionStatus::Reconnecting { attempt: 1 });
}

#[test]
fn each_source_is_offered_only_what_it_can_honour() {
    let replay = offers(Some(SourceControls::Replay));
    assert!(replay.pause && replay.rate && replay.scrub && replay.restart);
    assert!(!replay.data_rate && !replay.stale_warning && !replay.time_to_first_fix && !replay.record);
    let live = offers(Some(SourceControls::Live));
    assert!(!live.pause && !live.rate && !live.scrub && !live.restart);
    assert!(live.data_rate && live.stale_warning && live.time_to_first_fix && live.record);
    let instant = offers(Some(SourceControls::Instant));
    assert!(instant.restart && !instant.pause && !instant.scrub && !instant.record && !instant.data_rate);
    let none = offers(None);
    assert_eq!(none, offers(None));
    assert!(!none.pause && !none.restart && !none.record && !none.data_rate);
}
