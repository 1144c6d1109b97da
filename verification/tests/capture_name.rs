use chrono::{Datelike, NaiveDate, NaiveTime, TimeZone, Timelike, Utc};
use waypoint_core::capture_name;

/// The name for an instant, through the library, from chrono's fields.
fn named(t: chrono::DateTime<Utc>) -> String {
    capture_name(t.year(), t.month(), t.day(), t.hour(), t.minute(), t.second(), t.nanosecond())
}

fn by_chrono(t: chrono::DateTime<Utc>) -> String {
    format!("waypoint-{}.nmea", t.format("%Y%m%d-%H%M%S"))
}

#[test]
fn default_names_sort_chronologically() {
    let at = |h, m, s| named(Utc.with_ymd_and_hms(2026, 8, 15, h, m, s).unwrap());
    assert_eq!(at(0, 36, 27), "waypoint-20260815-003627.nmea");
    assert!(at(0, 36, 27) < at(9, 1, 2), "names must sort by time");
}

#[test]
fn names_agree_with_chrono_formatting() {
    for (y, mo, d, h, mi, s) in [
        (2026, 8, 15, 0, 36, 27),
        (1999, 12, 31, 23, 59, 59),
        (5, 1, 2, 3, 4, 5),
        (0, 1, 1, 0, 0, 0),
        (9999, 12, 31, 23, 59, 59),
        (10000, 1, 1, 0, 0, 0),
        (-5, 6, 7, 8, 9, 10),
        (-12345, 3, 4, 5, 6, 7),
        (262000, 2, 28, 12, 0, 0),
    ] {
        let t = Utc.with_ymd_and_hms(y, mo, d, h, mi, s).unwrap();
        assert_eq!(named(t), by_chrono(t), "{y}-{mo}-{d}");
    }
    assert_eq!(named(Utc.with_ymd_and_hms(-5, 6, 7, 8, 9, 10).unwrap()), "waypoint--00050607-080910.nmea");
    assert_eq!(named(Utc.with_ymd_and_hms(10000, 1, 1, 0, 0, 0).unwrap()), "waypoint-+100000101-000000.nmea");
}

#[test]
fn a_leap_second_is_second_sixty() {
    let time = NaiveTime::from_hms_milli_opt(23, 59, 59, 1_500).unwrap();
    let t = NaiveDate::from_ymd_opt(2016, 12, 31).unwrap().and_time(time).and_utc();
    assert_eq!(named(t), by_chrono(t));
    assert_eq!(named(t), "waypoint-20161231-235960.nmea");
}
