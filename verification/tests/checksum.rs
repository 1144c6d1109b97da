use waypoint_core::{verify_checksum, ChecksumResult};

const GGA: &str = "$GPGGA,123519,4807.038,N,01131.000,E,1,08,0.9,545.4,M,46.9,M,,*47";

#[test]
fn valid_checksum_accepted() {
    assert_eq!(verify_checksum(GGA), ChecksumResult::Valid);
}

#[test]
fn corrupted_payload_detected() {
    let corrupted = GGA.replace("545.4", "545.5");
    assert!(matches!(
        verify_checksum(&corrupted),
        ChecksumResult::Mismatch { .. }
    ));
}

#[test]
fn missing_checksum_reported_as_absent() {
    assert_eq!(
        verify_checksum("$GPGGA,123519,4807.038,N,01131.000,E,1,08,0.9,545.4,M,46.9,M,,"),
        ChecksumResult::Absent
    );
}

#[test]
fn mismatch_reports_both_checksums() {
    let corrupted = GGA.replace("545.4", "545.5");
    // '4' ^ '5' flips the lowest bit of the payload's XOR.
    assert_eq!(
        verify_checksum(&corrupted),
        ChecksumResult::Mismatch { expected: 0x47, computed: 0x46 }
    );
}

#[test]
fn line_endings_and_leading_markers_are_not_checksummed() {
    let crlf = format!("{GGA}\r\n");
    assert_eq!(verify_checksum(&crlf), ChecksumResult::Valid);
    let bang = GGA.replacen('$', "!", 1);
    assert_eq!(verify_checksum(&bang), ChecksumResult::Valid);
    let doubled = format!("${GGA}");
    assert_eq!(verify_checksum(&doubled), ChecksumResult::Valid);
}

#[test]
fn checksum_digits_are_read_in_either_case_and_trimmed() {
    assert_eq!(verify_checksum("$A*41"), ChecksumResult::Valid);
    assert_eq!(verify_checksum("$GPXXX*0a"), verify_checksum("$GPXXX*0A"));
    assert_eq!(verify_checksum("$A* 41 "), ChecksumResult::Valid);
}

#[test]
fn unreadable_checksum_is_a_mismatch_against_zero() {
    assert_eq!(
        verify_checksum("$A*ZZ"),
        ChecksumResult::Mismatch { expected: 0, computed: 0x41 }
    );
    assert_eq!(
        verify_checksum("$A*"),
        ChecksumResult::Mismatch { expected: 0, computed: 0x41 }
    );
    // Three hex digits overflow a byte.
    assert_eq!(
        verify_checksum("$A*141"),
        ChecksumResult::Mismatch { expected: 0, computed: 0x41 }
    );
}

#[test]
fn the_last_star_splits_payload_from_checksum() {
    // 'A' ^ '*' ^ 'B' = 0x41 ^ 0x2A ^ 0x42 = 0x29
    assert_eq!(verify_checksum("$A*B*29"), ChecksumResult::Valid);
}

#[test]
fn framed_sentences_always_validate() {
    for payload in ["GPGGA,1,2,3", "", "GNGSA,A,3,,,,", "x"] {
        let sum = payload.bytes().fold(0u8, |a, b| a ^ b);
        let line = format!("${payload}*{sum:02X}");
        assert_eq!(verify_checksum(&line), ChecksumResult::Valid, "{line}");
    }
}

#[test]
fn any_single_byte_change_is_detected() {
    let payload = "GPGGA,123519,4807.038,N";
    let sum = payload.bytes().fold(0u8, |a, b| a ^ b);
    for k in 0..payload.len() {
        let mut bytes = payload.as_bytes().to_vec();
        bytes[k] = if bytes[k] == b'9' { b'8' } else { b'9' };
        let changed = String::from_utf8(bytes).unwrap();
        let line = format!("${changed}*{sum:02X}");
        assert!(
            matches!(verify_checksum(&line), ChecksumResult::Mismatch { .. }),
            "{line}"
        );
    }
}
