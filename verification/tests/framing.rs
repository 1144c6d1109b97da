use waypoint_core::{LineFramer, MAX_LINE_BYTES};

fn feed_all(chunks: &[&str]) -> (Vec<String>, Vec<bool>) {
    let mut framer = LineFramer::new();
    let mut lines = Vec::new();
    let mut overruns = Vec::new();
    for chunk in chunks {
        let (got, overrun) = framer.feed(chunk);
        lines.extend(got);
        overruns.push(overrun);
    }
    (lines, overruns)
}

#[test]
fn the_partial_first_line_is_dropped() {
    let (lines, _) = feed_all(&["A,1,2*00\r\n$GPGGA,1*11\r\n$GPRMC,2*22\r\n"]);
    assert_eq!(lines, vec!["$GPGGA,1*11", "$GPRMC,2*22"]);
}

#[test]
fn lines_split_across_reads_come_out_whole() {
    let (lines, _) = feed_all(&["junk\n$GP", "GGA,1", "*11\r", "\n$GPRMC", ",2*22\r\n$GPV"]);
    assert_eq!(lines, vec!["$GPGGA,1*11", "$GPRMC,2*22"]);
}

#[test]
fn any_cut_of_the_stream_yields_the_same_lines() {
    let stream = "xx\r\n$GPGGA,1*11\r\n\r\n$GNGSA,A,3*00\n$GPVTG,,T*55\r\n$GPZ";
    let (whole, _) = feed_all(&[stream]);
    assert_eq!(whole, vec!["$GPGGA,1*11", "", "$GNGSA,A,3*00", "$GPVTG,,T*55"]);
    for cut in 0..=stream.len() {
        let (a, b) = stream.split_at(cut);
        let (lines, _) = feed_all(&[a, b]);
        assert_eq!(lines, whole, "cut at {cut}");
    }
}

#[test]
fn a_run_without_line_breaks_is_thrown_away() {
    let garbage = "x".repeat(MAX_LINE_BYTES + 1);
    let mut framer = LineFramer::new();
    let (lines, overrun) = framer.feed("\n");
    assert!(lines.is_empty() && !overrun);
    let (lines, overrun) = framer.feed(&garbage);
    assert!(lines.is_empty());
    assert!(overrun);
    // Out of step again: the next line break only resynchronises.
    let (lines, overrun) = framer.feed("tail\n$GPGGA*00\n");
    assert_eq!(lines, vec!["$GPGGA*00"]);
    assert!(!overrun);
}

#[test]
fn the_limit_counts_bytes_not_characters() {
    let mut framer = LineFramer::new();
    // 2049 two-byte characters: 4098 bytes, over the limit.
    let (_, overrun) = framer.feed(&"é".repeat(MAX_LINE_BYTES / 2 + 1));
    assert!(overrun);
    let mut framer = LineFramer::new();
    let (_, overrun) = framer.feed(&"é".repeat(MAX_LINE_BYTES / 2));
    assert!(!overrun);
}

#[test]
fn a_stream_that_starts_cleanly_keeps_its_first_sentence() {
    let (lines, _) = feed_all(&["$A\n"]);
    assert_eq!(lines, vec!["$A"]);
    let (lines, _) = feed_all(&["$GP", "GGA,1*11\r\n$GPRMC,2*22\r\n"]);
    assert_eq!(lines, vec!["$GPGGA,1*11", "$GPRMC,2*22"]);
}

#[test]
fn noise_before_the_first_dollar_is_dropped() {
    let (lines, _) = feed_all(&["\u{0}\u{7f}GA,1*11$GPRMC,2*22\r\n$GPVTG*00\n"]);
    assert_eq!(lines, vec!["$GPRMC,2*22", "$GPVTG*00"]);
    // Lines with no `$` are dropped until one has appeared.
    let (lines, _) = feed_all(&["1,2*33\r\n", "$GPGGA*00\n"]);
    assert_eq!(lines, vec!["$GPGGA*00"]);
    let (lines, _) = feed_all(&["x\ny\n$A\n"]);
    assert_eq!(lines, vec!["$A"]);
    // Once in step, every line is passed on.
    let (lines, _) = feed_all(&["$A\ny\n"]);
    assert_eq!(lines, vec!["$A", "y"]);
}

#[test]
fn any_cut_of_a_noisy_start_yields_the_same_lines() {
    let stream = "\u{1}zz$GPGGA,1*11\r\n$GPRMC*22\n$GN";
    let (whole, _) = feed_all(&[stream]);
    assert_eq!(whole, vec!["$GPGGA,1*11", "$GPRMC*22"]);
    for cut in 0..=stream.len() {
        let (a, b) = stream.split_at(cut);
        let (lines, _) = feed_all(&[a, b]);
        assert_eq!(lines, whole, "cut at {cut}");
    }
}
