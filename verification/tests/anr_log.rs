use dab::anr_log::segment_anrs;
use dab::anr_log::AnrLogSegmenter;

fn texts(lines: &[&str]) -> Vec<String> {
    lines.iter().map(|l| l.to_string()).collect()
}

#[test]
fn anr_block_closed_by_blank_line() {
    let text = "10:15 E ActivityManager ANR in com.foo (com.foo/.Main)\nPID 4321\nReason Input dispatching timed out\n\n";
    let records = segment_anrs(text, None, 10);
    assert_eq!(records.len(), 1);
    assert_eq!(records[0].package_or_pid, "com.foo");
    assert_eq!(records[0].approx_time, "10:15");
    assert_eq!(
        records[0].lines,
        texts(&[
            "10:15 E ActivityManager ANR in com.foo (com.foo/.Main)",
            "PID 4321",
            "Reason Input dispatching timed out",
            "",
        ])
    );
}

#[test]
fn anr_block_closed_by_dated_line() {
    let text = "ANR in com.foo\nCPU usage high\n01-02 03:04:05.678 I next entry\nlater\n";
    let records = segment_anrs(text, None, 10);
    assert_eq!(records.len(), 1);
    assert_eq!(records[0].package_or_pid, "com.foo");
    assert_eq!(records[0].approx_time, "ANR");
    assert_eq!(
        records[0].lines,
        texts(&["ANR in com.foo", "CPU usage high", "01-02 03:04:05.678 I next entry"])
    );
}

#[test]
fn dated_opening_line_does_not_close_its_own_record() {
    let text = "01-02 03:04:05.678 E ANR in com.foo\nbody\n";
    assert!(segment_anrs(text, None, 10).is_empty());
    let text = "01-02 03:04:05.678 E ANR in com.foo\nbody\n\n";
    let records = segment_anrs(text, None, 10);
    assert_eq!(records.len(), 1);
    assert_eq!(records[0].approx_time, "01-02");
    assert_eq!(records[0].lines.len(), 3);
}

#[test]
fn unterminated_anr_block_is_dropped() {
    assert!(segment_anrs("ANR in com.foo\nbody\nmore body", None, 10).is_empty());
}

#[test]
fn am_anr_line_falls_back_to_the_pid() {
    let text = "am_anr pid: 1234 reason: Input dispatching timed out\ntrace\n\n";
    let records = segment_anrs(text, None, 5);
    assert_eq!(records.len(), 1);
    assert_eq!(records[0].package_or_pid, "1234");
    assert_eq!(records[0].approx_time, "am_anr");
}

#[test]
fn am_anr_line_without_pid_has_no_subject() {
    let text = "am_anr reason: slow pid: 9\ntrace\n\n";
    let records = segment_anrs(text, None, 5);
    assert_eq!(records.len(), 1);
    assert_eq!(records[0].package_or_pid, "");
}

#[test]
fn am_anr_needs_a_reason() {
    assert!(segment_anrs("am_anr pid: 1234\ntrace\n\n", None, 5).is_empty());
    assert!(segment_anrs("reason: pid: 1234\ntrace\n\n", None, 5).is_empty());
}

#[test]
fn package_is_preferred_over_pid() {
    let text = "am_anr pid: 77 reason: x ANR in com.pkg now\nbody\n\n";
    let records = segment_anrs(text, None, 5);
    assert_eq!(records.len(), 1);
    assert_eq!(records[0].package_or_pid, "com.pkg");
}

#[test]
fn anr_filter_discards_other_packages() {
    let text = "ANR in com.foo\nx\n\nANR in com.bar\ny\n\nANR in com.foo.two\nz\n\n";
    assert_eq!(segment_anrs(text, None, 10).len(), 3);
    let only = segment_anrs(text, Some("com.foo"), 10);
    assert_eq!(only.len(), 2);
    assert_eq!(only[0].package_or_pid, "com.foo");
    assert_eq!(only[1].package_or_pid, "com.foo.two");
    assert!(segment_anrs(text, Some("com.baz"), 10).is_empty());
}

#[test]
fn time_window_does_not_discard_records() {
    let text = "1999 ANR in com.foo\nx\n\n";
    let narrow = segment_anrs(text, None, 0);
    let wide = segment_anrs(text, None, u32::MAX);
    assert_eq!(narrow.len(), 1);
    assert_eq!(wide.len(), 1);
    assert_eq!(narrow[0].lines, wide[0].lines);
    assert_eq!(narrow[0].approx_time, "1999");
}

#[test]
fn empty_text_has_no_anr() {
    assert!(segment_anrs("", None, 10).is_empty());
    assert!(segment_anrs("nothing here\n\n", Some("com.foo"), 10).is_empty());
}

#[test]
fn anr_segmenter_records_the_window_and_reads_line_by_line() {
    let mut segmenter = AnrLogSegmenter::new(None, 30);
    assert_eq!(segmenter.since_minutes, 30);
    assert!(!segmenter.in_anr());
    segmenter.push_line("ANR in com.foo");
    assert!(segmenter.in_anr());
    segmenter.push_line("ANR in com.bar");
    assert!(segmenter.in_anr());
    segmenter.push_line("");
    assert!(!segmenter.in_anr());
    assert_eq!(segmenter.since_minutes, 30);
    let records = segmenter.finish();
    assert_eq!(records.len(), 1);
    assert_eq!(records[0].package_or_pid, "com.foo");
    assert_eq!(records[0].lines, texts(&["ANR in com.foo", "ANR in com.bar", ""]));
}
