use dab::crash_log::segment_crashes;
use dab::crash_log::CrashLogSegmenter;

fn strings(lines: &[&str]) -> Vec<String> {
    lines.iter().map(|l| l.to_string()).collect()
}

#[test]
fn closed_block_yields_one_record() {
    let log = "01-01 00:00:00.000 F DEBUG   : pid: 1, tid: 1, name: foo  >>> com.foo <<<\nsignal 11 (SIGSEGV)\n\n";
    let records = segment_crashes(log, None);
    assert_eq!(records.len(), 1);
    assert_eq!(records[0].process_or_package, "com.foo");
    assert_eq!(
        records[0].lines,
        strings(&[
            "01-01 00:00:00.000 F DEBUG   : pid: 1, tid: 1, name: foo  >>> com.foo <<<",
            "signal 11 (SIGSEGV)",
            "",
        ])
    );
}

#[test]
fn unterminated_block_yields_nothing() {
    let log = "01-01 00:00:00.000 F DEBUG   : pid: 1, tid: 1, name: foo  >>> com.foo <<<\nsignal 11 (SIGSEGV)\n";
    let records = segment_crashes(log, None);
    assert!(records.is_empty());
}

#[test]
fn filter_excludes_other_packages() {
    let log = "DEBUG >>> com.foo <<<\nbody one\n\nDEBUG >>> com.foo <<<\nbody two\n\n";
    assert_eq!(segment_crashes(log, None).len(), 2);
    assert!(segment_crashes(log, Some("com.bar")).is_empty());
}

#[test]
fn filter_is_a_case_sensitive_substring() {
    let log = "DEBUG >>> com.foo.app <<<\nbody\n\n";
    assert_eq!(segment_crashes(log, Some("foo")).len(), 1);
    assert_eq!(segment_crashes(log, Some("com.foo.app")).len(), 1);
    assert!(segment_crashes(log, Some("Foo")).is_empty());
    assert_eq!(segment_crashes(log, Some("")).len(), 1);
}

#[test]
fn filter_keeps_matching_records_in_order() {
    let log = "DEBUG >>> com.a <<<\n1\n\nnoise\nDEBUG >>> com.b <<<\n2\n \nDEBUG >>> com.a.two <<<\n3\n\t\n";
    let all = segment_crashes(log, None);
    assert_eq!(all.len(), 3);
    assert_eq!(all[1].process_or_package, "com.b");
    assert_eq!(all[1].lines, strings(&["DEBUG >>> com.b <<<", "2", " "]));
    let only_a = segment_crashes(log, Some("com.a"));
    assert_eq!(only_a.len(), 2);
    assert_eq!(only_a[0].process_or_package, "com.a");
    assert_eq!(only_a[1].process_or_package, "com.a.two");
}

#[test]
fn marker_line_inside_a_record_is_a_body_line() {
    let log = "DEBUG >>> com.first <<<\nDEBUG >>> com.second <<<\n\n";
    let records = segment_crashes(log, None);
    assert_eq!(records.len(), 1);
    assert_eq!(records[0].process_or_package, "com.first");
    assert_eq!(records[0].lines.len(), 3);
}

#[test]
fn all_three_markers_are_needed() {
    assert!(segment_crashes("INFO >>> com.foo <<<\nbody\n\n", None).is_empty());
    assert!(segment_crashes("DEBUG com.foo <<<\nbody\n\n", None).is_empty());
    assert!(segment_crashes("DEBUG >>> com.foo\nbody\n\n", None).is_empty());
}

#[test]
fn process_is_empty_when_no_closing_marker_follows() {
    let records = segment_crashes("DEBUG <<< odd >>> tail\nbody\n\n", None);
    assert_eq!(records.len(), 1);
    assert_eq!(records[0].process_or_package, "");
}

#[test]
fn empty_log_has_no_crashes() {
    assert!(segment_crashes("", None).is_empty());
    assert!(segment_crashes("\n\n\n", Some("x")).is_empty());
}

#[test]
fn lines_outside_records_are_ignored() {
    let log = "boot\n\nDEBUG >>> p <<<\nx\n\nafter\n\n";
    let records = segment_crashes(log, None);
    assert_eq!(records.len(), 1);
    assert_eq!(records[0].lines, strings(&["DEBUG >>> p <<<", "x", ""]));
}

#[test]
fn segmenter_can_be_fed_line_by_line() {
    let mut segmenter = CrashLogSegmenter::new(Some("com.foo"));
    assert!(!segmenter.in_crash());
    segmenter.push_line("DEBUG >>> com.foo <<<");
    assert!(segmenter.in_crash());
    segmenter.push_line("backtrace:");
    assert!(segmenter.in_crash());
    segmenter.push_line("   ");
    assert!(!segmenter.in_crash());
    segmenter.push_line("DEBUG >>> com.foo <<<");
    let records = segmenter.finish();
    assert_eq!(records.len(), 1);
    assert_eq!(records[0].process_or_package, "com.foo");
}
