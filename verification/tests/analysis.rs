use dab::analysis::analyze_apk;
use dab::analysis::badging_tool;
use dab::analysis::next_step;
use dab::analysis::report_badging;
use dab::analysis::ApkAnalysis;
use dab::analysis::ToolOutcome;
use dab::analysis::ToolStep;
use dab::archive::ArchiveError;
use std::io::Cursor;
use std::io::Write;
use zip::write::SimpleFileOptions;
use zip::ZipWriter;

fn small_apk() -> Vec<u8> {
    let mut writer = ZipWriter::new(Cursor::new(Vec::new()));
    for name in ["AndroidManifest.xml", "classes.dex", "res/x.xml"] {
        writer.start_file(name, SimpleFileOptions::default()).unwrap();
        writer.write_all(b"data").unwrap();
    }
    writer.finish().unwrap().into_inner()
}

#[test]
fn badging_output_is_preferred() {
    match analyze_apk(Some("package: name='com.x' versionCode='3' versionName='1'"), small_apk(), false) {
        Ok(ApkAnalysis::Badging(report)) => {
            assert_eq!(report.info.package_name, "com.x");
            assert_eq!(report.info.version_code, "3");
            assert_eq!(report.raw_output, None);
        }
        _ => panic!("the badging dump must be used"),
    }
}

#[test]
fn badging_output_makes_the_bytes_irrelevant() {
    match analyze_apk(Some(""), b"not an archive".to_vec(), false) {
        Ok(analysis) => assert!(!analysis.is_fallback()),
        Err(_) => panic!("with a dump nothing can fail"),
    }
}

#[test]
fn without_badging_the_container_is_summarized() {
    match analyze_apk(None, small_apk(), false) {
        Ok(ApkAnalysis::ArchiveOnly(summary)) => {
            assert!(summary.has_manifest);
            assert_eq!(summary.dex_count, 1);
            assert_eq!(summary.resource_count, 1);
            assert_eq!(summary.asset_count, 0);
            assert_eq!(summary.total_entries, 3);
        }
        _ => panic!("the container must be summarized"),
    }
}

#[test]
fn fallback_is_told_apart() {
    match analyze_apk(None, small_apk(), false) {
        Ok(analysis) => assert!(analysis.is_fallback()),
        Err(_) => panic!("the container is well-formed"),
    }
}

#[test]
fn without_badging_a_broken_container_fails() {
    match analyze_apk(None, vec![1, 2, 3], true) {
        Err(ArchiveError::NotAnArchive { .. }) => {}
        _ => panic!("three bytes are no archive"),
    }
}

#[test]
fn tools_are_tried_in_order() {
    assert_eq!(badging_tool(0), Some("aapt"));
    assert_eq!(badging_tool(1), Some("aapt2"));
    assert_eq!(badging_tool(2), None);
}

#[test]
fn first_success_ends_the_attempts() {
    assert_eq!(next_step(ToolOutcome::Succeeded), ToolStep::UseOutput);
    assert_eq!(next_step(ToolOutcome::NotFound), ToolStep::TryNext);
    assert_eq!(next_step(ToolOutcome::Failed), ToolStep::TryNext);
    assert_eq!(next_step(ToolOutcome::NotStarted), ToolStep::FallBack);
}

#[test]
fn raw_dump_is_passed_through_only_on_request() {
    let dump = "package: name='com.x'\nuses-permission: name='p'\n";
    let quiet = report_badging(dump, false);
    assert_eq!(quiet.info.package_name, "com.x");
    assert_eq!(quiet.raw_output, None);
    let loud = report_badging(dump, true);
    assert_eq!(loud.info.package_name, "com.x");
    assert_eq!(loud.info.permissions, vec!["p".to_string()]);
    assert_eq!(loud.raw_output, Some(dump.to_string()));
}

#[test]
fn analysis_carries_the_raw_dump_on_request() {
    let dump = "package: name='com.y'\n";
    match analyze_apk(Some(dump), Vec::new(), true) {
        Ok(ApkAnalysis::Badging(report)) => {
            assert_eq!(report.info.package_name, "com.y");
            assert_eq!(report.raw_output, Some(dump.to_string()));
        }
        _ => panic!("the badging dump must be used"),
    }
}

#[test]
fn debug_flag_does_not_change_the_fallback() {
    match analyze_apk(None, small_apk(), true) {
        Ok(ApkAnalysis::ArchiveOnly(summary)) => assert_eq!(summary.total_entries, 3),
        _ => panic!("the container must be summarized"),
    }
}
