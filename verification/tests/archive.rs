use dab::archive::summarize_apk;
use dab::archive::summarize_entries;
use dab::archive::ArchiveError;
use std::io::Cursor;
use std::io::Write;
use zip::write::SimpleFileOptions;
use zip::CompressionMethod;
use zip::ZipWriter;

fn container(names: &[&str], method: CompressionMethod) -> Vec<u8> {
    let mut writer = ZipWriter::new(Cursor::new(Vec::new()));
    let options = SimpleFileOptions::default().compression_method(method);
    for name in names {
        writer.start_file(*name, options).unwrap();
        writer.write_all(b"some content, some content, some content").unwrap();
    }
    writer.finish().unwrap().into_inner()
}

fn owned(names: &[&str]) -> Vec<String> {
    names.iter().map(|n| n.to_string()).collect()
}

#[test]
fn entry_names_are_classified_by_prefix_and_suffix() {
    let names = owned(&[
        "AndroidManifest.xml",
        "classes.dex",
        "classes2.dex",
        "classes.txt",
        "lib/classes.dex",
        "assets/a.bin",
        "assets/sub/b.bin",
        "assets",
        "res/layout/main.xml",
        "res/",
        "resources.arsc",
        "META-INF/MANIFEST.MF",
    ]);
    let summary = summarize_entries(&names, 4096);
    assert!(summary.has_manifest);
    assert_eq!(summary.dex_count, 2);
    assert_eq!(summary.asset_count, 2);
    assert_eq!(summary.resource_count, 2);
    assert_eq!(summary.total_entries, 12);
    assert_eq!(summary.size_bytes, 4096);
}

#[test]
fn manifest_name_must_match_exactly() {
    let summary = summarize_entries(&owned(&["androidmanifest.xml", "x/AndroidManifest.xml"]), 1);
    assert!(!summary.has_manifest);
    assert_eq!(summary.total_entries, 2);
}

#[test]
fn no_entries_give_an_empty_summary() {
    let summary = summarize_entries(&Vec::new(), 0);
    assert!(!summary.has_manifest);
    assert_eq!(summary.dex_count, 0);
    assert_eq!(summary.asset_count, 0);
    assert_eq!(summary.resource_count, 0);
    assert_eq!(summary.total_entries, 0);
    assert_eq!(summary.size_bytes, 0);
}

#[test]
fn stored_container_is_summarized_from_its_bytes() {
    let bytes = container(
        &["AndroidManifest.xml", "classes.dex", "classes2.dex", "res/a.xml", "assets/x", "other"],
        CompressionMethod::Stored,
    );
    let size = bytes.len() as u64;
    let summary = match summarize_apk(bytes) {
        Ok(summary) => summary,
        Err(_) => panic!("a well-formed archive must be summarized"),
    };
    assert!(summary.has_manifest);
    assert_eq!(summary.dex_count, 2);
    assert_eq!(summary.asset_count, 1);
    assert_eq!(summary.resource_count, 1);
    assert_eq!(summary.total_entries, 6);
    assert_eq!(summary.size_bytes, size);
}

#[test]
fn deflated_container_is_summarized_too() {
    let bytes = container(&["classes.dex", "assets/one", "assets/two"], CompressionMethod::Deflated);
    let summary = match summarize_apk(bytes) {
        Ok(summary) => summary,
        Err(_) => panic!("a deflated archive must be summarized"),
    };
    assert!(!summary.has_manifest);
    assert_eq!(summary.dex_count, 1);
    assert_eq!(summary.asset_count, 2);
    assert_eq!(summary.resource_count, 0);
    assert_eq!(summary.total_entries, 3);
}

#[test]
fn empty_archive_has_no_entries() {
    let bytes = container(&[], CompressionMethod::Stored);
    let summary = match summarize_apk(bytes) {
        Ok(summary) => summary,
        Err(_) => panic!("an empty archive is still an archive"),
    };
    assert_eq!(summary.total_entries, 0);
    assert!(!summary.has_manifest);
}

#[test]
fn bytes_that_are_no_archive_are_an_error() {
    match summarize_apk(b"this is not a zip file at all".to_vec()) {
        Err(ArchiveError::NotAnArchive { reason }) => assert!(!reason.is_empty()),
        _ => panic!("plain text must be refused"),
    }
    match summarize_apk(Vec::new()) {
        Err(ArchiveError::NotAnArchive { .. }) => {}
        _ => panic!("nothing must be refused"),
    }
}

#[test]
fn first_entry_that_cannot_be_looked_up_is_reported() {
    let mut bytes = container(&["first", "second", "third"], CompressionMethod::Stored);
    let header = [0x50u8, 0x4b, 0x03, 0x04];
    let starts: Vec<usize> =
        (0..bytes.len() - 4).filter(|&at| bytes[at..at + 4] == header).collect();
    assert_eq!(starts.len(), 3);
    bytes[starts[1]] = 0;
    match summarize_apk(bytes) {
        Err(ArchiveError::UnreadableEntry { index, reason }) => {
            assert_eq!(index, 1);
            assert!(!reason.is_empty());
        }
        _ => panic!("the damaged entry must be reported"),
    }
}
