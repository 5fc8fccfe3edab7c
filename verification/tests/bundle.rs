use dab::bundle::choose_base;
use dab::bundle::classify_extension;
use dab::bundle::extension;
use dab::bundle::file_kind;
use dab::bundle::find_base_apk;
use dab::bundle::is_apk_file_name;
use dab::bundle::ApkBundle;
use dab::bundle::ApkFile;
use dab::bundle::BaseCandidate;
use dab::bundle::BundleError;
use dab::bundle::FileKind;

fn file(name: &str, size: u64) -> ApkFile {
    ApkFile {
        path: format!("/tmp/bundle/{}", name),
        file_name: Some(name.to_string()),
        size_bytes: Some(size),
    }
}

const MB: u64 = 1024 * 1024;

#[test]
fn base_apk_name_beats_a_larger_file() {
    let files = vec![file("split.apk", 2 * MB), file("base.apk", MB), file("huge.apk", 900 * MB)];
    assert_eq!(find_base_apk(&files), Ok(1));
    let files = vec![file("huge.apk", 900 * MB), file("split.apk", 2 * MB), file("base.apk", 1)];
    assert_eq!(find_base_apk(&files), Ok(2));
    let files = vec![file("base.apk", 0), file("huge.apk", u64::MAX)];
    assert_eq!(find_base_apk(&files), Ok(0));
}

#[test]
fn largest_file_is_chosen_without_a_base_name() {
    let files = vec![file("a.apk", MB), file("b.apk", 5 * MB)];
    assert_eq!(find_base_apk(&files), Ok(1));
    let files = vec![file("b.apk", 5 * MB), file("a.apk", MB)];
    assert_eq!(find_base_apk(&files), Ok(0));
}

#[test]
fn equal_sizes_are_settled_by_order() {
    let files = vec![file("a.apk", MB), file("b.apk", 3 * MB), file("c.apk", 3 * MB)];
    assert_eq!(find_base_apk(&files), Ok(1));
    let files = vec![file("a.apk", 0), file("b.apk", 0)];
    assert_eq!(find_base_apk(&files), Ok(0));
}

#[test]
fn unknown_sizes_never_win_over_known_ones() {
    let unknown = ApkFile { path: "x".to_string(), file_name: Some("x.apk".to_string()), size_bytes: None };
    let files = vec![unknown, file("small.apk", 1)];
    assert_eq!(find_base_apk(&files), Ok(1));
}

#[test]
fn base_name_is_compared_without_regard_to_case() {
    let files = vec![file("config.arm64.apk", 9 * MB), file("BASE.APK", MB)];
    assert_eq!(find_base_apk(&files), Ok(1));
    let files = vec![file("big.apk", 9 * MB), file("My-Base-Feature.apk", MB)];
    assert_eq!(find_base_apk(&files), Ok(1));
}

#[test]
fn exact_name_beats_a_name_that_only_holds_base() {
    let files = vec![file("base-assets.apk", 9 * MB), file("other.apk", 99 * MB), file("Base.apk", MB)];
    assert_eq!(find_base_apk(&files), Ok(2));
    let files = vec![file("split_base1.apk", MB), file("database.apk", 50 * MB)];
    assert_eq!(find_base_apk(&files), Ok(0));
}

#[test]
fn file_without_a_name_can_only_win_by_size() {
    let nameless = ApkFile { path: "..".to_string(), file_name: None, size_bytes: Some(7) };
    let files = vec![nameless, file("a.apk", 3)];
    assert_eq!(find_base_apk(&files), Ok(0));
}

#[test]
fn choice_among_lowered_names_is_the_same() {
    let candidates = vec![
        BaseCandidate { lowered_name: Some("split.apk".to_string()), size_bytes: Some(2) },
        BaseCandidate { lowered_name: Some("base.apk".to_string()), size_bytes: Some(1) },
        BaseCandidate { lowered_name: Some("huge.apk".to_string()), size_bytes: Some(100) },
    ];
    assert_eq!(choose_base(&candidates), Ok(1));
    let candidates = vec![
        BaseCandidate { lowered_name: Some("BASE.APK".to_string()), size_bytes: Some(1) },
        BaseCandidate { lowered_name: Some("huge.apk".to_string()), size_bytes: Some(100) },
    ];
    assert_eq!(choose_base(&candidates), Ok(1));
}

#[test]
fn bundle_designates_its_base_file() {
    let bundle = match ApkBundle::new(vec![file("a.apk", MB), file("base.apk", 1), file("b.apk", 5 * MB)]) {
        Ok(bundle) => bundle,
        Err(_) => panic!("a bundle with files must be accepted"),
    };
    assert_eq!(bundle.base_apk, 1);
    assert_eq!(bundle.base().path, "/tmp/bundle/base.apk");
    assert_eq!(bundle.files.len(), 3);
}

#[test]
fn bundle_without_files_is_refused() {
    match ApkBundle::new(Vec::new()) {
        Err(e) => assert_eq!(e, BundleError::NoInnerApk),
        Ok(_) => panic!("an empty bundle must be refused"),
    }
}

#[test]
fn extension_follows_the_last_dot() {
    assert_eq!(extension("app.apk"), Some("apk".to_string()));
    assert_eq!(extension("archive.tar.gz"), Some("gz".to_string()));
    assert_eq!(extension("noext"), None);
    assert_eq!(extension(".hidden"), None);
    assert_eq!(extension(".hidden.apk"), Some("apk".to_string()));
    assert_eq!(extension("trailing."), Some("".to_string()));
    assert_eq!(extension(""), None);
    assert_eq!(extension("."), None);
}

#[test]
fn kinds_are_told_by_extension_in_any_case() {
    assert_eq!(file_kind("app.apk"), FileKind::Apk);
    assert_eq!(file_kind("App.APK"), FileKind::Apk);
    assert_eq!(file_kind("bundle.xapk"), FileKind::Xapk);
    assert_eq!(file_kind("bundle.XApk"), FileKind::Xapk);
    assert_eq!(file_kind("archive.zip"), FileKind::Unsupported);
    assert_eq!(file_kind("apk"), FileKind::Unsupported);
    assert_eq!(file_kind(".apk"), FileKind::Unsupported);
    assert_eq!(file_kind("app.apk.bak"), FileKind::Unsupported);
}

#[test]
fn lowered_extensions_are_classified_exactly() {
    assert_eq!(classify_extension(Some("apk")), FileKind::Apk);
    assert_eq!(classify_extension(Some("xapk")), FileKind::Xapk);
    assert_eq!(classify_extension(Some("APK")), FileKind::Unsupported);
    assert_eq!(classify_extension(Some("")), FileKind::Unsupported);
    assert_eq!(classify_extension(None), FileKind::Unsupported);
}

#[test]
fn apk_file_names_are_recognised() {
    assert!(is_apk_file_name("base.apk"));
    assert!(is_apk_file_name("split_config.en.Apk"));
    assert!(!is_apk_file_name("metadata.json"));
    assert!(!is_apk_file_name("icon.png"));
    assert!(!is_apk_file_name("bundle.xapk"));
}

#[test]
fn no_files_have_no_base_file() {
    assert_eq!(find_base_apk(&Vec::new()), Err(BundleError::NoInnerApk));
    assert_eq!(choose_base(&Vec::new()), Err(BundleError::NoInnerApk));
}

#[test]
fn a_single_file_is_its_own_base() {
    assert_eq!(find_base_apk(&vec![file("only.apk", 0)]), Ok(0));
}
