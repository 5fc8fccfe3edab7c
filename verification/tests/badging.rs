use dab::badging::parse_badging;

#[test]
fn empty_version_name_reads_not_set() {
    let info = parse_badging("package: name='com.x' versionCode='3' versionName=''");
    assert_eq!(info.package_name, "com.x");
    assert_eq!(info.version_code, "3");
    assert_eq!(info.version_name, "Not set");
}

#[test]
fn absent_version_name_reads_not_available() {
    let info = parse_badging("package: name='com.x' versionCode='3'");
    assert_eq!(info.package_name, "com.x");
    assert_eq!(info.version_code, "3");
    assert_eq!(info.version_name, "N/A");
}

#[test]
fn empty_dump_gives_defaults() {
    let info = parse_badging("");
    assert_eq!(info.package_name, "N/A");
    assert_eq!(info.app_label, "N/A");
    assert_eq!(info.version_code, "N/A");
    assert_eq!(info.version_name, "N/A");
    assert!(info.permissions.is_empty());
}

#[test]
fn full_dump_with_single_quotes() {
    let dump = "package: name='com.example.app' versionCode='42' versionName='1.2.3' platformBuildVersionName='14'\n\
                sdkVersion:'21'\n\
                uses-permission: name='android.permission.INTERNET'\n\
                uses-permission: name='android.permission.CAMERA'\n\
                uses-permission: name='android.permission.INTERNET'\n\
                application-label:'Example App'\n\
                application-label-de:'Beispiel'\n";
    let info = parse_badging(dump);
    assert_eq!(info.package_name, "com.example.app");
    assert_eq!(info.version_code, "42");
    assert_eq!(info.version_name, "1.2.3");
    assert_eq!(info.app_label, "Example App");
    assert_eq!(
        info.permissions,
        vec!["android.permission.INTERNET".to_string(), "android.permission.CAMERA".to_string()]
    );
}

#[test]
fn double_quotes_are_the_fallback() {
    let dump = "package: name=\"com.q\" versionCode=\"7\" versionName=\"2.0 beta\"\r\n\
                uses-permission: name=\"android.permission.NFC\"\r\n\
                application-label:\"Quoted\"\r\n";
    let info = parse_badging(dump);
    assert_eq!(info.package_name, "com.q");
    assert_eq!(info.version_code, "7");
    assert_eq!(info.version_name, "2.0 beta");
    assert_eq!(info.app_label, "Quoted");
    assert_eq!(info.permissions, vec!["android.permission.NFC".to_string()]);
}

#[test]
fn empty_double_quoted_version_name_reads_not_set() {
    let info = parse_badging("package: name=\"com.q\" versionName=\"\"");
    assert_eq!(info.version_name, "Not set");
    assert_eq!(info.version_code, "N/A");
}

#[test]
fn single_quote_opener_without_closer_blocks_the_fallback() {
    let info = parse_badging("package: versionName='1.0 versionName=\"2.0\"");
    assert_eq!(info.version_name, "N/A");
}

#[test]
fn localized_label_is_used_when_no_plain_label() {
    let dump = "application-label-en:'English'\napplication-label-fr:'Francais'\n";
    let info = parse_badging(dump);
    assert_eq!(info.app_label, "English");
}

#[test]
fn plain_label_beats_an_earlier_localized_one() {
    let dump = "application-label-en:'English'\napplication-label:'Plain'\napplication-label-fr:'Francais'\n";
    let info = parse_badging(dump);
    assert_eq!(info.app_label, "Plain");
}

#[test]
fn empty_plain_label_falls_back_to_not_available() {
    let info = parse_badging("application-label:''\n");
    assert_eq!(info.app_label, "N/A");
    let info = parse_badging("application-label:''\napplication-label-es:'Hola'\n");
    assert_eq!(info.app_label, "Hola");
}

#[test]
fn indented_lines_are_trimmed_before_matching() {
    let info = parse_badging("   package: name='a.b'   \n\t uses-permission: name='p.q'\n");
    assert_eq!(info.package_name, "a.b");
    assert_eq!(info.permissions, vec!["p.q".to_string()]);
}

#[test]
fn malformed_lines_are_missing_fields_not_errors() {
    let dump = "package:\nuses-permission:\nuses-permission: name='\napplication-label-xx\nrandom text ' \" =\n";
    let info = parse_badging(dump);
    assert_eq!(info.package_name, "N/A");
    assert_eq!(info.version_code, "N/A");
    assert_eq!(info.version_name, "N/A");
    assert_eq!(info.app_label, "N/A");
    assert!(info.permissions.is_empty());
}

#[test]
fn a_later_package_line_overrides_an_earlier_one() {
    let info = parse_badging("package: name='one' versionCode='1'\npackage: name='two'\n");
    assert_eq!(info.package_name, "two");
    assert_eq!(info.version_code, "1");
}

#[test]
fn non_ascii_label_is_kept() {
    let info = parse_badging("application-label:'Caf\u{e9} \u{2603}'\n");
    assert_eq!(info.app_label, "Caf\u{e9} \u{2603}");
}
