use dab::device::command_outcome;
use dab::device::connected_devices;
use dab::device::find_apk_path;
use dab::device::has_text;
use dab::device::output_reports_success;
use dab::device::parse_device_list;
use dab::device::trimmed;
use dab::device::DeviceError;

#[test]
fn device_list_names_the_serial_numbers() {
    let listing = "* daemon not running; starting now at tcp:5037\n* daemon started successfully\nList of devices attached\nemulator-5554          device product:sdk model:Pixel\nR58M123ABC\tdevice usb:1-1\n\n";
    assert_eq!(parse_device_list(listing), vec!["emulator-5554".to_string(), "R58M123ABC".to_string()]);
}

#[test]
fn device_list_without_devices_is_an_error() {
    assert_eq!(connected_devices("List of devices attached\n\n"), Err(DeviceError::NoDevices));
    assert_eq!(connected_devices(""), Err(DeviceError::NoDevices));
    assert_eq!(connected_devices("   \n\t\n"), Err(DeviceError::NoDevices));
}

#[test]
fn device_list_with_devices_is_returned() {
    assert_eq!(
        connected_devices("List of devices attached\n192.168.1.7:5555 device\n"),
        Ok(vec!["192.168.1.7:5555".to_string()])
    );
}

#[test]
fn apk_path_is_found_for_the_package() {
    let listing = "package:/data/app/~~a==/com.foo-1==/base.apk=com.foo\npackage:/system/app/Bar/Bar.apk=com.bar\n";
    assert_eq!(find_apk_path(listing, "com.bar"), Some("/system/app/Bar/Bar.apk".to_string()));
    assert_eq!(
        find_apk_path(listing, "com.foo"),
        Some("/data/app/~~a==/com.foo-1==/base.apk".to_string())
    );
    assert_eq!(find_apk_path(listing, "com.baz"), None);
}

#[test]
fn apk_path_takes_the_first_line_that_ends_with_the_name() {
    let listing = "package:/a/one.apk=org.com.foo\npackage:/a/two.apk=com.foo\n";
    assert_eq!(find_apk_path(listing, "com.foo"), Some("/a/one.apk=org.com.foo".to_string()));
    assert_eq!(find_apk_path(listing, " com.foo "), Some("/a/one.apk=org.com.foo".to_string()));
}

#[test]
fn success_is_read_from_the_output() {
    assert!(output_reports_success("Performing Streamed Install\nSuccess\n"));
    assert!(!output_reports_success("Failure [INSTALL_FAILED_ALREADY_EXISTS]\n"));
    assert!(!output_reports_success("success"));
    assert!(!output_reports_success(""));
}

#[test]
fn failed_command_gives_the_trimmed_diagnostics() {
    assert_eq!(command_outcome("Success\n", ""), Ok(()));
    assert_eq!(
        command_outcome("Failure [DELETE_FAILED_INTERNAL_ERROR]\n", "  adb: failed to uninstall \n"),
        Err("adb: failed to uninstall".to_string())
    );
    assert_eq!(command_outcome("", ""), Err(String::new()));
}

#[test]
fn trimming_removes_outer_whitespace_only() {
    assert_eq!(trimmed("  a b \t\r\n"), "a b");
    assert_eq!(trimmed("\u{a0}\u{2003}x\u{3000}"), "x");
    assert_eq!(trimmed("   "), "");
    assert_eq!(trimmed(""), "");
    assert_eq!(trimmed("\u{200b}x"), "\u{200b}x");
}

#[test]
fn blank_text_has_no_text() {
    assert!(!has_text(""));
    assert!(!has_text(" \n\t "));
    assert!(has_text(" error: device offline\n"));
}
