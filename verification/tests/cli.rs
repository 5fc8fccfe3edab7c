use dab::cli::menu_actions;
use dab::cli::must_pick_device;
use dab::cli::Cli;
use dab::cli::Commands;
use dab::cli::MenuAction;
use dab::cli::Needs;

#[test]
fn local_analysis_needs_no_device() {
    assert_eq!(Commands::Info { file: "a.apk".to_string() }.needs(), Needs::Nothing);
}

#[test]
fn device_commands_need_a_device_only() {
    assert_eq!(Commands::Device.needs(), Needs::Device);
    assert_eq!(Commands::Network.needs(), Needs::Device);
    assert_eq!(Commands::Screenshot { output: None }.needs(), Needs::Device);
    assert_eq!(Commands::Record { output: Some("x.mp4".to_string()) }.needs(), Needs::Device);
    assert_eq!(Commands::Wifi.needs(), Needs::Device);
    assert_eq!(Commands::Usb.needs(), Needs::Device);
    assert_eq!(Commands::Health.needs(), Needs::Device);
    assert_eq!(Commands::Launch { url: "https://example.org".to_string() }.needs(), Needs::Device);
    assert_eq!(Commands::Install { file: "a.xapk".to_string() }.needs(), Needs::Device);
    assert_eq!(Commands::Crashes { package: None, since: 10, native: true }.needs(), Needs::Device);
}

#[test]
fn app_commands_need_an_app_too() {
    assert_eq!(Commands::Open.needs(), Needs::DeviceAndApp);
    assert_eq!(Commands::Uninstall.needs(), Needs::DeviceAndApp);
    assert_eq!(Commands::Clear.needs(), Needs::DeviceAndApp);
    assert_eq!(Commands::ForceKill.needs(), Needs::DeviceAndApp);
    assert_eq!(Commands::Download { output: None }.needs(), Needs::DeviceAndApp);
    assert_eq!(Commands::AppInfo.needs(), Needs::DeviceAndApp);
    assert_eq!(Commands::Grant.needs(), Needs::DeviceAndApp);
    assert_eq!(Commands::Revoke.needs(), Needs::DeviceAndApp);
    assert_eq!(Cli { command: None }.needs(), Needs::DeviceAndApp);
    assert_eq!(Cli { command: Some(Commands::Health) }.needs(), Needs::Device);
}

#[test]
fn menu_has_eight_entries_in_order() {
    let labels: Vec<&str> = menu_actions().iter().map(|a| a.label()).collect();
    assert_eq!(
        labels,
        vec![
            "Open",
            "App Info",
            "Uninstall",
            "Clear App Data",
            "Force Kill",
            "Download APK",
            "Grant Permissions",
            "Revoke Permissions",
        ]
    );
}

#[test]
fn every_menu_entry_is_found_by_its_label() {
    for action in menu_actions() {
        assert_eq!(MenuAction::from_label(action.label()), Some(action));
    }
    assert_eq!(MenuAction::from_label("open"), None);
    assert_eq!(MenuAction::from_label("Open "), None);
    assert_eq!(MenuAction::from_label(""), None);
}

#[test]
fn menu_entries_stand_for_commands() {
    assert!(matches!(MenuAction::Open.command(), Commands::Open));
    assert!(matches!(MenuAction::AppInfo.command(), Commands::AppInfo));
    assert!(matches!(MenuAction::Uninstall.command(), Commands::Uninstall));
    assert!(matches!(MenuAction::Clear.command(), Commands::Clear));
    assert!(matches!(MenuAction::ForceKill.command(), Commands::ForceKill));
    assert!(matches!(MenuAction::Download.command(), Commands::Download { output: None }));
    assert!(matches!(MenuAction::Grant.command(), Commands::Grant));
    assert!(matches!(MenuAction::Revoke.command(), Commands::Revoke));
}

#[test]
fn one_device_is_taken_without_asking() {
    assert!(!must_pick_device(1));
    assert!(must_pick_device(2));
    assert!(!must_pick_device(0));
}
