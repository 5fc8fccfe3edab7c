use dab::network::first_address;
use dab::network::parse_addresses;
use dab::network::parse_network_name;
use dab::network::primary_address;

const LISTING: &str = "1: lo: <LOOPBACK,UP,LOWER_UP> mtu 65536\n    inet 127.0.0.1/8 scope host lo\n       valid_lft forever preferred_lft forever\n23: wlan0: <BROADCAST,MULTICAST,UP,LOWER_UP> mtu 1500\n    inet 192.168.1.23/24 brd 192.168.1.255 scope global wlan0\n";

#[test]
fn addresses_are_listed_without_prefix_length() {
    assert_eq!(parse_addresses(LISTING), vec!["127.0.0.1".to_string(), "192.168.1.23".to_string()]);
}

#[test]
fn first_address_is_the_first_inet_line() {
    assert_eq!(first_address(LISTING), Some("127.0.0.1".to_string()));
    assert_eq!(first_address("    inet 10.0.0.2/8\n"), Some("10.0.0.2".to_string()));
    assert_eq!(first_address("no addresses here\ninet6 fe80::1/64\n"), None);
    assert_eq!(first_address(""), None);
}

#[test]
fn primary_address_skips_loopback_and_empty() {
    assert_eq!(primary_address(LISTING), Some("192.168.1.23".to_string()));
    assert_eq!(primary_address("inet 127.0.0.1/8\n"), None);
    assert_eq!(primary_address("inet /24\ninet 10.1.1.1\n"), Some("10.1.1.1".to_string()));
    assert_eq!(primary_address(""), None);
}

#[test]
fn inet_line_without_an_address_gives_an_empty_one() {
    assert_eq!(parse_addresses("inet \ninet    \n"), Vec::<String>::new());
    assert_eq!(parse_addresses("  inet /8 x\n"), vec!["".to_string()]);
}

#[test]
fn network_name_is_unquoted() {
    let dump = "Wi-Fi is enabled\nmWifiInfo SSID: \"HomeNet\", BSSID: 00:11:22:33:44:55, RSSI: -40\n";
    assert_eq!(parse_network_name(dump), Some("HomeNet".to_string()));
}

#[test]
fn unknown_network_names_are_passed_over() {
    let dump = "SSID: <unknown ssid>, x\nSSID: 0x0\nSSID: \"\"\nSSID:   \nSSID: \"Cafe Wifi\" , more\nSSID: Other\n";
    assert_eq!(parse_network_name(dump), Some("Cafe Wifi".to_string()));
}

#[test]
fn dump_without_a_network_name_gives_none() {
    assert_eq!(parse_network_name("Wi-Fi is disabled\n"), None);
    assert_eq!(parse_network_name("SSID: <unknown ssid>\n"), None);
    assert_eq!(parse_network_name(""), None);
}
