use dab::health::parse_battery;
use dab::health::parse_memory;
use dab::health::parse_storage;

#[test]
fn battery_level_and_status_are_read() {
    let dump = "Current Battery Service state:\n  AC powered: false\n  status: 2\n  health: 2\n  level: 87\n  scale: 100\n";
    let battery = parse_battery(dump);
    assert_eq!(battery.level, "87");
    assert_eq!(battery.status, "2");
}

#[test]
fn battery_without_figures_reads_not_available() {
    let battery = parse_battery("Can't find service: battery\n");
    assert_eq!(battery.level, "N/A");
    assert_eq!(battery.status, "N/A");
    let battery = parse_battery("");
    assert_eq!(battery.level, "N/A");
    assert_eq!(battery.status, "N/A");
}

#[test]
fn last_battery_line_wins() {
    let battery = parse_battery("level: 10\nlevel: 20\nstatus:\nlevel:30:40\n");
    assert_eq!(battery.level, "30");
    assert_eq!(battery.status, "");
}

#[test]
fn storage_row_gives_three_figures() {
    let table = "Filesystem     1K-blocks     Used Available Use% Mounted on\n/dev/block/dm-5 112,640,000 45,300,120  67339880  41% /data\n";
    let figures = match parse_storage(table) {
        Some(figures) => figures,
        None => panic!("the row has five columns"),
    };
    assert_eq!(figures.total_kb, "112640000");
    assert_eq!(figures.used_kb, "45300120");
    assert_eq!(figures.free_kb, "67339880");
}

#[test]
fn heading_and_short_rows_are_not_storage_rows() {
    assert!(parse_storage("Filesystem 1K-blocks Used Available Use% Mounted on\n").is_none());
    assert!(parse_storage("a b c d e f\n").is_none());
    assert!(parse_storage("heading\none two three four\n").is_none());
    assert!(parse_storage("").is_none());
    let figures = match parse_storage("heading\nshort row\nfs 10 4 6 40%\nfs2 20 8 12 40% /x\n") {
        Some(figures) => figures,
        None => panic!("the third line has five columns"),
    };
    assert_eq!(figures.total_kb, "10");
    assert_eq!(figures.used_kb, "4");
    assert_eq!(figures.free_kb, "6");
}

#[test]
fn memory_figures_are_read_as_written() {
    let report = "MemTotal:        7901234 kB\nMemFree:          123456 kB\nMemAvailable:    3456789 kB\n";
    let memory = parse_memory(report);
    assert_eq!(memory.total_kb, Some("7901234".to_string()));
    assert_eq!(memory.available_kb, Some("3456789".to_string()));
}

#[test]
fn memory_report_without_figures_gives_none() {
    let memory = parse_memory("  MemTotal: 5 kB\nMemAvailable:\n");
    assert_eq!(memory.total_kb, None);
    assert_eq!(memory.available_kb, None);
    let memory = parse_memory("");
    assert_eq!(memory.total_kb, None);
    assert_eq!(memory.available_kb, None);
}
