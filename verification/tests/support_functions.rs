use singularity_monitor::config::{AppConfig, PIPE_NAME};
use singularity_monitor::db::alerts::utc_month_start_ts;
use singularity_monitor::db::caps::{
    as_i64_clamped, derive_daily_cap_bytes, normalize_cap_interface_guid, threshold_bytes_for_percent,
};
use singularity_monitor::db::query::granularity_to_seconds;
use singularity_monitor::db::usage::{interface_kind, normalize_process_name};
use singularity_monitor::db::DbError;
use singularity_monitor::helper::{
    import_window, normalize_attribution_id, parse_mode, parse_u32_flag, parse_value, snapshot_range,
    unix_to_winrt, Mode,
};
use singularity_monitor::ipc::{frame_step, read_request_line, FrameStep, MAX_REQUEST_BYTES};
use singularity_monitor::poller::{format_guid, wide_to_string};
use singularity_monitor::db::Db;

use singularity_monitor::poller::{interface_snapshot_of, is_metered_cost, metered_for, CostKind, ProfileCost};
use singularity_monitor::helper::import_chunk;
use singularity_monitor::ipc::request_line_of;
use singularity_monitor::helper::limit_breached;

fn args(list: &[&str]) -> Vec<String> {
    list.iter().map(|s| s.to_string()).collect()
}

#[test]
fn month_start_of_mid_november() {
    assert_eq!(utc_month_start_ts(1_700_000_000), 1_698_796_800);
    assert_eq!(utc_month_start_ts(1_698_796_800), 1_698_796_800);
    assert_eq!(utc_month_start_ts(1), 0);
    assert_eq!(utc_month_start_ts(0), 0);
    assert_eq!(utc_month_start_ts(-1), -2_678_400);
    assert_eq!(utc_month_start_ts(-62_167_219_200), -62_167_219_200);
    assert_eq!(utc_month_start_ts(-62_167_219_201), -62_167_219_201);
    assert_eq!(utc_month_start_ts(253_402_300_800), 253_402_300_800);
    assert_eq!(utc_month_start_ts(951_782_400), 951_782_400 - 28 * 86_400);
}

#[test]
fn cap_formulas_round_up() {
    assert_eq!(threshold_bytes_for_percent(1000, 50), 500);
    assert_eq!(threshold_bytes_for_percent(1001, 50), 501);
    assert_eq!(threshold_bytes_for_percent(0, 50), 0);
    assert_eq!(threshold_bytes_for_percent(u64::MAX, 100), u64::MAX / 100);
    assert_eq!(derive_daily_cap_bytes(1000), 34);
    assert_eq!(derive_daily_cap_bytes(30), 1);
    assert_eq!(derive_daily_cap_bytes(0), 0);
    assert_eq!(derive_daily_cap_bytes(31), 2);
    let top = u64::MAX;
    assert_eq!(derive_daily_cap_bytes(top), top / 30 + if top % 30 != 0 { 1 } else { 0 });
    assert_eq!(derive_daily_cap_bytes(top - 1), (top - 1) / 30 + if (top - 1) % 30 != 0 { 1 } else { 0 });
    assert_eq!(as_i64_clamped(5), 5);
    assert_eq!(as_i64_clamped(u64::MAX), i64::MAX);
}

#[test]
fn cap_guid_normalization() {
    assert_eq!(normalize_cap_interface_guid("global", &Some("{x}".to_string())), Ok(None));
    assert_eq!(
        normalize_cap_interface_guid("interface", &Some("  {x} ".to_string())),
        Ok(Some("{x}".to_string()))
    );
    assert_eq!(normalize_cap_interface_guid("interface", &None), Err(DbError::MissingInterfaceGuid));
    assert_eq!(normalize_cap_interface_guid("device", &None), Err(DbError::InvalidScope));
}

#[test]
fn granularity_and_interface_kinds() {
    assert_eq!(granularity_to_seconds("hour"), 3600);
    assert_eq!(granularity_to_seconds("day"), 86_400);
    assert_eq!(interface_kind(6), "ethernet");
    assert_eq!(interface_kind(71), "wifi");
    assert_eq!(interface_kind(24), "loopback");
    assert_eq!(interface_kind(0), "other");
}

#[test]
fn process_names_are_normalized() {
    assert_eq!(normalize_process_name("  \"C:\\Apps\\Tool.EXE\" "), "Tool.EXE");
    assert_eq!(normalize_process_name("   "), "unattributed");
    assert_eq!(normalize_process_name("System"), "System");
}

#[test]
fn guid_and_wide_strings() {
    assert_eq!(
        format_guid(0x1234abcd, 0x00ef, 0x0a0b, [0, 1, 2, 3, 0xfe, 0xdc, 0xba, 0x98]),
        "{1234abcd-00ef-0a0b-0001-0203fedcba98}"
    );
    let wide: Vec<u16> = " Ethernet 2 ".encode_utf16().chain([0u16, 65u16]).collect();
    assert_eq!(wide_to_string(&wide), "Ethernet 2");
    let no_nul: Vec<u16> = "Wi-Fi".encode_utf16().collect();
    assert_eq!(wide_to_string(&no_nul), "Wi-Fi");
}

#[test]
fn helper_modes_from_arguments() {
    assert_eq!(parse_mode(&args(&[])), Ok(Mode::Probe { window_secs: 300 }));
    assert_eq!(parse_mode(&args(&["--push-once", "--window-secs", "120"])), Ok(Mode::PushOnce { window_secs: 120 }));
    assert_eq!(
        parse_mode(&args(&["--loop", "--interval-secs", "5"])),
        Ok(Mode::Loop { window_secs: 300, interval_secs: 15 })
    );
    assert_eq!(
        parse_mode(&args(&["--import-history", "--days", "0"])),
        Ok(Mode::ImportHistory { days: 1, chunk_hours: 6 })
    );
    assert!(parse_mode(&args(&["--bogus"])).is_err());
    assert_eq!(parse_u32_flag(&args(&["--days", "7"]), "--days"), Some(7));
    assert_eq!(parse_u32_flag(&args(&["--days"]), "--days"), None);
    assert_eq!(parse_value(&args(&["--profile", "work"]), "--profile"), Some("work".to_string()));
    assert_eq!(parse_value(&args(&["--profile"]), "--profile"), None);
}

#[test]
fn helper_time_arithmetic() {
    assert_eq!(unix_to_winrt(0), 116_444_736_000_000_000);
    assert_eq!(unix_to_winrt(1), 116_444_736_010_000_000);
    assert_eq!(snapshot_range(1000, 300), (700, 1000));
    assert_eq!(snapshot_range(1000, 0), (999, 1000));
    assert_eq!(import_window(1_000_000, 2, 6), (1_000_000 - 2 * 86_400, 6 * 3600));
    assert_eq!(import_window(1_000_000, 0, 0), (1_000_000 - 86_400, 3600));
    assert_eq!(normalize_attribution_id("  \"abc\" "), "abc");
}

#[test]
fn request_framing() {
    let mut buf = Vec::new();
    assert_eq!(frame_step(&mut buf, b"{\"id\":"), FrameStep::NeedMore);
    assert_eq!(frame_step(&mut buf, b"1}\n"), FrameStep::Complete);
    assert_eq!(buf, b"{\"id\":1}\n".to_vec());
    let mut big = Vec::new();
    let chunk = vec![b'a'; MAX_REQUEST_BYTES + 1];
    assert_eq!(frame_step(&mut big, &chunk), FrameStep::TooLarge);
}

#[test]
fn request_lines() {
    assert_eq!(read_request_line(&b"  {\"a\":1}\r\nrest".to_vec()), Ok(Some("{\"a\":1}".to_string())));
    assert_eq!(read_request_line(&b"   \n".to_vec()), Ok(None));
    let bad = read_request_line(&vec![0xff, 0xfe, b'\n']);
    assert!(bad.unwrap_err().starts_with("request was not valid utf-8: "));
}

#[test]
fn config_from_values() {
    let c = AppConfig::from_values("db".to_string(), "log".to_string(), Some("5".to_string()), Some("abc".to_string()), Some("0".to_string()));
    assert_eq!(c.poll_interval_seconds, 15);
    assert_eq!(c.max_delta_bytes, 10_737_418_240);
    assert!(!c.trim_working_set);
    assert_eq!(c.pipe_name, PIPE_NAME);
    assert_eq!(c.attribution_mode, "helper-required");
    let d = AppConfig::from_values("db".to_string(), "log".to_string(), None, Some("42".to_string()), None);
    assert_eq!(d.poll_interval_seconds, 60);
    assert_eq!(d.max_delta_bytes, 42);
    assert!(d.trim_working_set);
    let e = AppConfig::from_values("db".to_string(), "log".to_string(), Some("900".to_string()), None, Some("1".to_string()));
    assert_eq!(e.poll_interval_seconds, 300);
    assert!(e.trim_working_set);
}

#[test]
fn store_size_and_compaction_report() {
    assert_eq!(Db::db_size_bytes(Some(10), None, Some(5)), 15);
    assert_eq!(Db::db_size_bytes(None, None, None), 0);
    assert_eq!(Db::db_size_bytes(Some(u64::MAX), Some(1), None), u64::MAX);
    let r = Db::compact_database(100, 40, 12);
    assert_eq!((r.before_bytes, r.after_bytes, r.reclaimed_bytes, r.duration_ms), (100, 40, 60, 12));
    let grown = Db::compact_database(40, 100, u128::MAX);
    assert_eq!((grown.reclaimed_bytes, grown.duration_ms), (0, u64::MAX));
}

#[test]
fn connection_costs_mark_metered_adapters() {
    assert!(is_metered_cost(CostKind::Fixed));
    assert!(is_metered_cost(CostKind::Variable));
    assert!(!is_metered_cost(CostKind::Unrestricted));
    assert!(!is_metered_cost(CostKind::Unknown));

    let guid = format_guid(1, 2, 3, [4, 5, 6, 7, 8, 9, 10, 11]);
    let costs = vec![
        ProfileCost { adapter_guid: guid.clone(), cost: CostKind::Unrestricted },
        ProfileCost { adapter_guid: "{other}".to_string(), cost: CostKind::Fixed },
        ProfileCost { adapter_guid: guid.clone(), cost: CostKind::Variable },
    ];
    assert_eq!(metered_for(&costs, &guid), Some(true));
    assert_eq!(metered_for(&costs, &"{missing}".to_string()), None);
    assert_eq!(metered_for(&costs[..2].to_vec(), &guid), Some(false));

    let alias: Vec<u16> = vec![0, 0];
    let description: Vec<u16> = "Intel Adapter".encode_utf16().chain([0u16]).collect();
    let row = interface_snapshot_of(&alias, &description, 1, 2, 3, [4, 5, 6, 7, 8, 9, 10, 11], 100, 200, 6, &costs);
    assert_eq!(row.interface_name, "Intel Adapter");
    assert_eq!(row.interface_guid, "{00000001-0002-0003-0405-060708090a0b}");
    assert_eq!((row.bytes_sent, row.bytes_recv, row.interface_type), (100, 200, 6));
    assert_eq!(row.is_metered, Some(true));
    let named: Vec<u16> = "Wi-Fi".encode_utf16().collect();
    let row2 = interface_snapshot_of(&named, &description, 9, 9, 9, [0; 8], 0, 0, 71, &vec![]);
    assert_eq!(row2.interface_name, "Wi-Fi");
    assert_eq!(row2.is_metered, None);
}

#[test]
fn history_import_chunks() {
    assert_eq!(import_chunk(0, 10_000, 3_600), Some((0, 3_600)));
    assert_eq!(import_chunk(7_200, 10_000, 3_600), Some((7_200, 10_000)));
    assert_eq!(import_chunk(10_000, 10_000, 3_600), None);
    let (start, chunk) = import_window(1_000_000, 1, 6);
    let mut cursor = start;
    let mut chunks = 0;
    while let Some((from, to)) = import_chunk(cursor, 1_000_000, chunk) {
        assert_eq!(from, cursor);
        cursor = to;
        chunks += 1;
    }
    assert_eq!((chunks, cursor), (4, 1_000_000));
}

#[test]
fn decoded_requests_to_lines() {
    assert_eq!(request_line_of(Ok(" a \r\nb".to_string())), Ok(Some("a".to_string())));
    assert_eq!(request_line_of(Ok(String::new())), Ok(None));
    assert_eq!(
        request_line_of(Err("bad byte".to_string())),
        Err("request was not valid utf-8: bad byte".to_string())
    );
}

#[test]
fn memory_limit_rule() {
    assert!(limit_breached(11, Some(10)));
    assert!(!limit_breached(10, Some(10)));
    assert!(!limit_breached(u64::MAX, None));
}
