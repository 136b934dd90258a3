use singularity_monitor::contracts::{
    AttributedUsageSample, IngestAttributedUsageRequest, InterfaceBreakdownRequest, UsageSummaryRequest,
};
use singularity_monitor::db::Db;
use singularity_monitor::delta::DeltaEngine;
use singularity_monitor::poller::InterfaceSnapshot;

fn sample(id: &str, sent: u64, recv: u64) -> AttributedUsageSample {
    AttributedUsageSample { attribution_id: id.to_string(), bytes_sent: sent, bytes_recv: recv }
}

fn ethernet(sent: u64, recv: u64) -> InterfaceSnapshot {
    InterfaceSnapshot {
        interface_guid: "{eth}".to_string(),
        interface_name: "Ethernet".to_string(),
        bytes_sent: sent,
        bytes_recv: recv,
        interface_type: 6,
        is_metered: Some(true),
    }
}

#[test]
fn attributed_usage_counts_every_sample() {
    let mut db = Db::new();
    let response = db
        .insert_attributed_usage(&IngestAttributedUsageRequest {
            start_ts: 1_000,
            end_ts: 1_060,
            profile_name: Some("work".to_string()),
            source: Some("helper".to_string()),
            samples: vec![sample("\"C:\\bin\\app.exe\"", 10, 20), sample("idle", 0, 0), sample("  ", 1, 2)],
        })
        .expect("ingest");
    assert_eq!((response.accepted, response.dropped), (2, 1));
    let t = db.tables_snapshot();
    assert_eq!(t.usage_records.len(), 2);
    assert!(t.usage_records.iter().all(|r| r.source == "helper" && r.interval_secs == 60 && r.ts == 1_060));
    let names: Vec<&str> = t.apps.iter().map(|a| a.process_name.as_str()).collect();
    assert_eq!(names, vec!["app.exe", "unattributed"]);
    assert_eq!(t.interfaces.len(), 1);
    assert_eq!(t.interfaces[0].guid, "{11111111-1111-1111-1111-111111111111}");
    assert_eq!(t.interfaces[0].name, "Attributed Usage (work)");
    assert_eq!(db.last_helper_ingest_ts(), 1_060);
}

#[test]
fn empty_attribution_payload_changes_nothing() {
    let mut db = Db::new();
    let response = db
        .insert_attributed_usage(&IngestAttributedUsageRequest {
            start_ts: 0,
            end_ts: 10,
            profile_name: None,
            source: Some("import".to_string()),
            samples: vec![],
        })
        .expect("ingest");
    assert_eq!((response.accepted, response.dropped), (0, 0));
    assert!(db.tables_snapshot().interfaces.is_empty());
}

#[test]
fn polled_deltas_reach_the_breakdowns() {
    let mut db = Db::new();
    let mut engine = DeltaEngine::new(1_000_000);
    let first = [ethernet(1_000, 2_000)];
    db.sync_interfaces(&first, 1_000).expect("sync");
    let d0 = engine.compute(&first, 1_000, 60, 60);
    db.insert_interface_deltas(&d0, 1_000).expect("no deltas");
    assert!(db.tables_snapshot().usage_records.is_empty());

    let second = [ethernet(1_500, 2_300)];
    db.sync_interfaces(&second, 1_060).expect("sync");
    let d1 = engine.compute(&second, 1_060, 60, 60);
    db.insert_interface_deltas(&d1, 1_060).expect("insert deltas");

    let t = db.tables_snapshot();
    assert_eq!(t.usage_records.len(), 1);
    assert_eq!(t.usage_records[0].source, "interface_poll");
    assert_eq!((t.usage_records[0].bytes_sent, t.usage_records[0].bytes_recv), (500, 300));

    let interfaces = db.query_interfaces().interfaces;
    assert_eq!(interfaces.len(), 1);
    assert_eq!(interfaces[0].guid, "{eth}");
    assert_eq!(interfaces[0].interface_type, "ethernet");
    assert!(interfaces[0].is_metered);

    let by_interface = db
        .query_interface_breakdown(&InterfaceBreakdownRequest {
            start_ts: 0,
            end_ts: 2_000,
            interface_id: None,
            interface_type: None,
        })
        .expect("interface breakdown");
    assert_eq!(by_interface.total_interfaces, 1);
    assert_eq!((by_interface.interfaces[0].bytes_sent, by_interface.interfaces[0].bytes_recv), (500, 300));

    let summary = db
        .query_usage_summary(&UsageSummaryRequest {
            start_ts: 0,
            end_ts: 2_000,
            granularity: "hour".to_string(),
            interface_id: None,
            interface_type: None,
            app_filter: None,
        })
        .expect("summary");
    assert_eq!((summary.total_sent, summary.total_recv), (500, 300));
    assert_eq!(summary.buckets.len(), 1);
    assert_eq!(summary.buckets[0].ts, 0);
}

#[test]
fn idle_readings_become_afk_windows() {
    let mut db = Db::new();
    db.capture_afk_window(10_000, 100).expect("short idle");
    assert!(db.tables_snapshot().afk_windows.is_empty());
    db.capture_afk_window(10_000, 400).expect("long idle");
    let afk = &db.tables_snapshot().afk_windows;
    assert_eq!(afk.len(), 1);
    assert_eq!((afk[0].start_ts, afk[0].end_ts), (9_900, 10_000));
    assert_eq!(afk[0].source, "last_input");
    db.capture_afk_window(10_060, 460).expect("still idle");
    let afk = &db.tables_snapshot().afk_windows;
    assert_eq!(afk.len(), 1);
    assert_eq!((afk[0].start_ts, afk[0].end_ts), (9_900, 10_060));
}

#[test]
fn settings_read_back_what_was_written() {
    let mut db = Db::new();
    db.set_import_status(5, "running", 40);
    assert_eq!(db.get_import_status(), ("running".to_string(), 40));
    db.upsert_setting("retention_days", "7", 5);
    assert_eq!(db.get_settings().retention_days, 7);
    assert_eq!(db.read_setting_string("retention_days"), Some("7".to_string()));
    assert_eq!(db.read_setting_string("missing_key"), None);
}
