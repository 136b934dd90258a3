use singularity_monitor::contracts::{
    AppBreakdownRequest, DeleteCapDefinitionRequest, GetAfkAuditRequest, ListCapAlertEventsRequest,
    SetSettingsRequest, UpsertCapDefinitionRequest, UsageSummaryRequest,
};
use rusqlite::Connection;
use singularity_monitor::db::schema::SCHEMA_V1;
use singularity_monitor::db::{Db, DbError, DbTables, InterfaceRow, SettingRow, UsageRow};

const TEST_ATTRIBUTION_GUID: &str = "{11111111-1111-1111-1111-111111111111}";
const TEST_ETHERNET_GUID: &str = "{22222222-2222-2222-2222-222222222222}";

fn empty_tables() -> DbTables {
    DbTables {
        settings: vec![],
        interfaces: vec![],
        apps: vec![],
        usage_records: vec![],
        afk_windows: vec![],
        caps: vec![],
        cap_events: vec![],
    }
}

/// Stores one usage row as a raw insert would: the interface and app are recorded first, the
/// row gets the next id, and the settings stay as they were.
#[allow(clippy::too_many_arguments)]
fn insert_usage(
    db: &mut Db,
    ts: i64,
    process_name: &str,
    interface_guid: &str,
    interface_name: &str,
    interface_type: u32,
    bytes_sent: u64,
    bytes_recv: u64,
    source: &str,
) {
    let interface_id = db
        .upsert_interface(interface_guid, interface_name, interface_type, Some(false), ts)
        .expect("upsert interface");
    let app_id = db.upsert_app(process_name, ts).expect("upsert app");
    let mut tables = db.tables_snapshot().clone();
    let next_id = tables.usage_records.iter().map(|r| r.id).max().unwrap_or(0) + 1;
    let before = tables.usage_records.len();
    tables.usage_records.push(UsageRow {
        id: next_id,
        ts,
        app_id,
        interface_id,
        bytes_sent: bytes_sent as i64,
        bytes_recv: bytes_recv as i64,
        interval_secs: 60,
        source: source.to_string(),
    });
    let settings: Vec<SettingRow> = tables.settings.clone();
    let mut fresh = Db::initialize(tables);
    for row in &settings {
        fresh.upsert_setting(&row.key, &row.value, row.updated_at);
    }
    assert_eq!(fresh.tables_snapshot().usage_records.len(), before + 1, "insert usage");
    *db = fresh;
}

fn usage_count(db: &Db) -> usize {
    db.tables_snapshot().usage_records.len()
}

fn afk_count(db: &Db) -> usize {
    db.tables_snapshot().afk_windows.len()
}

fn event_kinds(db: &Db) -> Vec<String> {
    let mut kinds: Vec<String> =
        db.tables_snapshot().cap_events.iter().map(|e| e.threshold_kind.clone()).collect();
    kinds.sort();
    kinds
}

fn global_cap(bytes: u64) -> UpsertCapDefinitionRequest {
    UpsertCapDefinitionRequest {
        id: None,
        scope: "global".to_string(),
        interface_guid: None,
        monthly_cap_bytes: bytes,
        is_active: true,
    }
}

fn all_events(delivery_state: Option<&str>, limit: u32) -> ListCapAlertEventsRequest {
    ListCapAlertEventsRequest {
        start_ts: None,
        end_ts: None,
        scope: None,
        interface_guid: None,
        window_kind: None,
        threshold_kind: None,
        delivery_state: delivery_state.map(|s| s.to_string()),
        limit: Some(limit),
    }
}

fn breakdown(sort_by: &str) -> AppBreakdownRequest {
    AppBreakdownRequest {
        start_ts: 0,
        end_ts: 1000,
        interface_id: None,
        interface_type: None,
        limit: Some(10),
        sort_by: Some(sort_by.to_string()),
    }
}

fn no_settings() -> SetSettingsRequest {
    SetSettingsRequest {
        poll_interval_seconds: None,
        retention_days: None,
        afk_idle_threshold_seconds: None,
        onboarding_completed: None,
        export_default_granularity: None,
        export_default_include_summary: None,
        export_default_include_apps: None,
        export_default_include_interfaces: None,
    }
}

fn open_memory_store() -> Connection {
    let conn = Connection::open_in_memory().expect("open sqlite");
    conn.execute_batch(SCHEMA_V1).expect("create schema");
    conn
}

fn read_settings(conn: &Connection) -> Vec<SettingRow> {
    conn.prepare("SELECT key, value, updated_at FROM settings ORDER BY rowid")
        .expect("prepare settings query")
        .query_map([], |row| Ok(SettingRow { key: row.get(0)?, value: row.get(1)?, updated_at: row.get(2)? }))
        .expect("query settings")
        .collect::<rusqlite::Result<Vec<_>>>()
        .expect("collect settings")
}

fn write_settings(conn: &Connection, db: &Db) {
    conn.execute("DELETE FROM settings", []).expect("clear settings");
    for row in &db.tables_snapshot().settings {
        conn.execute(
            "INSERT INTO settings(key, value, updated_at) VALUES (?1, ?2, ?3)",
            (&row.key, &row.value, row.updated_at),
        )
        .expect("write setting");
    }
}

fn table_exists(conn: &Connection, table_name: &str) -> bool {
    conn.query_row(
        "SELECT EXISTS(SELECT 1 FROM sqlite_master WHERE type = 'table' AND name = ?1)",
        (table_name,),
        |row| row.get::<_, i64>(0),
    )
    .map(|exists| exists == 1)
    .unwrap_or(false)
}

fn index_exists(conn: &Connection, index_name: &str) -> bool {
    conn.query_row(
        "SELECT EXISTS(SELECT 1 FROM sqlite_master WHERE type = 'index' AND name = ?1)",
        (index_name,),
        |row| row.get::<_, i64>(0),
    )
    .map(|exists| exists == 1)
    .unwrap_or(false)
}

fn column_exists(conn: &Connection, table_name: &str, column_name: &str) -> bool {
    let mut stmt = conn.prepare(&format!("PRAGMA table_info({table_name})")).expect("prepare table_info pragma");
    let columns = stmt
        .query_map([], |row| row.get::<_, String>(1))
        .expect("query table_info")
        .collect::<rusqlite::Result<Vec<_>>>()
        .expect("collect table columns");
    columns.iter().any(|column| column.eq_ignore_ascii_case(column_name))
}

fn store_bytes(conn: &Connection) -> u64 {
    let pages: i64 = conn.query_row("PRAGMA page_count", [], |row| row.get(0)).expect("page count");
    let size: i64 = conn.query_row("PRAGMA page_size", [], |row| row.get(0)).expect("page size");
    (pages * size) as u64
}

#[test]
fn initialize_is_idempotent_on_existing_database() {
    let conn = open_memory_store();
    let mut tables = empty_tables();
    tables.settings = read_settings(&conn);
    let first = Db::initialize(tables);
    write_settings(&conn, &first);

    conn.execute_batch(SCHEMA_V1).expect("create schema again");
    let mut tables = empty_tables();
    tables.settings = read_settings(&conn);
    let second = Db::initialize(tables);

    let first_settings = first.get_settings();
    let second_settings = second.get_settings();
    assert_eq!(first_settings.poll_interval_seconds, second_settings.poll_interval_seconds);
    assert_eq!(first_settings.retention_days, second_settings.retention_days);
    assert!(table_exists(&conn, "usage_records"));
    assert!(table_exists(&conn, "cap_alert_events"));
}

#[test]
fn initialize_backfills_missing_tables_and_retention_defaults() {
    let conn = Connection::open_in_memory().expect("open raw sqlite db");
    conn.execute_batch(
        "
        CREATE TABLE settings (
            key         TEXT PRIMARY KEY,
            value       TEXT NOT NULL,
            updated_at  INTEGER NOT NULL
        );
        INSERT INTO settings(key, value, updated_at)
        VALUES('poll_interval_seconds', '90', 123);
        ",
    )
    .expect("seed partial schema");
    conn.execute_batch(SCHEMA_V1).expect("initialize db with partial schema");

    let mut tables = empty_tables();
    tables.settings = read_settings(&conn);
    let db = Db::initialize(tables);
    assert_eq!(db.get_settings().poll_interval_seconds, 60);
    assert_eq!(db.get_retention_cleanup_status().last_result, "never");

    assert!(table_exists(&conn, "usage_records"));
    assert!(table_exists(&conn, "afk_windows"));
    assert!(table_exists(&conn, "cap_alert_events"));
}

#[test]
fn schema_contains_required_tables_columns_and_indexes() {
    let conn = open_memory_store();

    assert!(table_exists(&conn, "settings"));
    assert!(table_exists(&conn, "usage_records"));
    assert!(table_exists(&conn, "monthly_cap_definitions"));
    assert!(table_exists(&conn, "cap_alert_events"));
    assert!(table_exists(&conn, "afk_windows"));

    assert!(column_exists(&conn, "monthly_cap_definitions", "monthly_cap_bytes"));
    assert!(column_exists(&conn, "cap_alert_events", "delivery_state"));
    assert!(column_exists(&conn, "cap_alert_events", "delivered_at"));
    assert!(column_exists(&conn, "usage_records", "source"));

    assert!(index_exists(&conn, "idx_usage_unique"));
    assert!(index_exists(&conn, "idx_monthly_caps_scope_interface"));
    assert!(index_exists(&conn, "idx_cap_alert_events_unique"));
    assert!(index_exists(&conn, "idx_cap_alert_events_delivery"));
    assert!(index_exists(&conn, "idx_afk_start"));
}

#[test]
fn compact_database_returns_consistent_metrics_and_keeps_db_usable() {
    let mut db = Db::new();
    let now_ts = 1_700_000_000;
    for offset in 0..200 {
        insert_usage(&mut db, now_ts + offset, "compact-sample.exe", TEST_ETHERNET_GUID, "Ethernet", 6, 1000, 500, "interface_poll");
    }

    let conn = open_memory_store();
    conn.execute_batch(
        "INSERT INTO apps(id, process_name, first_seen, last_seen) VALUES (1, 'compact-sample.exe', 0, 0);
         INSERT INTO interfaces(id, guid, name, type, first_seen, last_seen) VALUES (1, 'g', 'Ethernet', 'ethernet', 0, 0);",
    )
    .expect("seed rows");
    for row in &db.tables_snapshot().usage_records {
        conn.execute(
            "INSERT INTO usage_records(id, ts, app_id, interface_id, bytes_sent, bytes_recv, interval_secs, source)
             VALUES (?1, ?2, 1, 1, ?3, ?4, ?5, ?6)",
            (row.id, row.ts, row.bytes_sent, row.bytes_recv, row.interval_secs, &row.source),
        )
        .expect("write usage row");
    }

    let before = store_bytes(&conn);
    let started = std::time::Instant::now();
    conn.execute_batch("VACUUM;").expect("compact database");
    let after = store_bytes(&conn);
    let result = Db::compact_database(before, after, started.elapsed().as_millis());
    assert_eq!(result.reclaimed_bytes, result.before_bytes.saturating_sub(result.after_bytes));
    assert!(result.duration_ms > 0 || result.before_bytes == result.after_bytes);

    assert_eq!(db.get_import_status().0, "idle");
    assert_eq!(usage_count(&db), 200);
}

#[test]
fn app_breakdown_prefers_helper_after_cutover() {
    let mut db = Db::new();
    let app = "sm_overlap_case.exe";
    insert_usage(&mut db, 100, app, TEST_ATTRIBUTION_GUID, "Attributed Usage", 0, 100, 50, "import");
    insert_usage(&mut db, 300, app, TEST_ATTRIBUTION_GUID, "Attributed Usage", 0, 400, 100, "import");
    insert_usage(&mut db, 300, app, TEST_ATTRIBUTION_GUID, "Attributed Usage", 0, 40, 10, "helper");

    let response = db.query_app_breakdown(&breakdown("total_bytes_desc")).expect("query app breakdown");
    let app_row = response.apps.iter().find(|row| row.process_name == app).expect("missing app row");
    assert_eq!(app_row.bytes_sent, 140);
    assert_eq!(app_row.bytes_recv, 60);
}

#[test]
fn app_breakdown_respects_sort_modes_and_stable_tiebreakers() {
    let mut db = Db::new();
    let ts = 200;
    insert_usage(&mut db, ts, "zeta.exe", TEST_ATTRIBUTION_GUID, "Attributed Usage", 0, 50, 50, "helper");
    insert_usage(&mut db, ts, "alpha.exe", TEST_ATTRIBUTION_GUID, "Attributed Usage", 0, 50, 50, "helper");
    insert_usage(&mut db, ts, "beta.exe", TEST_ATTRIBUTION_GUID, "Attributed Usage", 0, 70, 30, "helper");
    insert_usage(&mut db, ts, "gamma.exe", TEST_ATTRIBUTION_GUID, "Attributed Usage", 0, 30, 70, "helper");

    let names = |sort: &str| -> Vec<String> {
        db.query_app_breakdown(&breakdown(sort))
            .expect("query app breakdown")
            .apps
            .iter()
            .map(|row| row.process_name.clone())
            .collect()
    };
    assert_eq!(names("total_bytes_desc"), vec!["beta.exe", "alpha.exe", "zeta.exe", "gamma.exe"]);
    assert_eq!(names("bytes_sent_desc"), vec!["beta.exe", "alpha.exe", "zeta.exe", "gamma.exe"]);
    assert_eq!(names("bytes_recv_desc"), vec!["gamma.exe", "alpha.exe", "zeta.exe", "beta.exe"]);
    assert_eq!(names("display_name_asc"), vec!["alpha.exe", "beta.exe", "gamma.exe", "zeta.exe"]);
}

#[test]
fn usage_summary_with_app_filter_prefers_helper_after_cutover() {
    let mut db = Db::new();
    let app = "sm_summary_case.exe";
    insert_usage(&mut db, 100, app, TEST_ATTRIBUTION_GUID, "Attributed Usage", 0, 200, 100, "import");
    insert_usage(&mut db, 300, app, TEST_ATTRIBUTION_GUID, "Attributed Usage", 0, 600, 200, "import");
    insert_usage(&mut db, 300, app, TEST_ATTRIBUTION_GUID, "Attributed Usage", 0, 60, 20, "helper");

    let response = db
        .query_usage_summary(&UsageSummaryRequest {
            start_ts: 0,
            end_ts: 1000,
            granularity: "hour".to_string(),
            interface_id: Some(TEST_ATTRIBUTION_GUID.to_string()),
            interface_type: None,
            app_filter: Some(app.to_string()),
        })
        .expect("query usage summary");
    assert_eq!(response.total_sent, 260);
    assert_eq!(response.total_recv, 120);
}

#[test]
fn usage_summary_without_app_filter_prefers_poll_after_cutover() {
    let mut db = Db::new();
    insert_usage(&mut db, 100, "legacy-import.exe", TEST_ATTRIBUTION_GUID, "Attributed Usage", 0, 80, 20, "import");
    insert_usage(&mut db, 300, "overlap-import.exe", TEST_ATTRIBUTION_GUID, "Attributed Usage", 0, 500, 300, "import");
    insert_usage(&mut db, 250, "System", TEST_ETHERNET_GUID, "Ethernet", 6, 1000, 1000, "interface_poll");

    let response = db
        .query_usage_summary(&UsageSummaryRequest {
            start_ts: 0,
            end_ts: 1000,
            granularity: "hour".to_string(),
            interface_id: Some(TEST_ATTRIBUTION_GUID.to_string()),
            interface_type: None,
            app_filter: None,
        })
        .expect("query usage summary");
    assert_eq!(response.total_sent, 80);
    assert_eq!(response.total_recv, 20);
}

#[test]
fn upsert_and_list_cap_definitions_support_global_and_interface_scopes() {
    let mut db = Db::new();
    let ts = 1_700_000_000;
    db.upsert_cap_definition(ts, &global_cap(100 * 1024 * 1024)).expect("upsert global cap");
    db.upsert_cap_definition(
        ts,
        &UpsertCapDefinitionRequest {
            id: None,
            scope: "interface".to_string(),
            interface_guid: Some(TEST_ETHERNET_GUID.to_string()),
            monthly_cap_bytes: 200 * 1024 * 1024,
            is_active: false,
        },
    )
    .expect("upsert interface cap");

    let caps = db.list_cap_definitions().caps;
    assert_eq!(caps.len(), 2);
    assert!(caps.iter().any(|cap| cap.scope == "global" && cap.interface_guid.is_none()));
    assert!(caps.iter().any(|cap| {
        cap.scope == "interface" && cap.interface_guid.as_deref() == Some(TEST_ETHERNET_GUID) && !cap.is_active
    }));
}

#[test]
fn delete_cap_definition_reports_deleted_row() {
    let mut db = Db::new();
    let created = db.upsert_cap_definition(1_700_000_000, &global_cap(300 * 1024 * 1024)).expect("create cap").cap;
    let deleted = db.delete_cap_definition(&DeleteCapDefinitionRequest { id: created.id });
    assert!(deleted.deleted);
    assert!(db.list_cap_definitions().caps.is_empty());
    let again = db.delete_cap_definition(&DeleteCapDefinitionRequest { id: created.id });
    assert!(!again.deleted);
}

#[test]
fn evaluate_cap_alerts_inserts_thresholds_once_per_window() {
    let mut db = Db::new();
    let now_ts = 1_700_000_000;
    db.upsert_cap_definition(now_ts, &global_cap(1000)).expect("create global cap");
    insert_usage(&mut db, now_ts - 60, "cap-threshold-app.exe", TEST_ETHERNET_GUID, "Ethernet", 6, 400, 200, "interface_poll");

    assert_eq!(db.evaluate_cap_alerts(now_ts).expect("evaluate alerts first"), 2);
    assert_eq!(db.evaluate_cap_alerts(now_ts + 30).expect("evaluate alerts second"), 0);
    assert_eq!(db.tables_snapshot().cap_events.len(), 2);
    assert_eq!(event_kinds(&db), vec!["daily_cap".to_string(), "pct_50".to_string()]);
}

#[test]
fn evaluate_cap_alerts_progressively_fires_higher_monthly_thresholds() {
    let mut db = Db::new();
    let now_ts = 1_700_000_000;
    db.upsert_cap_definition(now_ts, &global_cap(1000)).expect("create global cap");

    insert_usage(&mut db, now_ts - 120, "cap-progress-app.exe", TEST_ETHERNET_GUID, "Ethernet", 6, 500, 100, "interface_poll");
    assert_eq!(db.evaluate_cap_alerts(now_ts).expect("evaluate initial thresholds"), 2);

    insert_usage(&mut db, now_ts - 30, "cap-progress-app.exe", TEST_ETHERNET_GUID, "Ethernet", 6, 200, 100, "interface_poll");
    assert_eq!(db.evaluate_cap_alerts(now_ts + 30).expect("evaluate 80 threshold"), 1);

    insert_usage(&mut db, now_ts + 15, "cap-progress-app.exe", TEST_ETHERNET_GUID, "Ethernet", 6, 60, 0, "interface_poll");
    assert_eq!(db.evaluate_cap_alerts(now_ts + 60).expect("evaluate 95 threshold"), 1);

    let kinds = event_kinds(&db);
    assert_eq!(kinds.iter().filter(|k| k.as_str() == "pct_80").count(), 1);
    assert_eq!(kinds.iter().filter(|k| k.as_str() == "pct_95").count(), 1);
    assert_eq!(kinds.len(), 4);
}

#[test]
fn list_cap_alert_events_orders_desc_and_respects_limit() {
    let mut db = Db::new();
    let now_ts = 1_700_000_000;
    db.upsert_cap_definition(now_ts, &global_cap(1000)).expect("create global cap");

    insert_usage(&mut db, now_ts - 120, "history-order-app.exe", TEST_ETHERNET_GUID, "Ethernet", 6, 500, 100, "interface_poll");
    db.evaluate_cap_alerts(now_ts).expect("evaluate first thresholds");
    insert_usage(&mut db, now_ts - 10, "history-order-app.exe", TEST_ETHERNET_GUID, "Ethernet", 6, 200, 100, "interface_poll");
    db.evaluate_cap_alerts(now_ts + 60).expect("evaluate second thresholds");

    let response = db.list_cap_alert_events(&all_events(None, 2));
    assert_eq!(response.events.len(), 2);
    assert!(response.events[0].fired_at >= response.events[1].fired_at);
    assert_eq!(response.events[0].threshold_kind, "pct_80");
}

#[test]
fn list_cap_alert_events_filters_by_scope_and_threshold_kind() {
    let mut db = Db::new();
    let now_ts = 1_700_000_000;
    db.upsert_cap_definition(now_ts, &global_cap(1000)).expect("create global cap");
    db.upsert_cap_definition(
        now_ts,
        &UpsertCapDefinitionRequest {
            id: None,
            scope: "interface".to_string(),
            interface_guid: Some(TEST_ETHERNET_GUID.to_string()),
            monthly_cap_bytes: 1000,
            is_active: true,
        },
    )
    .expect("create interface cap");

    insert_usage(&mut db, now_ts - 60, "history-filter-app.exe", TEST_ETHERNET_GUID, "Ethernet", 6, 500, 100, "interface_poll");
    db.evaluate_cap_alerts(now_ts).expect("evaluate thresholds");

    let response = db.list_cap_alert_events(&ListCapAlertEventsRequest {
        start_ts: None,
        end_ts: None,
        scope: Some("interface".to_string()),
        interface_guid: Some(TEST_ETHERNET_GUID.to_string()),
        window_kind: None,
        threshold_kind: Some("pct_50".to_string()),
        delivery_state: None,
        limit: Some(10),
    });
    assert_eq!(response.events.len(), 1);
    let event = &response.events[0];
    assert_eq!(event.scope, "interface");
    assert_eq!(event.interface_guid.as_deref(), Some(TEST_ETHERNET_GUID));
    assert_eq!(event.threshold_kind, "pct_50");
}

#[test]
fn mark_cap_alert_events_delivered_is_idempotent_and_filterable() {
    let mut db = Db::new();
    let now_ts = 1_700_000_000;
    db.upsert_cap_definition(now_ts, &global_cap(1000)).expect("create cap");
    insert_usage(&mut db, now_ts - 120, "delivery-state-app.exe", TEST_ETHERNET_GUID, "Ethernet", 6, 500, 100, "interface_poll");
    db.evaluate_cap_alerts(now_ts).expect("evaluate thresholds");

    let pending = db.list_cap_alert_events(&all_events(Some("new"), 10));
    assert_eq!(pending.events.len(), 2);

    let ids = pending.events.iter().map(|event| event.id).collect::<Vec<_>>();
    assert_eq!(db.mark_cap_alert_events_delivered(&ids, now_ts + 10).updated, 2);
    assert_eq!(db.mark_cap_alert_events_delivered(&ids, now_ts + 20).updated, 0);

    assert!(db.list_cap_alert_events(&all_events(Some("new"), 10)).events.is_empty());
    let delivered = db.list_cap_alert_events(&all_events(Some("delivered"), 10));
    assert_eq!(delivered.events.len(), 2);
    assert!(delivered.events.iter().all(|event| event.delivered_at == Some(now_ts + 10)));
}

#[test]
fn retention_cleanup_skips_when_unlimited() {
    let mut db = Db::new();
    let now_ts = 1_700_000_000;
    insert_usage(&mut db, now_ts - 1_000_000, "retention-unlimited.exe", TEST_ETHERNET_GUID, "Ethernet", 6, 100, 20, "interface_poll");
    db.upsert_afk_window(now_ts - 1_000_100, now_ts - 1_000_000, "last_input").expect("insert old afk window");

    db.run_retention_cleanup_if_due(now_ts);

    assert_eq!(usage_count(&db), 1);
    assert_eq!(afk_count(&db), 1);
    let status = db.get_retention_cleanup_status();
    assert_eq!(status.last_result, "skipped_unlimited");
    assert_eq!(status.deleted_usage_records, 0);
    assert_eq!(status.deleted_afk_windows, 0);
    assert!(status.last_run_ts > 0);
}

#[test]
fn retention_cleanup_deletes_old_rows_and_runs_once_per_day() {
    let mut db = Db::new();
    let now_ts: i64 = 1_700_000_000;
    let mut settings = no_settings();
    settings.retention_days = Some(1);
    db.apply_settings(now_ts, &settings);

    let day_start = now_ts - now_ts.rem_euclid(86_400);
    let cutoff_ts = day_start.saturating_sub(24 * 3600);

    insert_usage(&mut db, cutoff_ts - 1, "retention-old.exe", TEST_ETHERNET_GUID, "Ethernet", 6, 100, 10, "interface_poll");
    insert_usage(&mut db, cutoff_ts, "retention-boundary.exe", TEST_ETHERNET_GUID, "Ethernet", 6, 100, 10, "interface_poll");
    insert_usage(&mut db, cutoff_ts + 1, "retention-new.exe", TEST_ETHERNET_GUID, "Ethernet", 6, 100, 10, "interface_poll");
    db.upsert_afk_window(cutoff_ts - 300, cutoff_ts - 200, "last_input").expect("insert old afk window");
    db.upsert_afk_window(cutoff_ts, cutoff_ts + 10, "last_input").expect("insert boundary afk window");
    db.upsert_afk_window(cutoff_ts + 200, cutoff_ts + 260, "last_input").expect("insert new afk window");

    db.run_retention_cleanup_if_due(now_ts);
    assert_eq!(usage_count(&db), 2);
    assert_eq!(afk_count(&db), 2);

    let first_status = db.get_retention_cleanup_status();
    assert_eq!(first_status.last_result, "ok");
    assert_eq!(first_status.cutoff_ts, cutoff_ts);
    assert_eq!(first_status.deleted_usage_records, 1);
    assert_eq!(first_status.deleted_afk_windows, 1);

    insert_usage(&mut db, cutoff_ts - 2, "retention-old-second.exe", TEST_ETHERNET_GUID, "Ethernet", 6, 100, 10, "interface_poll");
    db.upsert_afk_window(cutoff_ts - 900, cutoff_ts - 850, "last_input").expect("insert second old afk window");

    db.run_retention_cleanup_if_due(now_ts + 60);
    assert_eq!(usage_count(&db), 3);
    assert_eq!(afk_count(&db), 3);

    let second_status = db.get_retention_cleanup_status();
    assert_eq!(second_status.last_run_ts, first_status.last_run_ts);
    assert_eq!(second_status.deleted_usage_records, first_status.deleted_usage_records);
    assert_eq!(second_status.deleted_afk_windows, first_status.deleted_afk_windows);
}

#[test]
fn reliability_status_tracks_starts_clean_exits_and_errors() {
    let mut db = Db::new();
    let now_ts = 1_700_000_000;

    db.mark_daemon_start(now_ts);
    db.record_daemon_error(now_ts + 5, "init", "startup issue");
    db.increment_poll_error_count(now_ts + 10, "poll issue");
    db.increment_ipc_error_count(now_ts + 15, "ipc issue");

    let mid_status = db.get_reliability_status();
    assert_eq!(mid_status.daemon_start_count, 1);
    assert_eq!(mid_status.daemon_unexpected_exit_count, 0);
    assert_eq!(mid_status.poll_error_count, 1);
    assert_eq!(mid_status.ipc_error_count, 1);
    assert_eq!(mid_status.daemon_last_error_stage, "ipc");
    assert_eq!(mid_status.daemon_last_error_message, "ipc issue");

    db.mark_daemon_start(now_ts + 30);
    db.mark_daemon_clean_exit(now_ts + 60);

    let final_status = db.get_reliability_status();
    assert_eq!(final_status.daemon_start_count, 2);
    assert_eq!(final_status.daemon_clean_exit_count, 1);
    assert_eq!(final_status.daemon_unexpected_exit_count, 1);
    assert_eq!(final_status.daemon_last_start_ts, now_ts + 30);
    assert_eq!(final_status.daemon_last_exit_ts, now_ts + 60);
}

#[test]
fn upsert_afk_window_merges_contiguous_ranges() {
    let mut db = Db::new();
    db.upsert_afk_window(100, 130, "last_input").expect("insert first afk window");
    db.upsert_afk_window(131, 170, "last_input").expect("merge contiguous afk window");
    assert_eq!(afk_count(&db), 1);
    let row = &db.tables_snapshot().afk_windows[0];
    assert_eq!((row.start_ts, row.end_ts), (100, 170));
}

#[test]
fn afk_audit_includes_duration_totals_and_top_apps() {
    let mut db = Db::new();
    let afk_start = 1_000;
    let afk_end = 1_060;
    db.upsert_afk_window(afk_start, afk_end, "last_input").expect("insert afk window");
    insert_usage(&mut db, 1_010, "sm_afk_a.exe", TEST_ATTRIBUTION_GUID, "Attributed Usage", 0, 100, 40, "import");
    insert_usage(&mut db, 1_040, "sm_afk_b.exe", TEST_ATTRIBUTION_GUID, "Attributed Usage", 0, 200, 60, "helper");

    let response = db
        .query_afk_audit(&GetAfkAuditRequest { start_ts: None, end_ts: None, limit: Some(100) })
        .expect("query afk audit");
    assert_eq!(response.afk_windows.len(), 1);
    let window = &response.afk_windows[0];
    assert_eq!(window.start_ts, afk_start);
    assert_eq!(window.end_ts, afk_end);
    assert_eq!(window.duration_seconds, 60);
    assert_eq!(window.bytes_sent, 300);
    assert_eq!(window.bytes_recv, 100);
    assert_eq!(window.top_apps.len(), 2);
}

#[test]
fn afk_audit_respects_time_range_filters() {
    let mut db = Db::new();
    db.upsert_afk_window(1_000, 1_030, "last_input").expect("insert first afk window");
    db.upsert_afk_window(2_000, 2_030, "last_input").expect("insert second afk window");
    let filtered = db
        .query_afk_audit(&GetAfkAuditRequest { start_ts: Some(1_900), end_ts: Some(2_100), limit: Some(100) })
        .expect("query filtered afk windows");
    assert_eq!(filtered.afk_windows.len(), 1);
    assert_eq!(filtered.afk_windows[0].start_ts, 2_000);
    assert_eq!(filtered.afk_windows[0].end_ts, 2_030);
}

#[test]
fn store_errors_are_reported() {
    let mut db = Db::new();
    let iface = |guid: &str| UpsertCapDefinitionRequest {
        id: None,
        scope: "interface".to_string(),
        interface_guid: Some(guid.to_string()),
        monthly_cap_bytes: 10,
        is_active: true,
    };
    db.upsert_cap_definition(1, &iface("{a}")).expect("first cap");
    let second = db.upsert_cap_definition(1, &iface("{b}")).expect("second cap").cap;
    let mut clash = iface("{a}");
    clash.id = Some(second.id);
    assert_eq!(db.upsert_cap_definition(2, &clash).err(), Some(DbError::UniqueConstraint));
    assert_eq!(db.list_cap_definitions().caps.len(), 2);

    let mut tables = empty_tables();
    tables.interfaces.push(InterfaceRow {
        id: i64::MAX,
        guid: "{full}".to_string(),
        name: "Full".to_string(),
        kind: "other".to_string(),
        is_metered: false,
        first_seen: 1,
        last_seen: 1,
    });
    let mut full = Db::initialize(tables);
    assert_eq!(full.upsert_interface("{new}", "New", 6, None, 5).err(), Some(DbError::IdSpaceExhausted));
    assert_eq!(full.upsert_interface("{full}", "Renamed", 6, None, 5), Ok(i64::MAX));

    let mut big = Db::new();
    insert_usage(&mut big, 10, "a.exe", TEST_ETHERNET_GUID, "Ethernet", 6, i64::MAX as u64, 1, "interface_poll");
    insert_usage(&mut big, 20, "b.exe", TEST_ETHERNET_GUID, "Ethernet", 6, i64::MAX as u64, 1, "interface_poll");
    let summary = big.query_usage_summary(&UsageSummaryRequest {
        start_ts: 0,
        end_ts: 100,
        granularity: "hour".to_string(),
        interface_id: None,
        interface_type: None,
        app_filter: None,
    });
    assert_eq!(summary.err(), Some(DbError::IntegerOverflow));
}

#[test]
fn a_second_global_cap_updates_the_first() {
    let mut db = Db::new();
    let first = db.upsert_cap_definition(1, &global_cap(1000)).expect("first global cap").cap;
    let second = db.upsert_cap_definition(2, &global_cap(2000)).expect("second global cap").cap;
    assert_eq!(second.id, first.id);
    assert_eq!(second.monthly_cap_bytes, 2000);
    assert_eq!(second.updated_at, 2);
    assert_eq!(second.created_at, 1);
    let caps = db.list_cap_definitions().caps;
    assert_eq!(caps.iter().filter(|c| c.scope == "global").count(), 1);
}

#[test]
fn reliability_counters_survive_reopening() {
    let mut db = Db::new();
    db.mark_daemon_start(1_700_000_000);
    db.record_daemon_error(1_700_000_005, "init", "boom");
    let mut tables = db.tables_snapshot().clone();
    tables.settings.iter_mut().for_each(|row| {
        if row.key == "poll_interval_seconds" {
            row.value = "90".to_string();
        }
    });
    let reopened = Db::initialize(tables);
    let status = reopened.get_reliability_status();
    assert_eq!(status.daemon_start_count, 1);
    assert_eq!(status.daemon_last_start_ts, 1_700_000_000);
    assert_eq!(status.daemon_last_error_stage, "init");
    assert_eq!(reopened.get_settings().poll_interval_seconds, 60);

    let mut again = reopened;
    again.mark_daemon_start(1_700_000_100);
    let status = again.get_reliability_status();
    assert_eq!(status.daemon_start_count, 2);
    assert_eq!(status.daemon_unexpected_exit_count, 1);
}

#[test]
fn written_settings_carry_their_time() {
    let mut db = Db::new();
    let mut req = no_settings();
    req.retention_days = Some(7);
    db.apply_settings(555, &req);
    let stamp = |db: &Db, key: &str| db.tables_snapshot().settings.iter().find(|r| r.key == key).map(|r| r.updated_at);
    assert_eq!(stamp(&db, "retention_days"), Some(555));
    assert_eq!(stamp(&db, "poll_interval_seconds"), Some(0));
    db.set_import_status(600, "running", 5);
    assert_eq!(stamp(&db, "import_status"), Some(600));
    db.mark_daemon_clean_exit(700);
    assert_eq!(stamp(&db, "daemon_reliability_clean_exit_count"), Some(700));
    db.run_retention_cleanup_if_due(1_700_000_000);
    assert_eq!(stamp(&db, "retention_cleanup_last_run_ts"), Some(1_700_000_000));
}

#[test]
fn reopened_store_hands_out_the_next_ids() {
    let mut db = Db::new();
    db.upsert_cap_definition(1, &global_cap(1000)).expect("cap");
    db.upsert_afk_window(100, 130, "last_input").expect("afk");
    let reopened_tables = db.tables_snapshot().clone();
    let mut reopened = Db::initialize(reopened_tables);
    let cap = reopened
        .upsert_cap_definition(
            2,
            &UpsertCapDefinitionRequest {
                id: None,
                scope: "interface".to_string(),
                interface_guid: Some("{x}".to_string()),
                monthly_cap_bytes: 5,
                is_active: true,
            },
        )
        .expect("second cap")
        .cap;
    assert_eq!(cap.id, 2);
    reopened.upsert_afk_window(500, 530, "last_input").expect("second afk");
    assert_eq!(reopened.tables_snapshot().afk_windows[1].id, 2);
}

#[test]
fn ids_of_deleted_rows_are_not_handed_out_again() {
    let mut db = Db::new();
    let first = db.upsert_cap_definition(1, &global_cap(1000)).expect("cap").cap;
    assert!(db.delete_cap_definition(&DeleteCapDefinitionRequest { id: first.id }).deleted);
    let floors = db.id_floors();
    assert_eq!(floors.caps, first.id);
    let mut reopened = Db::open(db.tables_snapshot().clone(), &floors);
    let next = reopened.upsert_cap_definition(2, &global_cap(2000)).expect("cap again").cap;
    assert_eq!(next.id, first.id + 1);
    let mut fresh = Db::initialize(db.tables_snapshot().clone());
    let reused = fresh.upsert_cap_definition(2, &global_cap(2000)).expect("cap again").cap;
    assert_eq!(reused.id, first.id);
}

#[test]
fn afk_windows_merge_into_one_covering_range() {
    let mut db = Db::new();
    db.upsert_afk_window(100, 130, "last_input").expect("first");
    db.upsert_afk_window(200, 210, "last_input").expect("second");
    db.upsert_afk_window(400, 410, "last_input").expect("third");
    db.upsert_afk_window(131, 199, "last_input").expect("bridge");
    let rows: Vec<(i64, i64)> = db.tables_snapshot().afk_windows.iter().map(|w| (w.start_ts, w.end_ts)).collect();
    assert_eq!(rows, vec![(100, 210), (400, 410)]);
}

#[test]
fn onboarding_and_import_state_survive_reopening() {
    let mut db = Db::new();
    let mut req = no_settings();
    req.onboarding_completed = Some(true);
    req.retention_days = Some(30);
    db.apply_settings(10, &req);
    db.set_import_status(11, "complete", 100);
    let reopened = Db::initialize(db.tables_snapshot().clone());
    let settings = reopened.get_settings();
    assert!(settings.onboarding_completed);
    assert_eq!(settings.retention_days, 0);
    assert_eq!(reopened.get_import_status(), ("complete".to_string(), 100));
}

#[test]
fn afk_windows_apart_from_a_new_range_stay_as_they_were() {
    let mut db = Db::new();
    db.upsert_afk_window(100, 130, "last_input").expect("first");
    db.upsert_afk_window(500, 530, "wts").expect("second");
    let before = db.tables_snapshot().afk_windows[1].clone();
    db.upsert_afk_window(125, 140, "last_input").expect("merge");
    let after = &db.tables_snapshot().afk_windows;
    assert_eq!(after.len(), 2);
    assert_eq!((after[0].start_ts, after[0].end_ts), (100, 140));
    assert_eq!((after[1].id, after[1].start_ts, after[1].end_ts, after[1].source.as_str()), (before.id, before.start_ts, before.end_ts, before.source.as_str()));
}
