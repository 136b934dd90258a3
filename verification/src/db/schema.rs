use vstd::prelude::*;

verus! {

/// The tables, indexes and checks of the store file, created where missing when it is
/// opened; opening also removes rows that repeat a usage key, keeping the smallest id.
pub const SCHEMA_V1: &'static str = r#"
CREATE TABLE IF NOT EXISTS interfaces (
    id          INTEGER PRIMARY KEY AUTOINCREMENT,
    guid        TEXT NOT NULL UNIQUE,
    name        TEXT NOT NULL,
    type        TEXT NOT NULL,
    is_metered  INTEGER NOT NULL DEFAULT 0,
    first_seen  INTEGER NOT NULL,
    last_seen   INTEGER NOT NULL
);
CREATE INDEX IF NOT EXISTS idx_interfaces_guid ON interfaces(guid);

CREATE TABLE IF NOT EXISTS apps (
    id           INTEGER PRIMARY KEY AUTOINCREMENT,
    process_name TEXT NOT NULL UNIQUE,
    display_name TEXT,
    first_seen   INTEGER NOT NULL,
    last_seen    INTEGER NOT NULL
);
CREATE INDEX IF NOT EXISTS idx_apps_process_name ON apps(process_name);

CREATE TABLE IF NOT EXISTS usage_records (
    id              INTEGER PRIMARY KEY AUTOINCREMENT,
    ts              INTEGER NOT NULL,
    app_id          INTEGER NOT NULL REFERENCES apps(id),
    interface_id    INTEGER NOT NULL REFERENCES interfaces(id),
    bytes_sent      INTEGER NOT NULL DEFAULT 0,
    bytes_recv      INTEGER NOT NULL DEFAULT 0,
    interval_secs   INTEGER NOT NULL DEFAULT 60,
    source          TEXT NOT NULL DEFAULT 'poll'
);
DELETE FROM usage_records
WHERE id NOT IN (
    SELECT MIN(id)
    FROM usage_records
    GROUP BY ts, app_id, interface_id, source
);
CREATE INDEX IF NOT EXISTS idx_usage_ts ON usage_records(ts);
CREATE INDEX IF NOT EXISTS idx_usage_app_ts ON usage_records(app_id, ts);
CREATE INDEX IF NOT EXISTS idx_usage_iface_ts ON usage_records(interface_id, ts);
CREATE UNIQUE INDEX IF NOT EXISTS idx_usage_unique
    ON usage_records(ts, app_id, interface_id, source);

CREATE TABLE IF NOT EXISTS afk_windows (
    id          INTEGER PRIMARY KEY AUTOINCREMENT,
    start_ts    INTEGER NOT NULL,
    end_ts      INTEGER NOT NULL,
    source      TEXT NOT NULL DEFAULT 'wts'
);
CREATE INDEX IF NOT EXISTS idx_afk_start ON afk_windows(start_ts);
CREATE INDEX IF NOT EXISTS idx_afk_end ON afk_windows(end_ts);

CREATE TABLE IF NOT EXISTS alert_definitions (
    id              INTEGER PRIMARY KEY AUTOINCREMENT,
    name            TEXT NOT NULL,
    alert_type      TEXT NOT NULL,
    interface_id    INTEGER REFERENCES interfaces(id),
    threshold_value REAL NOT NULL,
    cap_bytes       INTEGER,
    is_active       INTEGER NOT NULL DEFAULT 1,
    created_at      INTEGER NOT NULL
);

CREATE TABLE IF NOT EXISTS alert_events (
    id              INTEGER PRIMARY KEY AUTOINCREMENT,
    definition_id   INTEGER NOT NULL REFERENCES alert_definitions(id),
    fired_at        INTEGER NOT NULL,
    current_bytes   INTEGER NOT NULL,
    message         TEXT NOT NULL
);
CREATE INDEX IF NOT EXISTS idx_alert_events_ts ON alert_events(fired_at);

CREATE TABLE IF NOT EXISTS settings (
    key        TEXT PRIMARY KEY,
    value      TEXT NOT NULL,
    updated_at INTEGER NOT NULL
);

CREATE TABLE IF NOT EXISTS monthly_cap_definitions (
    id                INTEGER PRIMARY KEY AUTOINCREMENT,
    scope             TEXT NOT NULL,
    interface_guid    TEXT,
    monthly_cap_bytes INTEGER NOT NULL,
    is_active         INTEGER NOT NULL DEFAULT 1,
    created_at        INTEGER NOT NULL,
    updated_at        INTEGER NOT NULL,
    CHECK(scope IN ('global', 'interface')),
    CHECK(monthly_cap_bytes > 0),
    CHECK((scope = 'global' AND interface_guid IS NULL) OR (scope = 'interface' AND interface_guid IS NOT NULL))
);
CREATE UNIQUE INDEX IF NOT EXISTS idx_monthly_caps_scope_interface
    ON monthly_cap_definitions(scope, interface_guid);
CREATE INDEX IF NOT EXISTS idx_monthly_caps_active
    ON monthly_cap_definitions(is_active, scope);

CREATE TABLE IF NOT EXISTS cap_alert_events (
    id                INTEGER PRIMARY KEY AUTOINCREMENT,
    cap_definition_id INTEGER NOT NULL REFERENCES monthly_cap_definitions(id) ON DELETE CASCADE,
    scope             TEXT NOT NULL,
    interface_guid    TEXT,
    window_kind       TEXT NOT NULL,
    window_start_ts   INTEGER NOT NULL,
    window_end_ts     INTEGER NOT NULL,
    threshold_kind    TEXT NOT NULL,
    threshold_value   INTEGER NOT NULL,
    usage_bytes       INTEGER NOT NULL,
    cap_bytes         INTEGER NOT NULL,
    fired_at          INTEGER NOT NULL,
    delivery_state    TEXT NOT NULL DEFAULT 'new',
    delivered_at      INTEGER,
    CHECK(window_kind IN ('monthly', 'daily')),
    CHECK(threshold_kind IN ('pct_50', 'pct_80', 'pct_95', 'daily_cap'))
);
CREATE UNIQUE INDEX IF NOT EXISTS idx_cap_alert_events_unique
    ON cap_alert_events(cap_definition_id, window_kind, window_start_ts, threshold_kind, threshold_value);
CREATE INDEX IF NOT EXISTS idx_cap_alert_events_fired_at
    ON cap_alert_events(fired_at DESC);
CREATE INDEX IF NOT EXISTS idx_cap_alert_events_delivery
    ON cap_alert_events(delivery_state, fired_at DESC);

CREATE TABLE IF NOT EXISTS import_log (
    id               INTEGER PRIMARY KEY AUTOINCREMENT,
    started_at       INTEGER NOT NULL,
    completed_at     INTEGER,
    periods_imported INTEGER,
    status           TEXT NOT NULL
);
"#;

} // verus!
