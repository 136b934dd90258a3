use vstd::prelude::*;

verus! {

pub const METHOD_GET_USAGE_SUMMARY: &'static str = "GET_USAGE_SUMMARY";
pub const METHOD_GET_APP_BREAKDOWN: &'static str = "GET_APP_BREAKDOWN";
pub const METHOD_GET_DAEMON_STATUS: &'static str = "GET_DAEMON_STATUS";
pub const METHOD_SET_SETTINGS: &'static str = "SET_SETTINGS";
pub const METHOD_GET_SETTINGS: &'static str = "GET_SETTINGS";
pub const METHOD_GET_AFK_AUDIT: &'static str = "GET_AFK_AUDIT";
pub const METHOD_UPSERT_AFK_WINDOW: &'static str = "UPSERT_AFK_WINDOW";
pub const METHOD_SUBSCRIBE_EVENTS: &'static str = "SUBSCRIBE_EVENTS";
pub const METHOD_INGEST_ATTRIBUTED_USAGE: &'static str = "INGEST_ATTRIBUTED_USAGE";
pub const METHOD_SET_IMPORT_STATUS: &'static str = "SET_IMPORT_STATUS";
pub const METHOD_GET_INTERFACES: &'static str = "GET_INTERFACES";
pub const METHOD_GET_INTERFACE_BREAKDOWN: &'static str = "GET_INTERFACE_BREAKDOWN";
pub const METHOD_LIST_CAP_DEFINITIONS: &'static str = "LIST_CAP_DEFINITIONS";
pub const METHOD_UPSERT_CAP_DEFINITION: &'static str = "UPSERT_CAP_DEFINITION";
pub const METHOD_DELETE_CAP_DEFINITION: &'static str = "DELETE_CAP_DEFINITION";
pub const METHOD_LIST_CAP_ALERT_EVENTS: &'static str = "LIST_CAP_ALERT_EVENTS";
pub const METHOD_MARK_CAP_ALERT_EVENTS_DELIVERED: &'static str = "MARK_CAP_ALERT_EVENTS_DELIVERED";
pub const METHOD_COMPACT_DATABASE: &'static str = "COMPACT_DATABASE";

#[derive(Debug, Clone, Copy, PartialEq, Eq, Structural)]
pub enum MessageType {
    Request,
    Response,
    Event,
}

#[derive(Debug, Clone)]
pub struct IpcError {
    pub code: i32,
    pub message: String,
}

#[derive(Debug, Clone)]
pub struct TimeRangeRequest {
    pub start_ts: i64,
    pub end_ts: i64,
}

#[derive(Debug, Clone)]
pub struct UsageSummaryRequest {
    pub start_ts: i64,
    pub end_ts: i64,
    pub granularity: String,
    pub interface_id: Option<String>,
    pub interface_type: Option<String>,
    pub app_filter: Option<String>,
}

#[derive(Debug, Clone)]
pub struct UsageBucket {
    pub ts: i64,
    pub bytes_sent: u64,
    pub bytes_recv: u64,
    pub interface_id: Option<String>,
}

#[derive(Debug, Clone)]
pub struct UsageSummaryResponse {
    pub buckets: Vec<UsageBucket>,
    pub total_sent: u64,
    pub total_recv: u64,
}

#[derive(Debug, Clone)]
pub struct AppBreakdownRequest {
    pub start_ts: i64,
    pub end_ts: i64,
    pub interface_id: Option<String>,
    pub interface_type: Option<String>,
    pub limit: Option<u32>,
    pub sort_by: Option<String>,
}

#[derive(Debug, Clone)]
pub struct AppUsageRow {
    pub process_name: String,
    pub display_name: String,
    pub bytes_sent: u64,
    pub bytes_recv: u64,
    pub last_seen_ts: i64,
}

#[derive(Debug, Clone)]
pub struct AppBreakdownResponse {
    pub apps: Vec<AppUsageRow>,
    pub total_apps: u32,
}

#[derive(Debug, Clone)]
pub struct InterfaceInfo {
    pub guid: String,
    pub name: String,
    pub interface_type: String,
    pub is_metered: bool,
}

#[derive(Debug, Clone)]
pub struct GetInterfacesResponse {
    pub interfaces: Vec<InterfaceInfo>,
}

#[derive(Debug, Clone)]
pub struct InterfaceBreakdownRequest {
    pub start_ts: i64,
    pub end_ts: i64,
    pub interface_id: Option<String>,
    pub interface_type: Option<String>,
}

#[derive(Debug, Clone)]
pub struct InterfaceUsageRow {
    pub interface_id: String,
    pub interface_name: String,
    pub interface_type: String,
    pub is_metered: bool,
    pub bytes_sent: u64,
    pub bytes_recv: u64,
}

#[derive(Debug, Clone)]
pub struct InterfaceBreakdownResponse {
    pub interfaces: Vec<InterfaceUsageRow>,
    pub total_interfaces: u32,
}

#[derive(Debug, Clone)]
pub struct CapDefinition {
    pub id: i64,
    pub scope: String,
    pub interface_guid: Option<String>,
    pub monthly_cap_bytes: u64,
    pub is_active: bool,
    pub created_at: i64,
    pub updated_at: i64,
}

#[derive(Debug, Clone)]
pub struct ListCapDefinitionsResponse {
    pub caps: Vec<CapDefinition>,
}

#[derive(Debug, Clone)]
pub struct UpsertCapDefinitionRequest {
    pub id: Option<i64>,
    pub scope: String,
    pub interface_guid: Option<String>,
    pub monthly_cap_bytes: u64,
    pub is_active: bool,
}

#[derive(Debug, Clone)]
pub struct UpsertCapDefinitionResponse {
    pub cap: CapDefinition,
}

#[derive(Debug, Clone)]
pub struct DeleteCapDefinitionRequest {
    pub id: i64,
}

#[derive(Debug, Clone)]
pub struct DeleteCapDefinitionResponse {
    pub deleted: bool,
}

#[derive(Debug, Clone)]
pub struct ListCapAlertEventsRequest {
    pub start_ts: Option<i64>,
    pub end_ts: Option<i64>,
    pub scope: Option<String>,
    pub interface_guid: Option<String>,
    pub window_kind: Option<String>,
    pub threshold_kind: Option<String>,
    pub delivery_state: Option<String>,
    pub limit: Option<u32>,
}

#[derive(Debug, Clone)]
pub struct CapAlertEvent {
    pub id: i64,
    pub cap_definition_id: i64,
    pub scope: String,
    pub interface_guid: Option<String>,
    pub window_kind: String,
    pub window_start_ts: i64,
    pub window_end_ts: i64,
    pub threshold_kind: String,
    pub threshold_value: u64,
    pub usage_bytes: u64,
    pub cap_bytes: u64,
    pub fired_at: i64,
    pub delivery_state: String,
    pub delivered_at: Option<i64>,
}

#[derive(Debug, Clone)]
pub struct ListCapAlertEventsResponse {
    pub events: Vec<CapAlertEvent>,
}

#[derive(Debug, Clone)]
pub struct MarkCapAlertEventsDeliveredRequest {
    pub event_ids: Vec<i64>,
}

#[derive(Debug, Clone)]
pub struct MarkCapAlertEventsDeliveredResponse {
    pub updated: u32,
}

#[derive(Debug, Clone)]
pub struct CompactDatabaseRequest {}

#[derive(Debug, Clone)]
pub struct CompactDatabaseResponse {
    pub before_bytes: u64,
    pub after_bytes: u64,
    pub reclaimed_bytes: u64,
    pub duration_ms: u64,
}

#[derive(Debug, Clone)]
pub struct SetSettingsRequest {
    pub poll_interval_seconds: Option<u32>,
    pub retention_days: Option<u32>,
    pub afk_idle_threshold_seconds: Option<u32>,
    pub onboarding_completed: Option<bool>,
    pub export_default_granularity: Option<String>,
    pub export_default_include_summary: Option<bool>,
    pub export_default_include_apps: Option<bool>,
    pub export_default_include_interfaces: Option<bool>,
}

#[derive(Debug, Clone)]
pub struct SettingsResponse {
    pub poll_interval_seconds: u32,
    pub retention_days: u32,
    pub afk_idle_threshold_seconds: u32,
    pub onboarding_completed: bool,
    pub export_default_granularity: String,
    pub export_default_include_summary: bool,
    pub export_default_include_apps: bool,
    pub export_default_include_interfaces: bool,
}

#[derive(Debug, Clone)]
pub struct SetImportStatusRequest {
    pub status: String,
    pub progress_pct: u8,
}

#[derive(Debug, Clone)]
pub struct AfkWindowUsage {
    pub start_ts: i64,
    pub end_ts: i64,
    pub duration_seconds: u32,
    pub bytes_sent: u64,
    pub bytes_recv: u64,
    pub top_apps: Vec<AppUsageRow>,
}

#[derive(Debug, Clone)]
pub struct GetAfkAuditRequest {
    pub start_ts: Option<i64>,
    pub end_ts: Option<i64>,
    pub limit: Option<u32>,
}

#[derive(Debug, Clone)]
pub struct AfkAuditResponse {
    pub afk_windows: Vec<AfkWindowUsage>,
}

#[derive(Debug, Clone)]
pub struct AttributedUsageSample {
    pub attribution_id: String,
    pub bytes_sent: u64,
    pub bytes_recv: u64,
}

#[derive(Debug, Clone)]
pub struct IngestAttributedUsageRequest {
    pub start_ts: i64,
    pub end_ts: i64,
    pub profile_name: Option<String>,
    pub source: Option<String>,
    pub samples: Vec<AttributedUsageSample>,
}

#[derive(Debug, Clone)]
pub struct IngestAttributedUsageResponse {
    pub accepted: u32,
    pub dropped: u32,
}

} // verus!
