use vstd::prelude::*;
use crate::db::{Db, DbError};
use crate::db::settings::{
    RetentionCleanupStatus, ReliabilityStatus, poll_interval_of, afk_threshold_of, retention_days_of,
    or_else, parsed_bool, parsed_u8, u64_setting, i64_setting, granularity_seq, applied_map, applied_stamps, clamp_int,
};
use crate::db::query::{summary_tags, summary_reply, max_ts, source_is_attributed};
use crate::db::breakdown::{app_tags, app_breakdown_reply, iface_tags, iface_breakdown_reply, interfaces_reply};
use crate::db::caps::{caps_reply, cap_upsert, cap_def_is, cap_scope};
use crate::db::events::{listing_result, marked, acked, count_where, cap_count};
use crate::db::afk::{afk_upsert, afk_valid, audit_result};
use crate::db::alerts::eval_result;
use crate::db::group::group_overflows;
use crate::db::usage::{interface_upsert, samples_fold, AttrState, IngestState, attribution_interface_name, attribution_interval, attribution_source, cap_u32};
use crate::num::dec_seq;
use crate::seqs::keep;
use crate::text::{chars_of, trim_vec, trim_seq, keyword, keyword_seq, chars_eq_str};
use crate::contracts::{
    METHOD_GET_DAEMON_STATUS, METHOD_GET_SETTINGS, METHOD_GET_USAGE_SUMMARY, METHOD_GET_APP_BREAKDOWN,
    METHOD_GET_INTERFACES, METHOD_GET_INTERFACE_BREAKDOWN, METHOD_LIST_CAP_DEFINITIONS,
    METHOD_LIST_CAP_ALERT_EVENTS, METHOD_MARK_CAP_ALERT_EVENTS_DELIVERED, METHOD_COMPACT_DATABASE,
    METHOD_UPSERT_CAP_DEFINITION, METHOD_DELETE_CAP_DEFINITION, METHOD_SET_SETTINGS, METHOD_GET_AFK_AUDIT,
    METHOD_UPSERT_AFK_WINDOW, METHOD_INGEST_ATTRIBUTED_USAGE, METHOD_SET_IMPORT_STATUS,
    UpsertCapDefinitionRequest, UsageSummaryRequest, UsageSummaryResponse, AppBreakdownRequest,
    AppBreakdownResponse, GetInterfacesResponse, InterfaceBreakdownRequest, InterfaceBreakdownResponse,
    ListCapDefinitionsResponse, ListCapAlertEventsRequest, ListCapAlertEventsResponse,
    MarkCapAlertEventsDeliveredRequest, MarkCapAlertEventsDeliveredResponse, UpsertCapDefinitionResponse,
    DeleteCapDefinitionRequest, DeleteCapDefinitionResponse, SetSettingsRequest, SettingsResponse,
    GetAfkAuditRequest, AfkAuditResponse, TimeRangeRequest, IngestAttributedUsageRequest,
    IngestAttributedUsageResponse, SetImportStatusRequest,
};
use crate::db::sort::KeyV;
use crate::db::settings::{settings_are, import_status_is, reliability_is, retention_status_is};
use crate::db::usage::attributed_outcome;
use crate::db::CapEventRow;
use crate::contracts::{CompactDatabaseResponse, MessageType};
use crate::db::afk::afk_source;

verus! {

/// The interval that a poll covers: the seconds since the previous poll, within
/// `1..=u32::MAX`; the nominal interval (at least 1) when there was no previous poll or the
/// clock went back.
pub open spec fn observed_interval(last_poll_ts: i64, current_ts: i64, fallback_secs: u32) -> u32 {
    if last_poll_ts <= 0 || current_ts <= last_poll_ts {
        if fallback_secs < 1 {
            1
        } else {
            fallback_secs
        }
    } else {
        let e = current_ts - last_poll_ts;
        if e > u32::MAX {
            u32::MAX
        } else {
            e as u32
        }
    }
}

pub fn resolve_observed_interval_secs(last_poll_ts: i64, current_ts: i64, fallback_secs: u32) -> (r: u32)
    ensures
        r == observed_interval(last_poll_ts, current_ts, fallback_secs),
{
    if last_poll_ts <= 0 || current_ts <= last_poll_ts {
        return if fallback_secs < 1 {
            1
        } else {
            fallback_secs
        };
    }
    let elapsed: i64 = current_ts - last_poll_ts;
    if elapsed > 4294967295 {
        4294967295
    } else {
        elapsed as u32
    }
}

/// A guid that is present and not blank.
pub open spec fn has_guid(guid: Option<String>) -> bool {
    match guid {
        Some(g) => trim_seq(g@).len() > 0,
        None => false,
    }
}

/// Why a cap request is refused before it reaches the store, if it is.
pub open spec fn cap_request_problem(p: UpsertCapDefinitionRequest) -> Option<Seq<char>> {
    let scope = keyword_seq(p.scope@);
    if scope != "global"@ && scope != "interface"@ {
        Some("scope must be 'global' or 'interface'"@)
    } else if p.monthly_cap_bytes == 0 {
        Some("monthly_cap_bytes must be greater than 0"@)
    } else if p.monthly_cap_bytes > i64::MAX {
        Some("monthly_cap_bytes exceeds supported maximum"@)
    } else if scope == "interface"@ && !has_guid(p.interface_guid) {
        Some("interface scope requires interface_guid"@)
    } else if scope == "global"@ && has_guid(p.interface_guid) {
        Some("global scope must not include interface_guid"@)
    } else if p.id matches Some(id) && id <= 0 {
        Some("id must be greater than 0 when provided"@)
    } else {
        None
    }
}

fn has_guid_exec(guid: &Option<String>) -> (r: bool)
    ensures
        r == has_guid(*guid),
{
    match guid {
        Some(g) => trim_vec(&chars_of(g.as_str())).len() > 0,
        None => false,
    }
}

/// Checks a cap request: a known scope, a cap within `1..=i64::MAX`, a guid exactly for an
/// interface cap, and a positive id when one is given.
pub fn validate_upsert_cap_request(payload: &UpsertCapDefinitionRequest) -> (r: Result<(), String>)
    ensures
        match r {
            Ok(()) => cap_request_problem(*payload) is None,
            Err(m) => cap_request_problem(*payload) == Some(m@),
        },
{
    let scope = keyword(payload.scope.as_str());
    let global = chars_eq_str(&scope, "global");
    let interface = chars_eq_str(&scope, "interface");
    if !global && !interface {
        return Err("scope must be 'global' or 'interface'".to_string());
    }
    if payload.monthly_cap_bytes == 0 {
        return Err("monthly_cap_bytes must be greater than 0".to_string());
    }
    if payload.monthly_cap_bytes > 9223372036854775807u64 {
        return Err("monthly_cap_bytes exceeds supported maximum".to_string());
    }
    let guid = has_guid_exec(&payload.interface_guid);
    if interface && !guid {
        return Err("interface scope requires interface_guid".to_string());
    }
    if global && guid {
        return Err("global scope must not include interface_guid".to_string());
    }
    if let Some(id) = payload.id {
        if id <= 0 {
            return Err("id must be greater than 0 when provided".to_string());
        }
    }
    Ok(())
}

/// The text of a store error.
pub open spec fn db_error_text(e: DbError) -> Seq<char> {
    match e {
        DbError::IdSpaceExhausted => "database or disk is full"@,
        DbError::UniqueConstraint => "UNIQUE constraint failed: monthly_cap_definitions.scope, monthly_cap_definitions.interface_guid"@,
        DbError::IntegerOverflow => "integer overflow"@,
        DbError::InvalidScope => "invalid scope"@,
        DbError::MissingInterfaceGuid => "interface scope requires interface_guid"@,
    }
}

pub fn db_error_message(e: DbError) -> (r: String)
    ensures
        r@ == db_error_text(e),
{
    match e {
        DbError::IdSpaceExhausted => "database or disk is full".to_string(),
        DbError::UniqueConstraint => "UNIQUE constraint failed: monthly_cap_definitions.scope, monthly_cap_definitions.interface_guid".to_string(),
        DbError::IntegerOverflow => "integer overflow".to_string(),
        DbError::InvalidScope => "invalid scope".to_string(),
        DbError::MissingInterfaceGuid => "interface scope requires interface_guid".to_string(),
    }
}

/// The methods the collector answers.
#[derive(Debug, Clone, Copy, PartialEq, Eq)]
pub enum Method {
    GetDaemonStatus,
    GetSettings,
    GetUsageSummary,
    GetAppBreakdown,
    GetInterfaces,
    GetInterfaceBreakdown,
    ListCapDefinitions,
    ListCapAlertEvents,
    MarkCapAlertEventsDelivered,
    CompactDatabase,
    UpsertCapDefinition,
    DeleteCapDefinition,
    SetSettings,
    GetAfkAudit,
    UpsertAfkWindow,
    IngestAttributedUsage,
    SetImportStatus,
}

/// The method a request names, if the collector answers it.
pub open spec fn method_named(name: Seq<char>) -> Option<Method> {
    if name == METHOD_GET_DAEMON_STATUS@ {
        Some(Method::GetDaemonStatus)
    } else if name == METHOD_GET_SETTINGS@ {
        Some(Method::GetSettings)
    } else if name == METHOD_GET_USAGE_SUMMARY@ {
        Some(Method::GetUsageSummary)
    } else if name == METHOD_GET_APP_BREAKDOWN@ {
        Some(Method::GetAppBreakdown)
    } else if name == METHOD_GET_INTERFACES@ {
        Some(Method::GetInterfaces)
    } else if name == METHOD_GET_INTERFACE_BREAKDOWN@ {
        Some(Method::GetInterfaceBreakdown)
    } else if name == METHOD_LIST_CAP_DEFINITIONS@ {
        Some(Method::ListCapDefinitions)
    } else if name == METHOD_LIST_CAP_ALERT_EVENTS@ {
        Some(Method::ListCapAlertEvents)
    } else if name == METHOD_MARK_CAP_ALERT_EVENTS_DELIVERED@ {
        Some(Method::MarkCapAlertEventsDelivered)
    } else if name == METHOD_COMPACT_DATABASE@ {
        Some(Method::CompactDatabase)
    } else if name == METHOD_UPSERT_CAP_DEFINITION@ {
        Some(Method::UpsertCapDefinition)
    } else if name == METHOD_DELETE_CAP_DEFINITION@ {
        Some(Method::DeleteCapDefinition)
    } else if name == METHOD_SET_SETTINGS@ {
        Some(Method::SetSettings)
    } else if name == METHOD_GET_AFK_AUDIT@ {
        Some(Method::GetAfkAudit)
    } else if name == METHOD_UPSERT_AFK_WINDOW@ {
        Some(Method::UpsertAfkWindow)
    } else if name == METHOD_INGEST_ATTRIBUTED_USAGE@ {
        Some(Method::IngestAttributedUsage)
    } else if name == METHOD_SET_IMPORT_STATUS@ {
        Some(Method::SetImportStatus)
    } else {
        None
    }
}

pub fn method_of(name: &str) -> (r: Option<Method>)
    ensures
        r == method_named(name@),
{
    let n = chars_of(name);
    if chars_eq_str(&n, METHOD_GET_DAEMON_STATUS) {
        Some(Method::GetDaemonStatus)
    } else if chars_eq_str(&n, METHOD_GET_SETTINGS) {
        Some(Method::GetSettings)
    } else if chars_eq_str(&n, METHOD_GET_USAGE_SUMMARY) {
        Some(Method::GetUsageSummary)
    } else if chars_eq_str(&n, METHOD_GET_APP_BREAKDOWN) {
        Some(Method::GetAppBreakdown)
    } else if chars_eq_str(&n, METHOD_GET_INTERFACES) {
        Some(Method::GetInterfaces)
    } else if chars_eq_str(&n, METHOD_GET_INTERFACE_BREAKDOWN) {
        Some(Method::GetInterfaceBreakdown)
    } else if chars_eq_str(&n, METHOD_LIST_CAP_DEFINITIONS) {
        Some(Method::ListCapDefinitions)
    } else if chars_eq_str(&n, METHOD_LIST_CAP_ALERT_EVENTS) {
        Some(Method::ListCapAlertEvents)
    } else if chars_eq_str(&n, METHOD_MARK_CAP_ALERT_EVENTS_DELIVERED) {
        Some(Method::MarkCapAlertEventsDelivered)
    } else if chars_eq_str(&n, METHOD_COMPACT_DATABASE) {
        Some(Method::CompactDatabase)
    } else if chars_eq_str(&n, METHOD_UPSERT_CAP_DEFINITION) {
        Some(Method::UpsertCapDefinition)
    } else if chars_eq_str(&n, METHOD_DELETE_CAP_DEFINITION) {
        Some(Method::DeleteCapDefinition)
    } else if chars_eq_str(&n, METHOD_SET_SETTINGS) {
        Some(Method::SetSettings)
    } else if chars_eq_str(&n, METHOD_GET_AFK_AUDIT) {
        Some(Method::GetAfkAudit)
    } else if chars_eq_str(&n, METHOD_UPSERT_AFK_WINDOW) {
        Some(Method::UpsertAfkWindow)
    } else if chars_eq_str(&n, METHOD_INGEST_ATTRIBUTED_USAGE) {
        Some(Method::IngestAttributedUsage)
    } else if chars_eq_str(&n, METHOD_SET_IMPORT_STATUS) {
        Some(Method::SetImportStatus)
    } else {
        None
    }
}

/// The method a message asks for: only requests are answered (400 otherwise), and only
/// methods the collector knows (404 otherwise).
pub open spec fn envelope_method(message_type: MessageType, method: Seq<char>) -> Result<Method, (i32, Seq<char>)> {
    if message_type != MessageType::Request {
        Err((400, "expected request message type"@))
    } else {
        match method_named(method) {
            Some(m) => Ok(m),
            None => Err((404, "unsupported method"@)),
        }
    }
}

/// Checks a message's type and method before its payload is read.
pub fn request_method(message_type: MessageType, method: &str) -> (r: Result<Method, Reply>)
    ensures
        match envelope_method(message_type, method@) {
            Ok(m) => r == Ok::<Method, Reply>(m),
            Err((code, text)) => r matches Err(e) && is_error(e, code, text),
        },
{
    if message_type != MessageType::Request {
        return Err(Reply::Error { code: 400, message: "expected request message type".to_string() });
    }
    match method_of(method) {
        Some(m) => Ok(m),
        None => Err(Reply::Error { code: 404, message: "unsupported method".to_string() }),
    }
}

/// A request to the collector, its payload already read.
pub enum Request {
    GetDaemonStatus,
    GetSettings,
    GetUsageSummary(UsageSummaryRequest),
    GetAppBreakdown(AppBreakdownRequest),
    GetInterfaces,
    GetInterfaceBreakdown(InterfaceBreakdownRequest),
    ListCapDefinitions,
    ListCapAlertEvents(ListCapAlertEventsRequest),
    MarkCapAlertEventsDelivered(MarkCapAlertEventsDeliveredRequest),
    CompactDatabase,
    UpsertCapDefinition(UpsertCapDefinitionRequest),
    DeleteCapDefinition(DeleteCapDefinitionRequest),
    SetSettings(SetSettingsRequest),
    GetAfkAudit(GetAfkAuditRequest),
    UpsertAfkWindow(TimeRangeRequest),
    IngestAttributedUsage(IngestAttributedUsageRequest),
    SetImportStatus(SetImportStatusRequest),
}

/// What the store contributes to the collector's status.
pub struct StatusCore {
    pub last_helper_ingest_ts: i64,
    pub import_status: String,
    pub import_progress_pct: u8,
    pub retention: RetentionCleanupStatus,
    pub reliability: ReliabilityStatus,
}

/// The answer to a request.
pub enum Reply {
    Status(StatusCore),
    Settings(SettingsResponse),
    UsageSummary(UsageSummaryResponse),
    AppBreakdown(AppBreakdownResponse),
    Interfaces(GetInterfacesResponse),
    InterfaceBreakdown(InterfaceBreakdownResponse),
    CapDefinitions(ListCapDefinitionsResponse),
    CapAlertEvents(ListCapAlertEventsResponse),
    Delivered(MarkCapAlertEventsDeliveredResponse),
    /// The store file is to be compacted.
    Compact,
    CapUpserted(UpsertCapDefinitionResponse),
    CapDeleted(DeleteCapDefinitionResponse),
    /// Settings were stored; the poll interval to use from now on, when one was given.
    SettingsApplied { poll_interval_seconds: Option<u32> },
    AfkAudit(AfkAuditResponse),
    AfkRecorded,
    Ingested(IngestAttributedUsageResponse),
    ImportStatus { status: String, progress_pct: u8 },
    Error { code: i32, message: String },
}

pub open spec fn is_error(r: Reply, code: i32, message: Seq<char>) -> bool {
    r matches Reply::Error { code: c, message: m } && c == code && m@ == message
}

/// Every table and every last id is as before.
pub open spec fn unchanged(after: &Db, before: &Db) -> bool {
    after.same_settings(before) && after.same_but_settings(before)
}

/// Only the events (and their last id) may differ.
pub open spec fn same_but_events(after: &Db, before: &Db) -> bool {
    &&& after.setting_map() == before.setting_map()
    &&& after.same_settings(before)
    &&& after.same_interfaces(before)
    &&& after.same_apps(before)
    &&& after.same_usage(before)
    &&& after.same_afk(before)
    &&& after.same_caps(before)
}

/// What answering a request does to the store and what it answers.
#[verifier::opaque]
pub open spec fn handled(before: &Db, after: &Db, req: Request, now_ts: i64, r: Reply) -> bool {
    match req {
        Request::GetDaemonStatus => *after == *before && (r matches Reply::Status(st) && st.last_helper_ingest_ts == (
        match max_ts(before.usage(), source_is_attributed(), before.usage().len() as int) {
            Some(t) => t,
            None => 0,
        }) && import_status_is(before, (st.import_status, st.import_progress_pct)) && retention_status_is(
            before,
            st.retention,
        ) && reliability_is(before, st.reliability)),
        Request::GetSettings => *after == *before && (r matches Reply::Settings(x) && settings_are(before, x)),
        Request::GetUsageSummary(p) => *after == *before && (if group_overflows(before.usage(), summary_tags(before, p)) {
            is_error(r, 500, "integer overflow"@)
        } else {
            r matches Reply::UsageSummary(x) && summary_reply(before, p, x)
        }),
        Request::GetAppBreakdown(p) => *after == *before && (if group_overflows(before.usage(), app_tags(before, p)) {
            is_error(r, 500, "integer overflow"@)
        } else {
            r matches Reply::AppBreakdown(x) && app_breakdown_reply(before, p, x)
        }),
        Request::GetInterfaces => *after == *before && (r matches Reply::Interfaces(x) && interfaces_reply(before, x)),
        Request::GetInterfaceBreakdown(p) => *after == *before && (if group_overflows(before.usage(), iface_tags(before, p)) {
            is_error(r, 500, "integer overflow"@)
        } else {
            r matches Reply::InterfaceBreakdown(x) && iface_breakdown_reply(before, p, x)
        }),
        Request::ListCapDefinitions => *after == *before && (r matches Reply::CapDefinitions(x) && caps_reply(before, x)),
        Request::ListCapAlertEvents(p) => *after == *before && (r matches Reply::CapAlertEvents(x) && exists|s: Seq<KeyV>|
            listing_result(before, p, s, x)),
        Request::MarkCapAlertEventsDelivered(p) => if p.event_ids@.len() == 0 {
            *after == *before && is_error(r, 400, "event_ids must contain at least one id"@)
        } else if exists|i: int| 0 <= i < p.event_ids@.len() && #[trigger] p.event_ids@[i] <= 0 {
            *after == *before && is_error(r, 400, "event_ids must all be greater than 0"@)
        } else {
            &&& same_but_events(after, before)
            &&& after.events() == marked(before.events(), p.event_ids@, now_ts)
            &&& after.last_event() == before.last_event()
            &&& r matches Reply::Delivered(x) && x.updated == cap_count(
                count_where(before.events(), acked(p.event_ids@), before.events().len() as int),
            )
        },
        Request::CompactDatabase => *after == *before && r is Compact,
        Request::UpsertCapDefinition(p) => match cap_request_problem(p) {
            Some(m) => *after == *before && is_error(r, 400, m),
            None => match cap_upsert(before.caps(), before.last_cap(), now_ts, p) {
                Err(e) => unchanged(after, before) && is_error(r, 500, db_error_text(e)),
                Ok((rows, last, c)) => {
                    &&& r matches Reply::CapUpserted(x) && cap_def_is(x.cap, c)
                    &&& after.caps() == rows
                    &&& after.last_cap() == last
                    &&& after.setting_map() == before.setting_map()
                    &&& after.same_settings(before)
                    &&& after.same_interfaces(before)
                    &&& after.same_apps(before)
                    &&& after.same_usage(before)
                    &&& after.same_afk(before)
                    &&& (now_ts <= 0 ==> after.same_events(before))
                    &&& (now_ts > 0 ==> exists|mid: Db, s: Seq<KeyV>, er: Result<usize, DbError>|
                        mid.caps() == rows && mid.usage() == before.usage() && mid.interfaces()
                            == before.interfaces() && mid.events() == before.events() && mid.last_event()
                            == before.last_event() && eval_result(&mid, after, now_ts, s, er))
                },
            },
        },
        Request::DeleteCapDefinition(p) => if p.id <= 0 {
            *after == *before && is_error(r, 400, "id must be greater than 0"@)
        } else {
            &&& after.setting_map() == before.setting_map()
            &&& after.same_settings(before)
            &&& after.same_interfaces(before)
            &&& after.same_apps(before)
            &&& after.same_usage(before)
            &&& after.same_afk(before)
            &&& after.last_cap() == before.last_cap()
            &&& after.last_event() == before.last_event()
            &&& after.tables().caps@ == keep(before.tables().caps@, |c: crate::db::CapRow| c.id != p.id)
            &&& after.tables().cap_events@ == keep(before.tables().cap_events@, |e: CapEventRow| e.cap_definition_id != p.id)
            &&& r matches Reply::CapDeleted(x) && x.deleted == (after.tables().caps@.len() < before.tables().caps@.len())
        },
        Request::SetSettings(p) => {
            &&& after.setting_map() == applied_map(before.setting_map(), p)
            &&& after.stamp_map() == applied_stamps(before.stamp_map(), p, now_ts)
            &&& after.same_but_settings(before)
            &&& r == Reply::SettingsApplied {
                poll_interval_seconds: match p.poll_interval_seconds {
                    Some(x) => Some(clamp_int(x as int, 15, 300) as u32),
                    None => None,
                },
            }
        },
        Request::GetAfkAudit(p) => *after == *before && exists|s: Seq<KeyV>, res: Result<AfkAuditResponse, DbError>|
            audit_result(before, p, s, res) && match res {
                Ok(x) => r == Reply::AfkAudit(x),
                Err(e) => is_error(r, 500, db_error_text(e)),
            },
        Request::UpsertAfkWindow(p) => if p.start_ts <= 0 || p.end_ts < p.start_ts {
            *after == *before && is_error(r, 400, "invalid AFK range"@)
        } else {
            &&& after.setting_map() == before.setting_map()
            &&& after.same_settings(before)
            &&& after.same_interfaces(before)
            &&& after.same_apps(before)
            &&& after.same_usage(before)
            &&& after.same_caps(before)
            &&& after.same_events(before)
            &&& match afk_upsert(before.afk(), before.last_afk(), p.start_ts, p.end_ts, "ipc_synthetic"@) {
                None => after.same_afk(before) && is_error(r, 500, db_error_text(DbError::IdSpaceExhausted)),
                Some((rows, last)) => after.afk() == rows && after.last_afk() == last && r is AfkRecorded,
            }
        },
        Request::IngestAttributedUsage(p) => {
            &&& after.setting_map() == before.setting_map()
            &&& after.same_settings(before)
            &&& after.same_afk(before)
            &&& after.same_caps(before)
            &&& after.same_events(before)
            &&& exists|res: Result<IngestAttributedUsageResponse, DbError>|
                attributed_outcome(before, after, p, res) && match res {
                    Ok(x) => r == Reply::Ingested(x),
                    Err(e) => is_error(r, 500, db_error_text(e)),
                }
        },
        Request::SetImportStatus(p) => {
            let pct: u8 = if p.progress_pct > 100 {
                100
            } else {
                p.progress_pct
            };
            &&& after.setting_map() == before.setting_map().insert("import_status"@, p.status@).insert(
                "import_progress_pct"@,
                dec_seq(pct as nat),
            )
            &&& after.stamp_map() == before.stamp_map().insert("import_status"@, now_ts).insert(
                "import_progress_pct"@,
                now_ts,
            )
            &&& after.same_but_settings(before)
            &&& r matches Reply::ImportStatus { status, progress_pct } && status@ == p.status@ && progress_pct == pct
        },
    }
}

fn all_positive(ids: &Vec<i64>) -> (r: bool)
    ensures
        r == !exists|i: int| 0 <= i < ids@.len() && #[trigger] ids@[i] <= 0,
{
    let mut k: usize = 0;
    while k < ids.len()
        invariant
            k <= ids@.len(),
            forall|i: int| 0 <= i < k ==> #[trigger] ids@[i] > 0,
        decreases ids@.len() - k,
    {
        if ids[k] <= 0 {
            return false;
        }
        k = k + 1;
    }
    true
}

fn error_reply(code: i32, e: DbError) -> (r: Reply)
    ensures
        is_error(r, code, db_error_text(e)),
{
    Reply::Error { code, message: db_error_message(e) }
}

fn copy_text(s: &String) -> (r: String)
    ensures
        r@ == s@,
{
    s.clone()
}

fn answer_upsert_cap(db: &mut Db, p: &UpsertCapDefinitionRequest, now_ts: i64) -> (r: Reply)
    requires
        old(db).wf(),
    ensures
        final(db).wf(),
        handled(old(db), final(db), Request::UpsertCapDefinition(*p), now_ts, r),
{
    proof {
        reveal(handled);
    }
    match validate_upsert_cap_request(p) {
        Err(m) => {
            return Reply::Error { code: 400, message: m };
        },
        Ok(()) => {},
    }
    match db.upsert_cap_definition(now_ts, p) {
        Ok(x) => {
            let ghost mid = *db;
            let er = db.evaluate_cap_alerts(now_ts);
            proof {
                if now_ts > 0 {
                    let s = choose|s: Seq<KeyV>| eval_result(&mid, db, now_ts, s, er);
                    assert(eval_result(&mid, db, now_ts, s, er));
                }
            }
            Reply::CapUpserted(x)
        },
        Err(e) => error_reply(500, e),
    }
}

fn answer_mark_delivered(db: &mut Db, p: &MarkCapAlertEventsDeliveredRequest, now_ts: i64) -> (r: Reply)
    requires
        old(db).wf(),
    ensures
        final(db).wf(),
        handled(old(db), final(db), Request::MarkCapAlertEventsDelivered(*p), now_ts, r),
{
    proof {
        reveal(handled);
    }
    if p.event_ids.len() == 0 {
        return Reply::Error { code: 400, message: "event_ids must contain at least one id".to_string() };
    }
    if !all_positive(&p.event_ids) {
        return Reply::Error { code: 400, message: "event_ids must all be greater than 0".to_string() };
    }
    Reply::Delivered(db.mark_cap_alert_events_delivered(&p.event_ids, now_ts))
}

fn answer_afk_window(db: &mut Db, p: &TimeRangeRequest, now_ts: i64) -> (r: Reply)
    requires
        old(db).wf(),
    ensures
        final(db).wf(),
        handled(old(db), final(db), Request::UpsertAfkWindow(*p), now_ts, r),
{
    proof {
        reveal(handled);
    }
    if p.start_ts <= 0 || p.end_ts < p.start_ts {
        return Reply::Error { code: 400, message: "invalid AFK range".to_string() };
    }
    let r = match db.upsert_afk_window(p.start_ts, p.end_ts, "ipc_synthetic") {
        Ok(()) => Reply::AfkRecorded,
        Err(e) => error_reply(500, e),
    };
    r
}

fn answer_ingest(db: &mut Db, p: &IngestAttributedUsageRequest, now_ts: i64) -> (r: Reply)
    requires
        old(db).wf(),
        p.samples@.len() > 0 ==> i64::MIN <= p.end_ts - p.start_ts <= i64::MAX,
    ensures
        final(db).wf(),
        handled(old(db), final(db), Request::IngestAttributedUsage(*p), now_ts, r),
{
    proof {
        reveal(handled);
    }
    let res = db.insert_attributed_usage(p);
    let ghost res_v = res;
    let r = match res {
        Ok(x) => Reply::Ingested(x),
        Err(e) => error_reply(500, e),
    };
    assert(attributed_outcome(old(db), db, *p, res_v));
    r
}

fn answer_audit(db: &Db, p: &GetAfkAuditRequest) -> (r: Reply)
    ensures
        exists|s: Seq<KeyV>, res: Result<AfkAuditResponse, DbError>|
            audit_result(db, *p, s, res) && match res {
                Ok(x) => r == Reply::AfkAudit(x),
                Err(e) => is_error(r, 500, db_error_text(e)),
            },
{
    let res = db.query_afk_audit(p);
    let ghost res_v = res;
    let r = match res {
        Ok(x) => Reply::AfkAudit(x),
        Err(e) => error_reply(500, e),
    };
    proof {
        let s = choose|s: Seq<KeyV>| audit_result(db, *p, s, res_v);
        assert(audit_result(db, *p, s, res_v));
    }
    r
}

fn answer_delete_cap(db: &mut Db, p: &DeleteCapDefinitionRequest, now_ts: i64) -> (r: Reply)
    requires
        old(db).wf(),
    ensures
        final(db).wf(),
        handled(old(db), final(db), Request::DeleteCapDefinition(*p), now_ts, r),
{
    proof {
        reveal(handled);
    }
    if p.id <= 0 {
        return Reply::Error { code: 400, message: "id must be greater than 0".to_string() };
    }
    Reply::CapDeleted(db.delete_cap_definition(p))
}

fn answer_set_settings(db: &mut Db, p: &SetSettingsRequest, now_ts: i64) -> (r: Reply)
    requires
        old(db).wf(),
    ensures
        final(db).wf(),
        handled(old(db), final(db), Request::SetSettings(*p), now_ts, r),
{
    proof {
        reveal(handled);
    }
    db.apply_settings(now_ts, p);
    let poll = match p.poll_interval_seconds {
        Some(x) => Some(crate::db::settings::clamp_u32(x, 15, 300)),
        None => None,
    };
    Reply::SettingsApplied { poll_interval_seconds: poll }
}

fn answer_import_status(db: &mut Db, p: &SetImportStatusRequest, now_ts: i64) -> (r: Reply)
    requires
        old(db).wf(),
    ensures
        final(db).wf(),
        handled(old(db), final(db), Request::SetImportStatus(*p), now_ts, r),
{
    proof {
        reveal(handled);
    }
    let pct: u8 = if p.progress_pct > 100 {
        100
    } else {
        p.progress_pct
    };
    db.set_import_status(now_ts, p.status.as_str(), pct);
    Reply::ImportStatus { status: copy_text(&p.status), progress_pct: pct }
}

/// Answers a request against the store at time `now_ts`: validation failures answer 400,
/// store failures 500.
pub fn handle(db: &mut Db, req: &Request, now_ts: i64) -> (r: Reply)
    requires
        old(db).wf(),
        req matches Request::IngestAttributedUsage(p) ==> (p.samples@.len() > 0 ==> i64::MIN <= p.end_ts - p.start_ts <= i64::MAX),
    ensures
        final(db).wf(),
        handled(old(db), final(db), *req, now_ts, r),
{
    let r = match req {
        Request::GetDaemonStatus => {
            let (import_status, import_progress_pct) = db.get_import_status();
            let rr = Reply::Status(
                StatusCore {
                    last_helper_ingest_ts: db.last_helper_ingest_ts(),
                    import_status,
                    import_progress_pct,
                    retention: db.get_retention_cleanup_status(),
                    reliability: db.get_reliability_status(),
                },
            );
            assert(handled(old(db), db, *req, now_ts, rr)) by {
                reveal(handled);
            }
            rr
        },
        Request::GetSettings => {
            let rr = Reply::Settings(db.get_settings());
            assert(handled(old(db), db, *req, now_ts, rr)) by {
                reveal(handled);
            }
            rr
        },
        Request::GetUsageSummary(p) => {
            let rr = match db.query_usage_summary(p) {
                Ok(x) => Reply::UsageSummary(x),
                Err(e) => error_reply(500, e),
            };
            assert(handled(old(db), db, *req, now_ts, rr)) by {
                reveal(handled);
            }
            rr
        },
        Request::GetAppBreakdown(p) => {
            let rr = match db.query_app_breakdown(p) {
                Ok(x) => Reply::AppBreakdown(x),
                Err(e) => error_reply(500, e),
            };
            assert(handled(old(db), db, *req, now_ts, rr)) by {
                reveal(handled);
            }
            rr
        },
        Request::GetInterfaces => {
            let rr = Reply::Interfaces(db.query_interfaces());
            assert(handled(old(db), db, *req, now_ts, rr)) by {
                reveal(handled);
            }
            rr
        },
        Request::GetInterfaceBreakdown(p) => {
            let rr = match db.query_interface_breakdown(p) {
                Ok(x) => Reply::InterfaceBreakdown(x),
                Err(e) => error_reply(500, e),
            };
            assert(handled(old(db), db, *req, now_ts, rr)) by {
                reveal(handled);
            }
            rr
        },
        Request::ListCapDefinitions => {
            let rr = Reply::CapDefinitions(db.list_cap_definitions());
            assert(handled(old(db), db, *req, now_ts, rr)) by {
                reveal(handled);
            }
            rr
        },
        Request::ListCapAlertEvents(p) => {
            let x = db.list_cap_alert_events(p);
            let rr = Reply::CapAlertEvents(x);
            assert(handled(old(db), db, *req, now_ts, rr)) by {
                reveal(handled);
                assert(*db == *old(db));
                let s = choose|s: Seq<KeyV>| listing_result(db, *p, s, x);
                assert(listing_result(old(db), *p, s, x));
                let x2 = rr->CapAlertEvents_0;
                assert(x2 == x);
                assert(listing_result(old(db), *p, s, x2));
            }
            rr
        },
        Request::MarkCapAlertEventsDelivered(p) => answer_mark_delivered(db, p, now_ts),
        Request::CompactDatabase => {
            let rr = Reply::Compact;
            assert(handled(old(db), db, *req, now_ts, rr)) by {
                reveal(handled);
            }
            rr
        },
        Request::UpsertCapDefinition(p) => answer_upsert_cap(db, p, now_ts),
        Request::DeleteCapDefinition(p) => answer_delete_cap(db, p, now_ts),
        Request::SetSettings(p) => answer_set_settings(db, p, now_ts),
        Request::GetAfkAudit(p) => {
            let rr = answer_audit(db, p);
            assert(handled(old(db), db, *req, now_ts, rr)) by {
                reveal(handled);
            }
            rr
        },
        Request::UpsertAfkWindow(p) => answer_afk_window(db, p, now_ts),
        Request::IngestAttributedUsage(p) => answer_ingest(db, p, now_ts),
        Request::SetImportStatus(p) => answer_import_status(db, p, now_ts),
    };
    r
}

pub open spec fn size_or_zero(v: Option<u64>) -> u64 {
    match v {
        Some(x) => x,
        None => 0,
    }
}

pub open spec fn sat_add_u64(a: u64, b: u64) -> u64 {
    if a + b > u64::MAX {
        u64::MAX
    } else {
        (a + b) as u64
    }
}

/// An i64 difference or sum, saturating at the ends of the range.
pub open spec fn sat_i64(v: int) -> i64 {
    if v < i64::MIN {
        i64::MIN
    } else if v > i64::MAX {
        i64::MAX
    } else {
        v as i64
    }
}

/// The AFK window an idle reading calls for: from when the idle threshold was passed until
/// now, when the user has been idle at least that long and the start is positive and not
/// in the future.
pub open spec fn afk_capture(current_ts: i64, threshold: int, idle_secs: u32) -> Option<(i64, i64)> {
    if idle_secs < threshold {
        None
    } else {
        let start = sat_i64(sat_i64(current_ts - idle_secs) + threshold);
        if start <= 0 || start > current_ts {
            None
        } else {
            Some((start, current_ts))
        }
    }
}

impl Db {
    /// The size of the store on disk: the main file and its write-ahead and shared-memory
    /// files, a missing one counting as empty.
    pub fn db_size_bytes(main_len: Option<u64>, wal_len: Option<u64>, shm_len: Option<u64>) -> (r: u64)
        ensures
            r == sat_add_u64(sat_add_u64(size_or_zero(main_len), size_or_zero(wal_len)), size_or_zero(shm_len)),
    {
        let a: u64 = match main_len {
            Some(x) => x,
            None => 0,
        };
        let b: u64 = match wal_len {
            Some(x) => x,
            None => 0,
        };
        let c: u64 = match shm_len {
            Some(x) => x,
            None => 0,
        };
        let ab = match a.checked_add(b) {
            Some(v) => v,
            None => u64::MAX,
        };
        match ab.checked_add(c) {
            Some(v) => v,
            None => u64::MAX,
        }
    }

    /// The report of a compaction from the sizes before and after it and how long it took.
    pub fn compact_database(before_bytes: u64, after_bytes: u64, elapsed_ms: u128) -> (r: CompactDatabaseResponse)
        ensures
            r.before_bytes == before_bytes,
            r.after_bytes == after_bytes,
            r.reclaimed_bytes == (if before_bytes > after_bytes {
                before_bytes - after_bytes
            } else {
                0
            }),
            r.duration_ms == (if elapsed_ms > u64::MAX {
                u64::MAX
            } else {
                elapsed_ms as u64
            }),
    {
        let reclaimed = if before_bytes > after_bytes {
            before_bytes - after_bytes
        } else {
            0
        };
        let duration: u64 = if elapsed_ms > 18446744073709551615u128 {
            u64::MAX
        } else {
            elapsed_ms as u64
        };
        CompactDatabaseResponse { before_bytes, after_bytes, reclaimed_bytes: reclaimed, duration_ms: duration }
    }

    /// Records the AFK window that an idle reading of `idle_secs` at `current_ts` calls for,
    /// with the stored idle threshold (300 s when unset, within 30..=3600).
    pub fn capture_afk_window(&mut self, current_ts: i64, idle_secs: u32) -> (r: Result<(), DbError>)
        requires
            old(self).wf(),
        ensures
            final(self).wf(),
            final(self).setting_map() == old(self).setting_map(),
            final(self).same_settings(old(self)),
            final(self).same_interfaces(old(self)),
            final(self).same_apps(old(self)),
            final(self).same_usage(old(self)),
            final(self).same_caps(old(self)),
            final(self).same_events(old(self)),
            match afk_capture(current_ts, afk_threshold_of(old(self), 300), idle_secs) {
                None => r is Ok && final(self).same_afk(old(self)),
                Some((s, e)) => match afk_upsert(old(self).afk(), old(self).last_afk(), s, e, "last_input"@) {
                    None => r == Err::<(), DbError>(DbError::IdSpaceExhausted) && final(self).same_afk(old(self)),
                    Some((rows, last)) => r is Ok && final(self).afk() == rows && final(self).last_afk() == last,
                },
            },
    {
        let threshold = self.get_afk_idle_threshold_seconds(300);
        if idle_secs < threshold {
            return Ok(());
        }
        let a: i64 = if current_ts < i64::MIN + (idle_secs as i64) {
            i64::MIN
        } else {
            current_ts - (idle_secs as i64)
        };
        let start: i64 = if a > i64::MAX - (threshold as i64) {
            i64::MAX
        } else {
            a + (threshold as i64)
        };
        if start <= 0 || start > current_ts {
            return Ok(());
        }
        self.upsert_afk_window(start, current_ts, "last_input")
    }
}

} // verus!
