use singularity_monitor::contracts::{
    AppBreakdownRequest, DeleteCapDefinitionRequest, GetAfkAuditRequest, IngestAttributedUsageRequest,
    InterfaceBreakdownRequest, ListCapAlertEventsRequest, MarkCapAlertEventsDeliveredRequest,
    SetImportStatusRequest, SetSettingsRequest, TimeRangeRequest, UpsertCapDefinitionRequest,
    UsageSummaryRequest, METHOD_GET_DAEMON_STATUS, METHOD_MARK_CAP_ALERT_EVENTS_DELIVERED,
    METHOD_SUBSCRIBE_EVENTS,
};
use singularity_monitor::contracts::MessageType;
use singularity_monitor::db::Db;
use singularity_monitor::runtime::request_method;
use singularity_monitor::runtime::{
    handle, method_of, resolve_observed_interval_secs, validate_upsert_cap_request, Method, Reply, Request,
};

fn error_code(reply: &Reply) -> Option<i32> {
    match reply {
        Reply::Error { code, .. } => Some(*code),
        _ => None,
    }
}

#[test]
fn ipc_handlers_accept_valid_payloads_for_supported_methods() {
    let mut db = Db::new();
    let requests = vec![
        Request::GetDaemonStatus,
        Request::GetSettings,
        Request::GetUsageSummary(UsageSummaryRequest {
            start_ts: 0,
            end_ts: 1,
            granularity: "day".to_string(),
            interface_id: None,
            interface_type: None,
            app_filter: None,
        }),
        Request::GetAppBreakdown(AppBreakdownRequest {
            start_ts: 0,
            end_ts: 1,
            interface_id: None,
            interface_type: None,
            limit: Some(10),
            sort_by: Some("total_bytes_desc".to_string()),
        }),
        Request::SetSettings(SetSettingsRequest {
            poll_interval_seconds: Some(60),
            retention_days: Some(1),
            afk_idle_threshold_seconds: Some(300),
            onboarding_completed: Some(false),
            export_default_granularity: Some("day".to_string()),
            export_default_include_summary: Some(true),
            export_default_include_apps: Some(true),
            export_default_include_interfaces: Some(true),
        }),
        Request::GetAfkAudit(GetAfkAuditRequest { start_ts: None, end_ts: None, limit: Some(100) }),
        Request::UpsertAfkWindow(TimeRangeRequest { start_ts: 10, end_ts: 20 }),
        Request::IngestAttributedUsage(IngestAttributedUsageRequest {
            start_ts: 10,
            end_ts: 20,
            profile_name: Some("test".to_string()),
            source: Some("helper".to_string()),
            samples: vec![],
        }),
        Request::SetImportStatus(SetImportStatusRequest { status: "running".to_string(), progress_pct: 10 }),
        Request::GetInterfaces,
        Request::GetInterfaceBreakdown(InterfaceBreakdownRequest {
            start_ts: 0,
            end_ts: 100,
            interface_id: None,
            interface_type: None,
        }),
        Request::ListCapDefinitions,
        Request::UpsertCapDefinition(UpsertCapDefinitionRequest {
            id: None,
            scope: "global".to_string(),
            interface_guid: None,
            monthly_cap_bytes: 1000,
            is_active: true,
        }),
        Request::DeleteCapDefinition(DeleteCapDefinitionRequest { id: 1 }),
        Request::ListCapAlertEvents(ListCapAlertEventsRequest {
            start_ts: None,
            end_ts: None,
            scope: None,
            interface_guid: None,
            window_kind: None,
            threshold_kind: None,
            delivery_state: None,
            limit: Some(10),
        }),
        Request::MarkCapAlertEventsDelivered(MarkCapAlertEventsDeliveredRequest { event_ids: vec![1] }),
        Request::CompactDatabase,
    ];
    for request in requests {
        let reply = handle(&mut db, &request, 1_700_000_000);
        assert_eq!(error_code(&reply), None);
    }
}

#[test]
fn mark_cap_alert_events_delivered_rejects_invalid_event_ids() {
    let mut db = Db::new();
    let empty = Request::MarkCapAlertEventsDelivered(MarkCapAlertEventsDeliveredRequest { event_ids: vec![] });
    assert_eq!(error_code(&handle(&mut db, &empty, 1_700_000_000)), Some(400));

    let non_positive =
        Request::MarkCapAlertEventsDelivered(MarkCapAlertEventsDeliveredRequest { event_ids: vec![0, -1] });
    assert_eq!(error_code(&handle(&mut db, &non_positive, 1_700_000_000)), Some(400));
}

#[test]
fn daemon_status_payload_includes_retention_and_reliability_fields() {
    let mut db = Db::new();
    let reply = handle(&mut db, &Request::GetDaemonStatus, 1_700_000_000);
    match reply {
        Reply::Status(core) => {
            assert_eq!(core.retention.last_run_ts, 0);
            assert_eq!(core.retention.cutoff_ts, 0);
            assert_eq!(core.retention.deleted_usage_records, 0);
            assert_eq!(core.retention.deleted_afk_windows, 0);
            assert_eq!(core.retention.last_result, "never");
            assert_eq!(core.reliability.daemon_start_count, 0);
            assert_eq!(core.reliability.daemon_clean_exit_count, 0);
            assert_eq!(core.reliability.daemon_unexpected_exit_count, 0);
            assert_eq!(core.reliability.daemon_last_start_ts, 0);
            assert_eq!(core.reliability.daemon_last_exit_ts, 0);
            assert_eq!(core.reliability.daemon_last_error_ts, 0);
            assert_eq!(core.reliability.daemon_last_error_stage, "");
            assert_eq!(core.reliability.daemon_last_error_message, "");
            assert_eq!(core.reliability.poll_error_count, 0);
            assert_eq!(core.reliability.ipc_error_count, 0);
            assert_eq!(core.import_status, "idle");
            assert_eq!(core.import_progress_pct, 0);
            assert_eq!(core.last_helper_ingest_ts, 0);
        }
        _ => panic!("expected a status reply"),
    }
}

#[test]
fn uses_fallback_when_no_previous_poll() {
    let interval = resolve_observed_interval_secs(0, 1000, 60);
    assert_eq!(interval, 60);
}

#[test]
fn uses_elapsed_seconds_when_available() {
    let interval = resolve_observed_interval_secs(1000, 1125, 60);
    assert_eq!(interval, 125);
}

#[test]
fn protects_against_clock_regressions() {
    let interval = resolve_observed_interval_secs(1500, 1490, 60);
    assert_eq!(interval, 60);
}

#[test]
fn cap_validation_rejects_interface_scope_without_guid() {
    let result = validate_upsert_cap_request(&UpsertCapDefinitionRequest {
        id: None,
        scope: "interface".to_string(),
        interface_guid: None,
        monthly_cap_bytes: 1,
        is_active: true,
    });
    assert!(result.is_err());
}

#[test]
fn cap_validation_accepts_global_scope_without_guid() {
    let result = validate_upsert_cap_request(&UpsertCapDefinitionRequest {
        id: None,
        scope: "global".to_string(),
        interface_guid: None,
        monthly_cap_bytes: 1,
        is_active: true,
    });
    assert!(result.is_ok());
}

#[test]
fn cap_validation_rejects_unknown_scope_and_zero_cap() {
    let unknown = validate_upsert_cap_request(&UpsertCapDefinitionRequest {
        id: None,
        scope: "planet".to_string(),
        interface_guid: None,
        monthly_cap_bytes: 1,
        is_active: true,
    });
    assert!(unknown.is_err());
    let zero = validate_upsert_cap_request(&UpsertCapDefinitionRequest {
        id: None,
        scope: "global".to_string(),
        interface_guid: None,
        monthly_cap_bytes: 0,
        is_active: true,
    });
    assert!(zero.is_err());
}

#[test]
fn method_names_resolve() {
    assert_eq!(method_of(METHOD_GET_DAEMON_STATUS), Some(Method::GetDaemonStatus));
    assert_eq!(method_of(METHOD_MARK_CAP_ALERT_EVENTS_DELIVERED), Some(Method::MarkCapAlertEventsDelivered));
    assert_eq!(method_of(METHOD_SUBSCRIBE_EVENTS), None);
    assert_eq!(method_of("get_daemon_status"), None);
}

#[test]
fn poll_interval_change_is_reported() {
    let mut db = Db::new();
    let request = Request::SetSettings(SetSettingsRequest {
        poll_interval_seconds: Some(1),
        retention_days: None,
        afk_idle_threshold_seconds: None,
        onboarding_completed: None,
        export_default_granularity: None,
        export_default_include_summary: None,
        export_default_include_apps: None,
        export_default_include_interfaces: None,
    });
    match handle(&mut db, &request, 100) {
        Reply::SettingsApplied { poll_interval_seconds } => assert_eq!(poll_interval_seconds, Some(15)),
        _ => panic!("expected settings to be applied"),
    }
    assert_eq!(db.get_settings().poll_interval_seconds, 15);
}

#[test]
fn invalid_cap_request_answers_400() {
    let mut db = Db::new();
    let request = Request::UpsertCapDefinition(UpsertCapDefinitionRequest {
        id: None,
        scope: "interface".to_string(),
        interface_guid: None,
        monthly_cap_bytes: 10,
        is_active: true,
    });
    assert_eq!(error_code(&handle(&mut db, &request, 100)), Some(400));
}

#[test]
fn envelopes_are_checked_before_payloads() {
    assert!(matches!(request_method(MessageType::Request, "GET_SETTINGS"), Ok(Method::GetSettings)));
    match request_method(MessageType::Response, "GET_SETTINGS") {
        Err(Reply::Error { code, message }) => assert_eq!((code, message.as_str()), (400, "expected request message type")),
        _ => panic!("expected a 400"),
    }
    match request_method(MessageType::Request, "GET_USAGE_HEATMAP") {
        Err(Reply::Error { code, message }) => assert_eq!((code, message.as_str()), (404, "unsupported method")),
        _ => panic!("expected a 404"),
    }
}
