use vstd::prelude::*;
use super::map_get;
use super::settings::{settings_are, import_status_is, default_put, defaults_applied, start_map, clean_exit_map, increment_map, incremented, parsed_u64, parsed_i64, parsed_u32, parsed_bool, or_else, applied_map, clamp_int, granularity_seq};
use super::{Db, UsageV, InterfaceV, CapV};
use super::alerts::{EvalState, eval_caps, eval_result, cap_active, active_keys, ordered_caps, lemma_eval_covers, lemma_eval_noop};
use super::sort::lemma_sorted_from_unique;
use crate::seqs::keep;
use crate::contracts::{SetSettingsRequest, SettingsResponse};
use crate::num::{parse_u8_seq, lemma_parse_fmt_nat, lemma_parse_fmt_int, dec_seq, fmt_int_seq, parse_bool_seq, parse_u64_seq, parse_i64_seq};
use crate::text::{keyword_seq, trim_seq, trim_start_seq, trim_end_seq, lower_seq, is_ws};

verus! {

/// A stored count reads back as the number that was written.
pub proof fn lemma_count_roundtrip(n: u64)
    ensures
        parse_u64_seq(dec_seq(n as nat)) == Some(n),
{
    lemma_parse_fmt_nat(n as nat);
}

/// A stored timestamp reads back as the number that was written.
pub proof fn lemma_ts_roundtrip(ts: i64)
    ensures
        parse_i64_seq(fmt_int_seq(ts as int)) == Some(ts),
{
    lemma_parse_fmt_int(ts as int);
}

/// The stored flags `1` and `0` read back as true and false.
pub proof fn lemma_flag_roundtrip()
    ensures
        parse_bool_seq("1"@) == Some(true),
        parse_bool_seq("0"@) == Some(false),
{
    reveal_strlit("1");
    reveal_strlit("0");
    reveal_strlit("true");
    reveal_strlit("yes");
    reveal_strlit("on");
    assert(!is_ws('1'));
    assert(!is_ws('0'));
    assert(trim_start_seq("1"@) == "1"@);
    assert(trim_end_seq("1"@) == "1"@);
    assert(lower_seq("1"@) =~= "1"@);
    assert(keyword_seq("1"@) == "1"@);
    assert(trim_start_seq("0"@) == "0"@);
    assert(trim_end_seq("0"@) == "0"@);
    assert(lower_seq("0"@) =~= "0"@);
    assert(keyword_seq("0"@) == "0"@);
}

/// A start is counted, its time recorded, and a session opened; a session left open by the
/// previous run is counted as an unexpected exit, and only then.
pub proof fn lemma_start_is_counted(m: Map<Seq<char>, Seq<char>>, ts: i64)
    ensures
        ({
            let after = start_map(m, ts);
            let open = or_else(parsed_bool(map_get(m, "daemon_reliability_session_open"@)), false);
            &&& parsed_u64(map_get(after, "daemon_reliability_start_count"@)) == Some(
                incremented(m, "daemon_reliability_start_count"@),
            )
            &&& parsed_i64(map_get(after, "daemon_reliability_last_start_ts"@)) == Some(ts)
            &&& parsed_bool(map_get(after, "daemon_reliability_session_open"@)) == Some(true)
            &&& open ==> parsed_u64(map_get(after, "daemon_reliability_unexpected_exit_count"@))
                == Some(incremented(m, "daemon_reliability_unexpected_exit_count"@))
            &&& !open ==> map_get(after, "daemon_reliability_unexpected_exit_count"@) == map_get(
                m,
                "daemon_reliability_unexpected_exit_count"@,
            )
            &&& map_get(after, "daemon_reliability_clean_exit_count"@) == map_get(
                m,
                "daemon_reliability_clean_exit_count"@,
            )
        }),
{
    reveal_strlit("daemon_reliability_session_open");
    reveal_strlit("daemon_reliability_start_count");
    reveal_strlit("daemon_reliability_last_start_ts");
    reveal_strlit("daemon_reliability_unexpected_exit_count");
    reveal_strlit("daemon_reliability_clean_exit_count");
    let open_k = "daemon_reliability_session_open"@;
    let start_k = "daemon_reliability_start_count"@;
    let last_k = "daemon_reliability_last_start_ts"@;
    let unexp_k = "daemon_reliability_unexpected_exit_count"@;
    let clean_k = "daemon_reliability_clean_exit_count"@;
    assert(open_k.len() != start_k.len());
    assert(open_k.len() != last_k.len());
    assert(open_k.len() != unexp_k.len());
    assert(open_k.len() != clean_k.len());
    assert(start_k.len() != last_k.len());
    assert(start_k.len() != unexp_k.len());
    assert(start_k.len() != clean_k.len());
    assert(last_k.len() != unexp_k.len());
    assert(last_k.len() != clean_k.len());
    assert(unexp_k.len() != clean_k.len());
    let open = or_else(parsed_bool(map_get(m, open_k)), false);
    let m1 = if open { increment_map(m, unexp_k) } else { m };
    assert(map_get(m1, start_k) == map_get(m, start_k));
    assert(incremented(m1, start_k) == incremented(m, start_k));
    let m2 = increment_map(m1, start_k);
    let m3 = m2.insert(last_k, fmt_int_seq(ts as int));
    let after = m3.insert(open_k, "1"@);
    assert(after == start_map(m, ts));
    lemma_count_roundtrip(incremented(m, start_k));
    lemma_count_roundtrip(incremented(m, unexp_k));
    lemma_ts_roundtrip(ts);
    lemma_flag_roundtrip();
    assert(map_get(after, start_k) == Some(dec_seq(incremented(m, start_k) as nat)));
    assert(map_get(after, last_k) == Some(fmt_int_seq(ts as int)));
    assert(map_get(after, open_k) == Some("1"@));
    assert(map_get(after, unexp_k) == map_get(m1, unexp_k));
    assert(map_get(after, clean_k) == map_get(m, clean_k));
}

/// A clean exit is counted, its time recorded, and the session closed, so that the next
/// start counts no unexpected exit.
pub proof fn lemma_clean_exit_is_counted(m: Map<Seq<char>, Seq<char>>, ts: i64)
    ensures
        ({
            let after = clean_exit_map(m, ts);
            &&& parsed_u64(map_get(after, "daemon_reliability_clean_exit_count"@)) == Some(
                incremented(m, "daemon_reliability_clean_exit_count"@),
            )
            &&& parsed_i64(map_get(after, "daemon_reliability_last_exit_ts"@)) == Some(ts)
            &&& parsed_bool(map_get(after, "daemon_reliability_session_open"@)) == Some(false)
            &&& map_get(after, "daemon_reliability_start_count"@) == map_get(
                m,
                "daemon_reliability_start_count"@,
            )
        }),
{
    reveal_strlit("daemon_reliability_session_open");
    reveal_strlit("daemon_reliability_start_count");
    reveal_strlit("daemon_reliability_last_exit_ts");
    reveal_strlit("daemon_reliability_clean_exit_count");
    let open_k = "daemon_reliability_session_open"@;
    let start_k = "daemon_reliability_start_count"@;
    let last_k = "daemon_reliability_last_exit_ts"@;
    let clean_k = "daemon_reliability_clean_exit_count"@;
    assert(open_k.len() != start_k.len());
    assert(open_k[19] != last_k[19]);
    assert(open_k.len() != clean_k.len());
    assert(start_k.len() != last_k.len());
    assert(start_k.len() != clean_k.len());
    assert(last_k.len() != clean_k.len());
    lemma_count_roundtrip(incremented(m, clean_k));
    lemma_ts_roundtrip(ts);
    lemma_flag_roundtrip();
    let after = clean_exit_map(m, ts);
    assert(map_get(after, clean_k) == Some(dec_seq(incremented(m, clean_k) as nat)));
    assert(map_get(after, last_k) == Some(fmt_int_seq(ts as int)));
    assert(map_get(after, open_k) == Some("0"@));
    assert(map_get(after, start_k) == map_get(m, start_k));
}

/// A stored bounded number reads back as the clamped value that was written.
proof fn lemma_u32_roundtrip(x: u32, lo: int, hi: int)
    requires
        0 <= lo <= hi <= u32::MAX,
    ensures
        crate::num::parse_u32_seq(dec_seq(clamp_int(x as int, lo, hi) as nat)) == Some(clamp_int(x as int, lo, hi) as u32),
{
    lemma_parse_fmt_nat(clamp_int(x as int, lo, hi) as nat);
}

/// Normalizing a granularity twice gives what normalizing it once gives.
proof fn lemma_granularity_idempotent(g: Seq<char>)
    ensures
        granularity_seq(granularity_seq(g)) == granularity_seq(g),
{
    reveal_strlit("hour");
    reveal_strlit("week");
    reveal_strlit("month");
    reveal_strlit("day");
    let n = granularity_seq(g);
    assert(!is_ws(n[0]) && !is_ws(n[n.len() - 1]));
    assert(trim_start_seq(n) == n);
    assert(trim_end_seq(n) == n);
    assert(lower_seq(n) =~= n);
}

/// Each setting a settings request gives is read back as stored: numbers within their
/// ranges, flags as given, the granularity normalized; each one not given reads as before.
pub proof fn lemma_settings_read_back(m: Map<Seq<char>, Seq<char>>, req: SetSettingsRequest)
    ensures
        ({
            let after = applied_map(m, req);
            &&& req.poll_interval_seconds matches Some(p) ==> parsed_u32(map_get(after, "poll_interval_seconds"@))
                == Some(clamp_int(p as int, 15, 300) as u32)
            &&& req.poll_interval_seconds is None ==> map_get(after, "poll_interval_seconds"@) == map_get(m, "poll_interval_seconds"@)
            &&& req.retention_days matches Some(d) ==> parsed_u32(map_get(after, "retention_days"@)) == Some(
                clamp_int(d as int, 0, 3650) as u32,
            )
            &&& req.retention_days is None ==> map_get(after, "retention_days"@) == map_get(m, "retention_days"@)
            &&& req.afk_idle_threshold_seconds matches Some(a) ==> parsed_u32(
                map_get(after, "afk_idle_threshold_seconds"@),
            ) == Some(clamp_int(a as int, 30, 3600) as u32)
            &&& req.afk_idle_threshold_seconds is None ==> map_get(after, "afk_idle_threshold_seconds"@) == map_get(m, "afk_idle_threshold_seconds"@)
            &&& req.onboarding_completed matches Some(b) ==> parsed_bool(map_get(after, "onboarding_completed"@))
                == Some(b)
            &&& req.onboarding_completed is None ==> map_get(after, "onboarding_completed"@) == map_get(m, "onboarding_completed"@)
            &&& req.export_default_granularity is None ==> map_get(after, "export_default_granularity"@) == map_get(
                m,
                "export_default_granularity"@,
            )
            &&& req.export_default_include_summary is None ==> map_get(after, "export_default_include_summary"@)
                == map_get(m, "export_default_include_summary"@)
            &&& req.export_default_include_apps is None ==> map_get(after, "export_default_include_apps"@) == map_get(
                m,
                "export_default_include_apps"@,
            )
            &&& req.export_default_include_interfaces is None ==> map_get(after, "export_default_include_interfaces"@)
                == map_get(m, "export_default_include_interfaces"@)
            &&& req.export_default_granularity matches Some(g) ==> map_get(after, "export_default_granularity"@)
                == Some(granularity_seq(g@)) && granularity_seq(granularity_seq(g@)) == granularity_seq(g@)
            &&& req.export_default_include_summary matches Some(b) ==> parsed_bool(
                map_get(after, "export_default_include_summary"@),
            ) == Some(b)
            &&& req.export_default_include_apps matches Some(b) ==> parsed_bool(
                map_get(after, "export_default_include_apps"@),
            ) == Some(b)
            &&& req.export_default_include_interfaces matches Some(b) ==> parsed_bool(
                map_get(after, "export_default_include_interfaces"@),
            ) == Some(b)
        }),
{
    reveal_strlit("poll_interval_seconds");
    reveal_strlit("retention_days");
    reveal_strlit("afk_idle_threshold_seconds");
    reveal_strlit("onboarding_completed");
    reveal_strlit("export_default_granularity");
    reveal_strlit("export_default_include_summary");
    reveal_strlit("export_default_include_apps");
    reveal_strlit("export_default_include_interfaces");
    assert("poll_interval_seconds"@.len() == 21);
    assert("retention_days"@.len() == 14);
    assert("afk_idle_threshold_seconds"@.len() == 26);
    assert("onboarding_completed"@.len() == 20);
    assert("export_default_granularity"@.len() == 26);
    assert("export_default_include_summary"@.len() == 30);
    assert("export_default_include_apps"@.len() == 27);
    assert("export_default_include_interfaces"@.len() == 33);
    assert("afk_idle_threshold_seconds"@[0] != "export_default_granularity"@[0]);
    assert("afk_idle_threshold_seconds"@ != "export_default_granularity"@);
    lemma_flag_roundtrip();
    if let Some(p) = req.poll_interval_seconds {
        lemma_u32_roundtrip(p, 15, 300);
    }
    if let Some(d) = req.retention_days {
        lemma_u32_roundtrip(d, 0, 3650);
    }
    if let Some(a) = req.afk_idle_threshold_seconds {
        lemma_u32_roundtrip(a, 30, 3600);
    }
    if let Some(g) = req.export_default_granularity {
        lemma_granularity_idempotent(g@);
    }
}

/// Settings read back after a settings request: `get_settings` reports each field the
/// request gave as stored (numbers within their ranges, the granularity normalized, flags as
/// given) and each field it left out as it reported before.
pub proof fn lemma_settings_reply_after_apply(
    before: &Db,
    after: &Db,
    req: SetSettingsRequest,
    s0: SettingsResponse,
    s1: SettingsResponse,
)
    requires
        after.setting_map() == applied_map(before.setting_map(), req),
        settings_are(before, s0),
        settings_are(after, s1),
    ensures
        s1.poll_interval_seconds == (match req.poll_interval_seconds {
            Some(p) => clamp_int(p as int, 15, 300),
            None => s0.poll_interval_seconds as int,
        }),
        s1.retention_days == (match req.retention_days {
            Some(d) => clamp_int(d as int, 0, 3650),
            None => s0.retention_days as int,
        }),
        s1.afk_idle_threshold_seconds == (match req.afk_idle_threshold_seconds {
            Some(a) => clamp_int(a as int, 30, 3600),
            None => s0.afk_idle_threshold_seconds as int,
        }),
        s1.onboarding_completed == (match req.onboarding_completed {
            Some(b) => b,
            None => s0.onboarding_completed,
        }),
        s1.export_default_granularity@ == (match req.export_default_granularity {
            Some(g) => granularity_seq(g@),
            None => s0.export_default_granularity@,
        }),
        s1.export_default_include_summary == (match req.export_default_include_summary {
            Some(b) => b,
            None => s0.export_default_include_summary,
        }),
        s1.export_default_include_apps == (match req.export_default_include_apps {
            Some(b) => b,
            None => s0.export_default_include_apps,
        }),
        s1.export_default_include_interfaces == (match req.export_default_include_interfaces {
            Some(b) => b,
            None => s0.export_default_include_interfaces,
        }),
{
    lemma_settings_read_back(before.setting_map(), req);
}

/// The import status reads back as written, the progress capped at 100.
pub proof fn lemma_import_status_read_back(before: &Db, after: &Db, status: Seq<char>, pct: u8, r: (String, u8))
    requires
        after.setting_map() == before.setting_map().insert("import_status"@, status).insert(
            "import_progress_pct"@,
            dec_seq(pct as nat),
        ),
        import_status_is(after, r),
    ensures
        r.0@ == status,
        r.1 == (if pct > 100 { 100 } else { pct }),
{
    reveal_strlit("import_status");
    reveal_strlit("import_progress_pct");
    assert("import_status"@.len() != "import_progress_pct"@.len());
    lemma_parse_fmt_nat(pct as nat);
    assert(parse_u8_seq(dec_seq(pct as nat)) == Some(pct));
}

/// Evaluating cap alerts again right after a successful evaluation, at the same time,
/// raises nothing and changes nothing.
pub proof fn lemma_evaluate_idempotent(
    rs: Seq<UsageV>,
    ifs: Seq<InterfaceV>,
    now_ts: i64,
    caps: Seq<CapV>,
    st: EvalState,
)
    requires
        eval_caps(rs, ifs, now_ts, caps, st).1 is None,
    ensures
        ({
            let done = eval_caps(rs, ifs, now_ts, caps, st).0;
            let again = EvalState { events: done.events, last: done.last, count: 0 };
            eval_caps(rs, ifs, now_ts, caps, again) == (again, None::<super::DbError>)
        }),
{
    lemma_eval_covers(rs, ifs, now_ts, caps, st);
    let done = eval_caps(rs, ifs, now_ts, caps, st).0;
    let again = EvalState { events: done.events, last: done.last, count: 0 };
    lemma_eval_noop(rs, ifs, now_ts, caps, again);
}

/// Two evaluations of a store at the same time, the second on what the first left: the
/// second raises no alert and leaves the events as they were.
pub proof fn lemma_evaluate_twice(
    db0: &Db,
    db1: &Db,
    db2: &Db,
    now_ts: i64,
    s1: Seq<crate::db::sort::KeyV>,
    s2: Seq<crate::db::sort::KeyV>,
    r1: Result<usize, super::DbError>,
    r2: Result<usize, super::DbError>,
)
    requires
        eval_result(db0, db1, now_ts, s1, r1),
        r1 is Ok,
        db1.same_caps(db0),
        db1.same_usage(db0),
        db1.same_interfaces(db0),
        eval_result(db1, db2, now_ts, s2, r2),
    ensures
        r2 == Ok::<usize, super::DbError>(0),
        db2.events() == db1.events(),
        db2.last_event() == db1.last_event(),
{
    assert(db1.caps() == db0.caps());
    assert(db1.usage() == db0.usage());
    assert(db1.interfaces() == db0.interfaces());
    let act = keep(db0.caps(), cap_active());
    lemma_sorted_from_unique(active_keys(act), s1, s2);
    let st0 = EvalState { events: db0.events(), last: db0.last_event(), count: 0 };
    lemma_evaluate_idempotent(db0.usage(), db0.interfaces(), now_ts, ordered_caps(act, s1), st0);
}


/// The settings that opening a store keeps: the onboarding state, the import status, the
/// cleanup records and the reliability counters (the collector's configuration is reset).
pub open spec fn kept_on_open(k: Seq<char>) -> bool {
    ||| k == "onboarding_completed"@
    ||| k == "import_status"@
    ||| k == "import_progress_pct"@
    ||| k == "retention_cleanup_last_run_ts"@
    ||| k == "retention_cleanup_last_run_day_start_ts"@
    ||| k == "retention_cleanup_cutoff_ts"@
    ||| k == "retention_cleanup_deleted_usage_records"@
    ||| k == "retention_cleanup_deleted_afk_windows"@
    ||| k == "retention_cleanup_last_result"@
    ||| k == "daemon_reliability_session_open"@
    ||| k == "daemon_reliability_start_count"@
    ||| k == "daemon_reliability_clean_exit_count"@
    ||| k == "daemon_reliability_unexpected_exit_count"@
    ||| k == "daemon_reliability_last_start_ts"@
    ||| k == "daemon_reliability_last_exit_ts"@
    ||| k == "daemon_reliability_last_error_ts"@
    ||| k == "daemon_reliability_last_error_stage"@
    ||| k == "daemon_reliability_last_error_message"@
    ||| k == "daemon_reliability_poll_error_count"@
    ||| k == "daemon_reliability_ipc_error_count"@
}

/// Keys of kept settings start with `d`, `o` or `i`, or with `r` and have `c` at index 10.
proof fn lemma_kept_key_shape(k: Seq<char>)
    requires
        kept_on_open(k),
    ensures
        k.len() > 10,
        k[0] == 'd' || k[0] == 'o' || k[0] == 'i' || (k[0] == 'r' && k[10] == 'c'),
{
    reveal_strlit("onboarding_completed");
    reveal_strlit("import_status");
    reveal_strlit("import_progress_pct");
    reveal_strlit("retention_cleanup_last_run_ts");
    reveal_strlit("retention_cleanup_last_run_day_start_ts");
    reveal_strlit("retention_cleanup_cutoff_ts");
    reveal_strlit("retention_cleanup_deleted_usage_records");
    reveal_strlit("retention_cleanup_deleted_afk_windows");
    reveal_strlit("retention_cleanup_last_result");
    reveal_strlit("daemon_reliability_session_open");
    reveal_strlit("daemon_reliability_start_count");
    reveal_strlit("daemon_reliability_clean_exit_count");
    reveal_strlit("daemon_reliability_unexpected_exit_count");
    reveal_strlit("daemon_reliability_last_start_ts");
    reveal_strlit("daemon_reliability_last_exit_ts");
    reveal_strlit("daemon_reliability_last_error_ts");
    reveal_strlit("daemon_reliability_last_error_stage");
    reveal_strlit("daemon_reliability_last_error_message");
    reveal_strlit("daemon_reliability_poll_error_count");
    reveal_strlit("daemon_reliability_ipc_error_count");
}

/// No kept setting is a configuration key.
proof fn lemma_kept_not_config(k: Seq<char>)
    requires
        k.len() > 10,
        k[0] == 'd' || k[0] == 'o' || k[0] == 'i' || (k[0] == 'r' && k[10] == 'c'),
    ensures
        k != "poll_interval_seconds"@,
        k != "retention_days"@,
        k != "afk_idle_threshold_seconds"@,
        k != "export_default_granularity"@,
        k != "export_default_include_summary"@,
        k != "export_default_include_apps"@,
        k != "export_default_include_interfaces"@,
{
    reveal_strlit("poll_interval_seconds");
    reveal_strlit("retention_days");
    reveal_strlit("afk_idle_threshold_seconds");
    reveal_strlit("export_default_granularity");
    reveal_strlit("export_default_include_summary");
    reveal_strlit("export_default_include_apps");
    reveal_strlit("export_default_include_interfaces");
    assert(k[0] != "poll_interval_seconds"@[0]);
    assert(k[0] != "retention_days"@[0] || k[10] != "retention_days"@[10]);
    assert(k[0] != "afk_idle_threshold_seconds"@[0]);
    assert(k[0] != "export_default_granularity"@[0]);
    assert(k[0] != "export_default_include_summary"@[0]);
    assert(k[0] != "export_default_include_apps"@[0]);
    assert(k[0] != "export_default_include_interfaces"@[0]);
}

/// A default leaves a present key alone unless it is written over that very key.
proof fn lemma_default_keeps(
    p: (Map<Seq<char>, Seq<char>>, Map<Seq<char>, i64>),
    key: Seq<char>,
    v: Seq<char>,
    overwrite: bool,
    k: Seq<char>,
)
    requires
        p.0.dom().contains(k),
        p.1.dom().contains(k),
        overwrite ==> key != k,
    ensures
        default_put(p, key, v, overwrite).0.dom().contains(k),
        default_put(p, key, v, overwrite).1.dom().contains(k),
        default_put(p, key, v, overwrite).0[k] == p.0[k],
        default_put(p, key, v, overwrite).1[k] == p.1[k],
{
}

/// Reopening a store keeps every stored onboarding state, import status, cleanup record and
/// reliability counter, value and update time: the start count, the open session, the last
/// cleanup day and the import progress survive a restart.
pub proof fn lemma_reopen_keeps_records(m: Map<Seq<char>, Seq<char>>, st: Map<Seq<char>, i64>, k: Seq<char>)
    requires
        kept_on_open(k),
        m.dom().contains(k),
        st.dom().contains(k),
    ensures
        defaults_applied((m, st)).0.dom().contains(k),
        defaults_applied((m, st)).0[k] == m[k],
        defaults_applied((m, st)).1[k] == st[k],
{
    lemma_kept_key_shape(k);
    lemma_kept_not_config(k);
    let p0 = (m, st);
    let p1 = default_put(p0, "poll_interval_seconds"@, "60"@, true);
    lemma_default_keeps(p0, "poll_interval_seconds"@, "60"@, true, k);
    let p2 = default_put(p1, "retention_days"@, "0"@, true);
    lemma_default_keeps(p1, "retention_days"@, "0"@, true, k);
    let p3 = default_put(p2, "afk_idle_threshold_seconds"@, "300"@, true);
    lemma_default_keeps(p2, "afk_idle_threshold_seconds"@, "300"@, true, k);
    let p4 = default_put(p3, "onboarding_completed"@, "0"@, false);
    lemma_default_keeps(p3, "onboarding_completed"@, "0"@, false, k);
    let p5 = default_put(p4, "export_default_granularity"@, "day"@, true);
    lemma_default_keeps(p4, "export_default_granularity"@, "day"@, true, k);
    let p6 = default_put(p5, "export_default_include_summary"@, "1"@, true);
    lemma_default_keeps(p5, "export_default_include_summary"@, "1"@, true, k);
    let p7 = default_put(p6, "export_default_include_apps"@, "1"@, true);
    lemma_default_keeps(p6, "export_default_include_apps"@, "1"@, true, k);
    let p8 = default_put(p7, "export_default_include_interfaces"@, "1"@, true);
    lemma_default_keeps(p7, "export_default_include_interfaces"@, "1"@, true, k);
    let p9 = default_put(p8, "import_status"@, "idle"@, false);
    lemma_default_keeps(p8, "import_status"@, "idle"@, false, k);
    let p10 = default_put(p9, "import_progress_pct"@, "0"@, false);
    lemma_default_keeps(p9, "import_progress_pct"@, "0"@, false, k);
    let p11 = default_put(p10, "retention_cleanup_last_run_ts"@, "0"@, false);
    lemma_default_keeps(p10, "retention_cleanup_last_run_ts"@, "0"@, false, k);
    let p12 = default_put(p11, "retention_cleanup_last_run_day_start_ts"@, "0"@, false);
    lemma_default_keeps(p11, "retention_cleanup_last_run_day_start_ts"@, "0"@, false, k);
    let p13 = default_put(p12, "retention_cleanup_cutoff_ts"@, "0"@, false);
    lemma_default_keeps(p12, "retention_cleanup_cutoff_ts"@, "0"@, false, k);
    let p14 = default_put(p13, "retention_cleanup_deleted_usage_records"@, "0"@, false);
    lemma_default_keeps(p13, "retention_cleanup_deleted_usage_records"@, "0"@, false, k);
    let p15 = default_put(p14, "retention_cleanup_deleted_afk_windows"@, "0"@, false);
    lemma_default_keeps(p14, "retention_cleanup_deleted_afk_windows"@, "0"@, false, k);
    let p16 = default_put(p15, "retention_cleanup_last_result"@, "never"@, false);
    lemma_default_keeps(p15, "retention_cleanup_last_result"@, "never"@, false, k);
    let p17 = default_put(p16, "daemon_reliability_session_open"@, "0"@, false);
    lemma_default_keeps(p16, "daemon_reliability_session_open"@, "0"@, false, k);
    let p18 = default_put(p17, "daemon_reliability_start_count"@, "0"@, false);
    lemma_default_keeps(p17, "daemon_reliability_start_count"@, "0"@, false, k);
    let p19 = default_put(p18, "daemon_reliability_clean_exit_count"@, "0"@, false);
    lemma_default_keeps(p18, "daemon_reliability_clean_exit_count"@, "0"@, false, k);
    let p20 = default_put(p19, "daemon_reliability_unexpected_exit_count"@, "0"@, false);
    lemma_default_keeps(p19, "daemon_reliability_unexpected_exit_count"@, "0"@, false, k);
    let p21 = default_put(p20, "daemon_reliability_last_start_ts"@, "0"@, false);
    lemma_default_keeps(p20, "daemon_reliability_last_start_ts"@, "0"@, false, k);
    let p22 = default_put(p21, "daemon_reliability_last_exit_ts"@, "0"@, false);
    lemma_default_keeps(p21, "daemon_reliability_last_exit_ts"@, "0"@, false, k);
    let p23 = default_put(p22, "daemon_reliability_last_error_ts"@, "0"@, false);
    lemma_default_keeps(p22, "daemon_reliability_last_error_ts"@, "0"@, false, k);
    let p24 = default_put(p23, "daemon_reliability_last_error_stage"@, ""@, false);
    lemma_default_keeps(p23, "daemon_reliability_last_error_stage"@, ""@, false, k);
    let p25 = default_put(p24, "daemon_reliability_last_error_message"@, ""@, false);
    lemma_default_keeps(p24, "daemon_reliability_last_error_message"@, ""@, false, k);
    let p26 = default_put(p25, "daemon_reliability_poll_error_count"@, "0"@, false);
    lemma_default_keeps(p25, "daemon_reliability_poll_error_count"@, "0"@, false, k);
    let p27 = default_put(p26, "daemon_reliability_ipc_error_count"@, "0"@, false);
    lemma_default_keeps(p26, "daemon_reliability_ipc_error_count"@, "0"@, false, k);
    assert(defaults_applied((m, st)) == p27);
}

/// A default writes its key when it may, and otherwise leaves other keys alone.
proof fn lemma_default_other(
    p: (Map<Seq<char>, Seq<char>>, Map<Seq<char>, i64>),
    key: Seq<char>,
    v: Seq<char>,
    overwrite: bool,
    k: Seq<char>,
)
    requires
        key != k,
    ensures
        default_put(p, key, v, overwrite).0.dom().contains(k) == p.0.dom().contains(k),
        p.0.dom().contains(k) ==> default_put(p, key, v, overwrite).0[k] == p.0[k],
{
}

/// A fresh store reports the import as `idle` at 0 %.
pub proof fn lemma_fresh_import_status(db: &Db, r: (String, u8))
    requires
        (db.setting_map(), db.stamp_map()) == defaults_applied(
            (Map::<Seq<char>, Seq<char>>::empty(), Map::<Seq<char>, i64>::empty()),
        ),
        import_status_is(db, r),
    ensures
        r.0@ == "idle"@,
        r.1 == 0,
{
    let ks = "import_status"@;
    let kp = "import_progress_pct"@;
    reveal_strlit("poll_interval_seconds");
    reveal_strlit("retention_days");
    reveal_strlit("afk_idle_threshold_seconds");
    reveal_strlit("onboarding_completed");
    reveal_strlit("export_default_granularity");
    reveal_strlit("export_default_include_summary");
    reveal_strlit("export_default_include_apps");
    reveal_strlit("export_default_include_interfaces");
    reveal_strlit("import_status");
    reveal_strlit("import_progress_pct");
    reveal_strlit("retention_cleanup_last_run_ts");
    reveal_strlit("retention_cleanup_last_run_day_start_ts");
    reveal_strlit("retention_cleanup_cutoff_ts");
    reveal_strlit("retention_cleanup_deleted_usage_records");
    reveal_strlit("retention_cleanup_deleted_afk_windows");
    reveal_strlit("retention_cleanup_last_result");
    reveal_strlit("daemon_reliability_session_open");
    reveal_strlit("daemon_reliability_start_count");
    reveal_strlit("daemon_reliability_clean_exit_count");
    reveal_strlit("daemon_reliability_unexpected_exit_count");
    reveal_strlit("daemon_reliability_last_start_ts");
    reveal_strlit("daemon_reliability_last_exit_ts");
    reveal_strlit("daemon_reliability_last_error_ts");
    reveal_strlit("daemon_reliability_last_error_stage");
    reveal_strlit("daemon_reliability_last_error_message");
    reveal_strlit("daemon_reliability_poll_error_count");
    reveal_strlit("daemon_reliability_ipc_error_count");
    reveal_strlit("idle");
    assert(ks.len() != "import_progress_pct"@.len());
    assert(ks[0] == 'i');
    assert("import_progress_pct"@[0] == 'i');
    reveal_strlit("0");
    let p0 = (Map::<Seq<char>, Seq<char>>::empty(), Map::<Seq<char>, i64>::empty());
    let p1 = default_put(p0, "poll_interval_seconds"@, "60"@, true);
    assert("poll_interval_seconds"@[0] != ks[0]);
    lemma_default_other(p0, "poll_interval_seconds"@, "60"@, true, ks);
    assert("poll_interval_seconds"@[0] != kp[0]);
    lemma_default_other(p0, "poll_interval_seconds"@, "60"@, true, kp);
    let p2 = default_put(p1, "retention_days"@, "0"@, true);
    assert("retention_days"@[0] != ks[0]);
    lemma_default_other(p1, "retention_days"@, "0"@, true, ks);
    assert("retention_days"@[0] != kp[0]);
    lemma_default_other(p1, "retention_days"@, "0"@, true, kp);
    let p3 = default_put(p2, "afk_idle_threshold_seconds"@, "300"@, true);
    assert("afk_idle_threshold_seconds"@[0] != ks[0]);
    lemma_default_other(p2, "afk_idle_threshold_seconds"@, "300"@, true, ks);
    assert("afk_idle_threshold_seconds"@[0] != kp[0]);
    lemma_default_other(p2, "afk_idle_threshold_seconds"@, "300"@, true, kp);
    let p4 = default_put(p3, "onboarding_completed"@, "0"@, false);
    assert("onboarding_completed"@[0] != ks[0]);
    lemma_default_other(p3, "onboarding_completed"@, "0"@, false, ks);
    assert("onboarding_completed"@[0] != kp[0]);
    lemma_default_other(p3, "onboarding_completed"@, "0"@, false, kp);
    let p5 = default_put(p4, "export_default_granularity"@, "day"@, true);
    assert("export_default_granularity"@[0] != ks[0]);
    lemma_default_other(p4, "export_default_granularity"@, "day"@, true, ks);
    assert("export_default_granularity"@[0] != kp[0]);
    lemma_default_other(p4, "export_default_granularity"@, "day"@, true, kp);
    let p6 = default_put(p5, "export_default_include_summary"@, "1"@, true);
    assert("export_default_include_summary"@[0] != ks[0]);
    lemma_default_other(p5, "export_default_include_summary"@, "1"@, true, ks);
    assert("export_default_include_summary"@[0] != kp[0]);
    lemma_default_other(p5, "export_default_include_summary"@, "1"@, true, kp);
    let p7 = default_put(p6, "export_default_include_apps"@, "1"@, true);
    assert("export_default_include_apps"@[0] != ks[0]);
    lemma_default_other(p6, "export_default_include_apps"@, "1"@, true, ks);
    assert("export_default_include_apps"@[0] != kp[0]);
    lemma_default_other(p6, "export_default_include_apps"@, "1"@, true, kp);
    let p8 = default_put(p7, "export_default_include_interfaces"@, "1"@, true);
    assert("export_default_include_interfaces"@[0] != ks[0]);
    lemma_default_other(p7, "export_default_include_interfaces"@, "1"@, true, ks);
    assert("export_default_include_interfaces"@[0] != kp[0]);
    lemma_default_other(p7, "export_default_include_interfaces"@, "1"@, true, kp);
    let p9 = default_put(p8, "import_status"@, "idle"@, false);
    assert(!p8.0.dom().contains(ks));
    assert(p9.0[ks] == "idle"@);
    lemma_default_other(p8, "import_status"@, "idle"@, false, kp);
    let p10 = default_put(p9, "import_progress_pct"@, "0"@, false);
    assert(!p9.0.dom().contains(kp));
    assert(p10.0[kp] == "0"@);
    lemma_default_other(p9, "import_progress_pct"@, "0"@, false, ks);
    let p11 = default_put(p10, "retention_cleanup_last_run_ts"@, "0"@, false);
    assert("retention_cleanup_last_run_ts"@[0] != ks[0]);
    lemma_default_other(p10, "retention_cleanup_last_run_ts"@, "0"@, false, ks);
    assert("retention_cleanup_last_run_ts"@[0] != kp[0]);
    lemma_default_other(p10, "retention_cleanup_last_run_ts"@, "0"@, false, kp);
    let p12 = default_put(p11, "retention_cleanup_last_run_day_start_ts"@, "0"@, false);
    assert("retention_cleanup_last_run_day_start_ts"@[0] != ks[0]);
    lemma_default_other(p11, "retention_cleanup_last_run_day_start_ts"@, "0"@, false, ks);
    assert("retention_cleanup_last_run_day_start_ts"@[0] != kp[0]);
    lemma_default_other(p11, "retention_cleanup_last_run_day_start_ts"@, "0"@, false, kp);
    let p13 = default_put(p12, "retention_cleanup_cutoff_ts"@, "0"@, false);
    assert("retention_cleanup_cutoff_ts"@[0] != ks[0]);
    lemma_default_other(p12, "retention_cleanup_cutoff_ts"@, "0"@, false, ks);
    assert("retention_cleanup_cutoff_ts"@[0] != kp[0]);
    lemma_default_other(p12, "retention_cleanup_cutoff_ts"@, "0"@, false, kp);
    let p14 = default_put(p13, "retention_cleanup_deleted_usage_records"@, "0"@, false);
    assert("retention_cleanup_deleted_usage_records"@[0] != ks[0]);
    lemma_default_other(p13, "retention_cleanup_deleted_usage_records"@, "0"@, false, ks);
    assert("retention_cleanup_deleted_usage_records"@[0] != kp[0]);
    lemma_default_other(p13, "retention_cleanup_deleted_usage_records"@, "0"@, false, kp);
    let p15 = default_put(p14, "retention_cleanup_deleted_afk_windows"@, "0"@, false);
    assert("retention_cleanup_deleted_afk_windows"@[0] != ks[0]);
    lemma_default_other(p14, "retention_cleanup_deleted_afk_windows"@, "0"@, false, ks);
    assert("retention_cleanup_deleted_afk_windows"@[0] != kp[0]);
    lemma_default_other(p14, "retention_cleanup_deleted_afk_windows"@, "0"@, false, kp);
    let p16 = default_put(p15, "retention_cleanup_last_result"@, "never"@, false);
    assert("retention_cleanup_last_result"@[0] != ks[0]);
    lemma_default_other(p15, "retention_cleanup_last_result"@, "never"@, false, ks);
    assert("retention_cleanup_last_result"@[0] != kp[0]);
    lemma_default_other(p15, "retention_cleanup_last_result"@, "never"@, false, kp);
    let p17 = default_put(p16, "daemon_reliability_session_open"@, "0"@, false);
    assert("daemon_reliability_session_open"@[0] != ks[0]);
    lemma_default_other(p16, "daemon_reliability_session_open"@, "0"@, false, ks);
    assert("daemon_reliability_session_open"@[0] != kp[0]);
    lemma_default_other(p16, "daemon_reliability_session_open"@, "0"@, false, kp);
    let p18 = default_put(p17, "daemon_reliability_start_count"@, "0"@, false);
    assert("daemon_reliability_start_count"@[0] != ks[0]);
    lemma_default_other(p17, "daemon_reliability_start_count"@, "0"@, false, ks);
    assert("daemon_reliability_start_count"@[0] != kp[0]);
    lemma_default_other(p17, "daemon_reliability_start_count"@, "0"@, false, kp);
    let p19 = default_put(p18, "daemon_reliability_clean_exit_count"@, "0"@, false);
    assert("daemon_reliability_clean_exit_count"@[0] != ks[0]);
    lemma_default_other(p18, "daemon_reliability_clean_exit_count"@, "0"@, false, ks);
    assert("daemon_reliability_clean_exit_count"@[0] != kp[0]);
    lemma_default_other(p18, "daemon_reliability_clean_exit_count"@, "0"@, false, kp);
    let p20 = default_put(p19, "daemon_reliability_unexpected_exit_count"@, "0"@, false);
    assert("daemon_reliability_unexpected_exit_count"@[0] != ks[0]);
    lemma_default_other(p19, "daemon_reliability_unexpected_exit_count"@, "0"@, false, ks);
    assert("daemon_reliability_unexpected_exit_count"@[0] != kp[0]);
    lemma_default_other(p19, "daemon_reliability_unexpected_exit_count"@, "0"@, false, kp);
    let p21 = default_put(p20, "daemon_reliability_last_start_ts"@, "0"@, false);
    assert("daemon_reliability_last_start_ts"@[0] != ks[0]);
    lemma_default_other(p20, "daemon_reliability_last_start_ts"@, "0"@, false, ks);
    assert("daemon_reliability_last_start_ts"@[0] != kp[0]);
    lemma_default_other(p20, "daemon_reliability_last_start_ts"@, "0"@, false, kp);
    let p22 = default_put(p21, "daemon_reliability_last_exit_ts"@, "0"@, false);
    assert("daemon_reliability_last_exit_ts"@[0] != ks[0]);
    lemma_default_other(p21, "daemon_reliability_last_exit_ts"@, "0"@, false, ks);
    assert("daemon_reliability_last_exit_ts"@[0] != kp[0]);
    lemma_default_other(p21, "daemon_reliability_last_exit_ts"@, "0"@, false, kp);
    let p23 = default_put(p22, "daemon_reliability_last_error_ts"@, "0"@, false);
    assert("daemon_reliability_last_error_ts"@[0] != ks[0]);
    lemma_default_other(p22, "daemon_reliability_last_error_ts"@, "0"@, false, ks);
    assert("daemon_reliability_last_error_ts"@[0] != kp[0]);
    lemma_default_other(p22, "daemon_reliability_last_error_ts"@, "0"@, false, kp);
    let p24 = default_put(p23, "daemon_reliability_last_error_stage"@, ""@, false);
    assert("daemon_reliability_last_error_stage"@[0] != ks[0]);
    lemma_default_other(p23, "daemon_reliability_last_error_stage"@, ""@, false, ks);
    assert("daemon_reliability_last_error_stage"@[0] != kp[0]);
    lemma_default_other(p23, "daemon_reliability_last_error_stage"@, ""@, false, kp);
    let p25 = default_put(p24, "daemon_reliability_last_error_message"@, ""@, false);
    assert("daemon_reliability_last_error_message"@[0] != ks[0]);
    lemma_default_other(p24, "daemon_reliability_last_error_message"@, ""@, false, ks);
    assert("daemon_reliability_last_error_message"@[0] != kp[0]);
    lemma_default_other(p24, "daemon_reliability_last_error_message"@, ""@, false, kp);
    let p26 = default_put(p25, "daemon_reliability_poll_error_count"@, "0"@, false);
    assert("daemon_reliability_poll_error_count"@[0] != ks[0]);
    lemma_default_other(p25, "daemon_reliability_poll_error_count"@, "0"@, false, ks);
    assert("daemon_reliability_poll_error_count"@[0] != kp[0]);
    lemma_default_other(p25, "daemon_reliability_poll_error_count"@, "0"@, false, kp);
    let p27 = default_put(p26, "daemon_reliability_ipc_error_count"@, "0"@, false);
    assert("daemon_reliability_ipc_error_count"@[0] != ks[0]);
    lemma_default_other(p26, "daemon_reliability_ipc_error_count"@, "0"@, false, ks);
    assert("daemon_reliability_ipc_error_count"@[0] != kp[0]);
    lemma_default_other(p26, "daemon_reliability_ipc_error_count"@, "0"@, false, kp);
    assert(defaults_applied(p0) == p27);
    assert(db.setting("import_status"@) == Some("idle"@));
    assert(db.setting("import_progress_pct"@) == Some("0"@));
    crate::num::lemma_parse_fmt_nat(0);
    assert(dec_seq(0) =~= "0"@);
    assert(parse_u8_seq("0"@) == Some(0u8));
}

} // verus!
