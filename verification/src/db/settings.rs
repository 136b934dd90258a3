use vstd::prelude::*;
use super::Db;
use crate::num::{parse_u32_seq, parse_u64_seq, parse_i64_seq, parse_u8_seq, parse_bool_seq, parse_u32, parse_u64, parse_i64, parse_u8, parse_bool, fmt_u64, fmt_i64, dec_seq, fmt_int_seq};
use crate::text::{keyword, keyword_seq, chars_eq_str, trim_seq, trim_vec, chars_of, string_of, take_vec};
use crate::contracts::{SettingsResponse, SetSettingsRequest};

verus! {

pub open spec fn parsed_u32(v: Option<Seq<char>>) -> Option<u32> {
    match v {
        Some(s) => parse_u32_seq(s),
        None => None,
    }
}

pub open spec fn parsed_u64(v: Option<Seq<char>>) -> Option<u64> {
    match v {
        Some(s) => parse_u64_seq(s),
        None => None,
    }
}

pub open spec fn parsed_i64(v: Option<Seq<char>>) -> Option<i64> {
    match v {
        Some(s) => parse_i64_seq(s),
        None => None,
    }
}

pub open spec fn parsed_u8(v: Option<Seq<char>>) -> Option<u8> {
    match v {
        Some(s) => parse_u8_seq(s),
        None => None,
    }
}

pub open spec fn parsed_bool(v: Option<Seq<char>>) -> Option<bool> {
    match v {
        Some(s) => parse_bool_seq(s),
        None => None,
    }
}

pub open spec fn or_else<T>(o: Option<T>, d: T) -> T {
    match o {
        Some(x) => x,
        None => d,
    }
}

/// `x.clamp(lo, hi)` for `lo <= hi`.
pub open spec fn clamp_int(x: int, lo: int, hi: int) -> int {
    if x < lo {
        lo
    } else if x > hi {
        hi
    } else {
        x
    }
}

pub fn clamp_u32(x: u32, lo: u32, hi: u32) -> (r: u32)
    requires
        lo <= hi,
    ensures
        r == clamp_int(x as int, lo as int, hi as int),
{
    if x < lo {
        lo
    } else if x > hi {
        hi
    } else {
        x
    }
}

/// The export granularities: `hour`, `week`, `month`, and `day` for anything else.
pub open spec fn granularity_seq(s: Seq<char>) -> Seq<char> {
    let k = keyword_seq(s);
    if k == "hour"@ {
        "hour"@
    } else if k == "week"@ {
        "week"@
    } else if k == "month"@ {
        "month"@
    } else {
        "day"@
    }
}

pub fn normalize_granularity(granularity: &str) -> (r: &'static str)
    ensures
        r@ == granularity_seq(granularity@),
{
    let k = keyword(granularity);
    if chars_eq_str(&k, "hour") {
        "hour"
    } else if chars_eq_str(&k, "week") {
        "week"
    } else if chars_eq_str(&k, "month") {
        "month"
    } else {
        "day"
    }
}

/// The stored poll interval, `default` when unset or unreadable, kept within 15..=300.
pub open spec fn poll_interval_of(db: &Db, default: u32) -> int {
    clamp_int(or_else(parsed_u32(db.setting("poll_interval_seconds"@)), default) as int, 15, 300)
}

/// The stored AFK threshold, `default` when unset or unreadable, kept within 30..=3600.
pub open spec fn afk_threshold_of(db: &Db, default: u32) -> int {
    clamp_int(
        or_else(parsed_u32(db.setting("afk_idle_threshold_seconds"@)), default) as int,
        30,
        3600,
    )
}

/// The stored retention in days, 0 (keep everything) when unset, at most 3650.
pub open spec fn retention_days_of(db: &Db) -> int {
    let d = or_else(parsed_u32(db.setting("retention_days"@)), 0u32) as int;
    if d > 3650 {
        3650
    } else {
        d
    }
}

/// The settings as `get_settings` reports them.
pub open spec fn settings_are(db: &Db, r: SettingsResponse) -> bool {
    &&& r.poll_interval_seconds == poll_interval_of(db, 60)
    &&& r.retention_days == retention_days_of(db)
    &&& r.afk_idle_threshold_seconds == afk_threshold_of(db, 300)
    &&& r.onboarding_completed == or_else(parsed_bool(db.setting("onboarding_completed"@)), false)
    &&& r.export_default_granularity@ == granularity_seq(or_else(db.setting("export_default_granularity"@), "day"@))
    &&& r.export_default_include_summary == or_else(parsed_bool(db.setting("export_default_include_summary"@)), true)
    &&& r.export_default_include_apps == or_else(parsed_bool(db.setting("export_default_include_apps"@)), true)
    &&& r.export_default_include_interfaces == or_else(
        parsed_bool(db.setting("export_default_include_interfaces"@)),
        true,
    )
}

/// The import status and progress as reported: `idle` and 0 when unset, the progress at
/// most 100.
pub open spec fn import_status_is(db: &Db, r: (String, u8)) -> bool {
    let p = or_else(parsed_u8(db.setting("import_progress_pct"@)), 0u8);
    &&& r.0@ == or_else(db.setting("import_status"@), "idle"@)
    &&& r.1 == (if p > 100 {
        100
    } else {
        p
    })
}

/// The reliability counters as reported: zero and empty when unset.
pub open spec fn reliability_is(db: &Db, r: ReliabilityStatus) -> bool {
    &&& r.daemon_start_count == u64_setting(db, "daemon_reliability_start_count"@)
    &&& r.daemon_clean_exit_count == u64_setting(db, "daemon_reliability_clean_exit_count"@)
    &&& r.daemon_unexpected_exit_count == u64_setting(db, "daemon_reliability_unexpected_exit_count"@)
    &&& r.daemon_last_start_ts == i64_setting(db, "daemon_reliability_last_start_ts"@)
    &&& r.daemon_last_exit_ts == i64_setting(db, "daemon_reliability_last_exit_ts"@)
    &&& r.daemon_last_error_ts == i64_setting(db, "daemon_reliability_last_error_ts"@)
    &&& r.daemon_last_error_stage@ == or_else(db.setting("daemon_reliability_last_error_stage"@), Seq::<char>::empty())
    &&& r.daemon_last_error_message@ == or_else(
        db.setting("daemon_reliability_last_error_message"@),
        Seq::<char>::empty(),
    )
    &&& r.poll_error_count == u64_setting(db, "daemon_reliability_poll_error_count"@)
    &&& r.ipc_error_count == u64_setting(db, "daemon_reliability_ipc_error_count"@)
}

/// The last retention cleanup as reported: zero and `never` when it never ran.
pub open spec fn retention_status_is(db: &Db, r: RetentionCleanupStatus) -> bool {
    &&& r.last_run_ts == i64_setting(db, "retention_cleanup_last_run_ts"@)
    &&& r.cutoff_ts == i64_setting(db, "retention_cleanup_cutoff_ts"@)
    &&& r.deleted_usage_records == u64_setting(db, "retention_cleanup_deleted_usage_records"@)
    &&& r.deleted_afk_windows == u64_setting(db, "retention_cleanup_deleted_afk_windows"@)
    &&& r.last_result@ == or_else(db.setting("retention_cleanup_last_result"@), "never"@)
}

impl Db {
    pub fn read_setting_u32(&self, key: &str) -> (r: Option<u32>)
        ensures
            r == parsed_u32(self.setting(key@)),
    {
        match self.read_setting_string(key) {
            Some(v) => parse_u32(v.as_str()),
            None => None,
        }
    }

    pub fn read_setting_u64(&self, key: &str) -> (r: Option<u64>)
        ensures
            r == parsed_u64(self.setting(key@)),
    {
        match self.read_setting_string(key) {
            Some(v) => parse_u64(v.as_str()),
            None => None,
        }
    }

    pub fn read_setting_i64(&self, key: &str) -> (r: Option<i64>)
        ensures
            r == parsed_i64(self.setting(key@)),
    {
        match self.read_setting_string(key) {
            Some(v) => parse_i64(v.as_str()),
            None => None,
        }
    }

    pub fn read_setting_bool(&self, key: &str) -> (r: Option<bool>)
        ensures
            r == parsed_bool(self.setting(key@)),
    {
        match self.read_setting_string(key) {
            Some(v) => parse_bool(v.as_str()),
            None => None,
        }
    }

    pub fn get_poll_interval_seconds(&self, default: u32) -> (r: u32)
        ensures
            r == poll_interval_of(self, default),
    {
        let poll = match self.read_setting_u32("poll_interval_seconds") {
            Some(v) => v,
            None => default,
        };
        clamp_u32(poll, 15, 300)
    }

    pub fn get_afk_idle_threshold_seconds(&self, default: u32) -> (r: u32)
        ensures
            r == afk_threshold_of(self, default),
    {
        let threshold = match self.read_setting_u32("afk_idle_threshold_seconds") {
            Some(v) => v,
            None => default,
        };
        clamp_u32(threshold, 30, 3600)
    }

    pub fn get_settings(&self) -> (r: SettingsResponse)
        ensures
            settings_are(self, r),
    {
        let poll_interval_seconds = self.get_poll_interval_seconds(60);
        let retention_days = match self.read_setting_u32("retention_days") {
            Some(v) => if v > 3650 { 3650 } else { v },
            None => 0,
        };
        let afk_idle_threshold_seconds = self.get_afk_idle_threshold_seconds(300);
        let onboarding_completed = match self.read_setting_bool("onboarding_completed") {
            Some(v) => v,
            None => false,
        };
        let granularity = match self.read_setting_string("export_default_granularity") {
            Some(g) => normalize_granularity(g.as_str()),
            None => normalize_granularity("day"),
        };
        let export_default_include_summary = match self.read_setting_bool(
            "export_default_include_summary",
        ) {
            Some(v) => v,
            None => true,
        };
        let export_default_include_apps = match self.read_setting_bool("export_default_include_apps") {
            Some(v) => v,
            None => true,
        };
        let export_default_include_interfaces = match self.read_setting_bool(
            "export_default_include_interfaces",
        ) {
            Some(v) => v,
            None => true,
        };
        SettingsResponse {
            poll_interval_seconds,
            retention_days,
            afk_idle_threshold_seconds,
            onboarding_completed,
            export_default_granularity: granularity.to_string(),
            export_default_include_summary,
            export_default_include_apps,
            export_default_include_interfaces,
        }
    }

    pub fn set_import_status(&mut self, ts: i64, status: &str, progress_pct: u8)
        ensures
            final(self).setting_map() == old(self).setting_map().insert("import_status"@, status@).insert(
                "import_progress_pct"@,
                dec_seq(progress_pct as nat),
            ),
            final(self).stamp_map() == old(self).stamp_map().insert("import_status"@, ts).insert(
                "import_progress_pct"@,
                ts,
            ),
            final(self).same_but_settings(old(self)),
            final(self).wf() == old(self).wf(),
    {
        self.upsert_setting("import_status", status, ts);
        let pct = fmt_u64(progress_pct as u64);
        self.upsert_setting("import_progress_pct", pct.as_str(), ts);
    }

    pub fn get_import_status(&self) -> (r: (String, u8))
        ensures
            import_status_is(self, r),
    {
        let status = match self.read_setting_string("import_status") {
            Some(s) => s,
            None => "idle".to_string(),
        };
        let progress = match self.read_setting_string("import_progress_pct") {
            Some(raw) => match parse_u8(raw.as_str()) {
                Some(p) => p,
                None => 0,
            },
            None => 0,
        };
        (status, if progress > 100 { 100 } else { progress })
    }
}

} // verus!

verus! {

/// The outcome of the last retention pass.
#[derive(Debug, Clone)]
pub struct RetentionCleanupStatus {
    pub last_run_ts: i64,
    pub cutoff_ts: i64,
    pub deleted_usage_records: u64,
    pub deleted_afk_windows: u64,
    pub last_result: String,
}

/// Start, exit and error counters of the collector.
#[derive(Debug, Clone)]
pub struct ReliabilityStatus {
    pub daemon_start_count: u64,
    pub daemon_clean_exit_count: u64,
    pub daemon_unexpected_exit_count: u64,
    pub daemon_last_start_ts: i64,
    pub daemon_last_exit_ts: i64,
    pub daemon_last_error_ts: i64,
    pub daemon_last_error_stage: String,
    pub daemon_last_error_message: String,
    pub poll_error_count: u64,
    pub ipc_error_count: u64,
}

/// `n.saturating_add(1)` of the stored count, 0 when unset or unreadable.
pub open spec fn incremented(m: Map<Seq<char>, Seq<char>>, k: Seq<char>) -> u64 {
    let n = or_else(parsed_u64(super::map_get(m, k)), 0u64);
    if n == u64::MAX {
        n
    } else {
        (n + 1) as u64
    }
}

/// The settings after counting one more under `k`.
pub open spec fn increment_map(m: Map<Seq<char>, Seq<char>>, k: Seq<char>) -> Map<Seq<char>, Seq<char>> {
    m.insert(k, dec_seq(incremented(m, k) as nat))
}

/// The recorded error stage: trimmed, `unknown` when empty.
pub open spec fn error_stage_seq(stage: Seq<char>) -> Seq<char> {
    let t = trim_seq(stage);
    if t.len() == 0 {
        "unknown"@
    } else {
        t
    }
}

/// The recorded error message: trimmed, cut to its first 240 characters.
pub open spec fn error_message_seq(message: Seq<char>) -> Seq<char> {
    let t = trim_seq(message);
    if t.len() > 240 {
        t.subrange(0, 240)
    } else {
        t
    }
}

/// The settings after recording an error.
pub open spec fn error_map(
    m: Map<Seq<char>, Seq<char>>,
    ts: i64,
    stage: Seq<char>,
    message: Seq<char>,
) -> Map<Seq<char>, Seq<char>> {
    m.insert("daemon_reliability_last_error_ts"@, fmt_int_seq(ts as int)).insert(
        "daemon_reliability_last_error_stage"@,
        error_stage_seq(stage),
    ).insert("daemon_reliability_last_error_message"@, error_message_seq(message))
}

/// Whether the previous run left its session open (false when unset or unreadable).
pub open spec fn session_open(m: Map<Seq<char>, Seq<char>>) -> bool {
    or_else(parsed_bool(super::map_get(m, "daemon_reliability_session_open"@)), false)
}

/// The update times after writing `k` at `ts` when `c` holds.
pub open spec fn stamp_if(st: Map<Seq<char>, i64>, c: bool, k: Seq<char>, ts: i64) -> Map<Seq<char>, i64> {
    if c {
        st.insert(k, ts)
    } else {
        st
    }
}

/// The update times after recording an error at `ts`.
pub open spec fn error_stamps(st: Map<Seq<char>, i64>, ts: i64) -> Map<Seq<char>, i64> {
    st.insert("daemon_reliability_last_error_ts"@, ts).insert("daemon_reliability_last_error_stage"@, ts).insert(
        "daemon_reliability_last_error_message"@,
        ts,
    )
}

/// The update times after a start at `ts`; `open` is whether the previous session was open.
pub open spec fn start_stamps(st: Map<Seq<char>, i64>, open: bool, ts: i64) -> Map<Seq<char>, i64> {
    stamp_if(st, open, "daemon_reliability_unexpected_exit_count"@, ts).insert(
        "daemon_reliability_start_count"@,
        ts,
    ).insert("daemon_reliability_last_start_ts"@, ts).insert("daemon_reliability_session_open"@, ts)
}

/// The update times after a clean exit at `ts`.
pub open spec fn clean_exit_stamps(st: Map<Seq<char>, i64>, ts: i64) -> Map<Seq<char>, i64> {
    st.insert("daemon_reliability_clean_exit_count"@, ts).insert("daemon_reliability_last_exit_ts"@, ts).insert(
        "daemon_reliability_session_open"@,
        ts,
    )
}

/// The settings after a start: an open session left by the previous run counts as an
/// unexpected exit; the start is counted, timed, and opens a session.
pub open spec fn start_map(m: Map<Seq<char>, Seq<char>>, ts: i64) -> Map<Seq<char>, Seq<char>> {
    let open = session_open(m);
    let m1 = if open {
        increment_map(m, "daemon_reliability_unexpected_exit_count"@)
    } else {
        m
    };
    increment_map(m1, "daemon_reliability_start_count"@).insert(
        "daemon_reliability_last_start_ts"@,
        fmt_int_seq(ts as int),
    ).insert("daemon_reliability_session_open"@, "1"@)
}

/// The settings after a clean exit.
pub open spec fn clean_exit_map(m: Map<Seq<char>, Seq<char>>, ts: i64) -> Map<
    Seq<char>,
    Seq<char>,
> {
    increment_map(m, "daemon_reliability_clean_exit_count"@).insert(
        "daemon_reliability_last_exit_ts"@,
        fmt_int_seq(ts as int),
    ).insert("daemon_reliability_session_open"@, "0"@)
}

pub open spec fn u64_setting(db: &Db, k: Seq<char>) -> u64 {
    or_else(parsed_u64(db.setting(k)), 0u64)
}

pub open spec fn i64_setting(db: &Db, k: Seq<char>) -> i64 {
    or_else(parsed_i64(db.setting(k)), 0i64)
}

impl Db {
    fn increment_setting_u64(&mut self, key: &str, ts: i64) -> (r: u64)
        ensures
            r == incremented(old(self).setting_map(), key@),
            final(self).setting_map() == increment_map(old(self).setting_map(), key@),
            final(self).stamp_map() == old(self).stamp_map().insert(key@, ts),
            final(self).same_but_settings(old(self)),
            final(self).wf() == old(self).wf(),
    {
        let current = match self.read_setting_u64(key) {
            Some(v) => v,
            None => 0,
        };
        let next = current.saturating_add(1);
        let text = fmt_u64(next);
        self.upsert_setting(key, text.as_str(), ts);
        next
    }

    fn write_reliability_error(&mut self, ts: i64, stage: &str, message: &str)
        ensures
            final(self).setting_map() == error_map(old(self).setting_map(), ts, stage@, message@),
            final(self).stamp_map() == error_stamps(old(self).stamp_map(), ts),
            final(self).same_but_settings(old(self)),
            final(self).wf() == old(self).wf(),
    {
        let stage_chars = trim_vec(&chars_of(stage));
        let normalized_stage = if stage_chars.len() == 0 {
            "unknown".to_string()
        } else {
            string_of(stage_chars.as_slice())
        };
        let message_chars = trim_vec(&chars_of(message));
        let truncated = take_vec(&message_chars, 240);
        let normalized_message = string_of(truncated.as_slice());
        let ts_text = fmt_i64(ts);
        self.upsert_setting("daemon_reliability_last_error_ts", ts_text.as_str(), ts);
        self.upsert_setting("daemon_reliability_last_error_stage", normalized_stage.as_str(), ts);
        self.upsert_setting(
            "daemon_reliability_last_error_message",
            normalized_message.as_str(),
            ts,
        );
    }

    pub fn mark_daemon_start(&mut self, ts: i64)
        ensures
            final(self).setting_map() == start_map(old(self).setting_map(), ts),
            final(self).stamp_map() == start_stamps(old(self).stamp_map(), session_open(old(self).setting_map()), ts),
            final(self).same_but_settings(old(self)),
            final(self).wf() == old(self).wf(),
    {
        let session_open = match self.read_setting_bool("daemon_reliability_session_open") {
            Some(v) => v,
            None => false,
        };
        if session_open {
            self.increment_setting_u64("daemon_reliability_unexpected_exit_count", ts);
        }
        self.increment_setting_u64("daemon_reliability_start_count", ts);
        let ts_text = fmt_i64(ts);
        self.upsert_setting("daemon_reliability_last_start_ts", ts_text.as_str(), ts);
        self.upsert_setting("daemon_reliability_session_open", "1", ts);
    }

    pub fn mark_daemon_clean_exit(&mut self, ts: i64)
        ensures
            final(self).setting_map() == clean_exit_map(old(self).setting_map(), ts),
            final(self).stamp_map() == clean_exit_stamps(old(self).stamp_map(), ts),
            final(self).same_but_settings(old(self)),
            final(self).wf() == old(self).wf(),
    {
        self.increment_setting_u64("daemon_reliability_clean_exit_count", ts);
        let ts_text = fmt_i64(ts);
        self.upsert_setting("daemon_reliability_last_exit_ts", ts_text.as_str(), ts);
        self.upsert_setting("daemon_reliability_session_open", "0", ts);
    }

    pub fn increment_poll_error_count(&mut self, ts: i64, message: &str)
        ensures
            final(self).setting_map() == error_map(
                increment_map(old(self).setting_map(), "daemon_reliability_poll_error_count"@),
                ts,
                "poll"@,
                message@,
            ),
            final(self).stamp_map() == error_stamps(
                old(self).stamp_map().insert("daemon_reliability_poll_error_count"@, ts),
                ts,
            ),
            final(self).same_but_settings(old(self)),
            final(self).wf() == old(self).wf(),
    {
        self.increment_setting_u64("daemon_reliability_poll_error_count", ts);
        self.write_reliability_error(ts, "poll", message);
    }

    pub fn increment_ipc_error_count(&mut self, ts: i64, message: &str)
        ensures
            final(self).setting_map() == error_map(
                increment_map(old(self).setting_map(), "daemon_reliability_ipc_error_count"@),
                ts,
                "ipc"@,
                message@,
            ),
            final(self).stamp_map() == error_stamps(
                old(self).stamp_map().insert("daemon_reliability_ipc_error_count"@, ts),
                ts,
            ),
            final(self).same_but_settings(old(self)),
            final(self).wf() == old(self).wf(),
    {
        self.increment_setting_u64("daemon_reliability_ipc_error_count", ts);
        self.write_reliability_error(ts, "ipc", message);
    }

    pub fn record_daemon_error(&mut self, ts: i64, stage: &str, message: &str)
        ensures
            final(self).setting_map() == error_map(old(self).setting_map(), ts, stage@, message@),
            final(self).stamp_map() == error_stamps(old(self).stamp_map(), ts),
            final(self).same_but_settings(old(self)),
            final(self).wf() == old(self).wf(),
    {
        self.write_reliability_error(ts, stage, message);
    }

    pub fn get_reliability_status(&self) -> (r: ReliabilityStatus)
        ensures
            reliability_is(self, r),
    {
        ReliabilityStatus {
            daemon_start_count: self.u64_or_zero("daemon_reliability_start_count"),
            daemon_clean_exit_count: self.u64_or_zero("daemon_reliability_clean_exit_count"),
            daemon_unexpected_exit_count: self.u64_or_zero(
                "daemon_reliability_unexpected_exit_count",
            ),
            daemon_last_start_ts: self.i64_or_zero("daemon_reliability_last_start_ts"),
            daemon_last_exit_ts: self.i64_or_zero("daemon_reliability_last_exit_ts"),
            daemon_last_error_ts: self.i64_or_zero("daemon_reliability_last_error_ts"),
            daemon_last_error_stage: self.string_or_empty("daemon_reliability_last_error_stage"),
            daemon_last_error_message: self.string_or_empty(
                "daemon_reliability_last_error_message",
            ),
            poll_error_count: self.u64_or_zero("daemon_reliability_poll_error_count"),
            ipc_error_count: self.u64_or_zero("daemon_reliability_ipc_error_count"),
        }
    }

    fn u64_or_zero(&self, key: &str) -> (r: u64)
        ensures
            r == u64_setting(self, key@),
    {
        match self.read_setting_u64(key) {
            Some(v) => v,
            None => 0,
        }
    }

    pub(crate) fn i64_or_zero(&self, key: &str) -> (r: i64)
        ensures
            r == i64_setting(self, key@),
    {
        match self.read_setting_i64(key) {
            Some(v) => v,
            None => 0,
        }
    }

    fn string_or_empty(&self, key: &str) -> (r: String)
        ensures
            r@ == or_else(self.setting(key@), Seq::<char>::empty()),
    {
        match self.read_setting_string(key) {
            Some(v) => v,
            None => String::new(),
        }
    }

    pub fn get_retention_cleanup_status(&self) -> (r: RetentionCleanupStatus)
        ensures
            retention_status_is(self, r),
    {
        let last_result = match self.read_setting_string("retention_cleanup_last_result") {
            Some(v) => v,
            None => "never".to_string(),
        };
        RetentionCleanupStatus {
            last_run_ts: self.i64_or_zero("retention_cleanup_last_run_ts"),
            cutoff_ts: self.i64_or_zero("retention_cleanup_cutoff_ts"),
            deleted_usage_records: self.u64_or_zero("retention_cleanup_deleted_usage_records"),
            deleted_afk_windows: self.u64_or_zero("retention_cleanup_deleted_afk_windows"),
            last_result,
        }
    }
}

} // verus!

verus! {

/// The stored form of a flag.
pub open spec fn flag_seq(b: bool) -> Seq<char> {
    if b {
        "1"@
    } else {
        "0"@
    }
}

pub open spec fn put_opt_u32(
    m: Map<Seq<char>, Seq<char>>,
    k: Seq<char>,
    v: Option<u32>,
    lo: int,
    hi: int,
) -> Map<Seq<char>, Seq<char>> {
    match v {
        Some(x) => m.insert(k, dec_seq(clamp_int(x as int, lo, hi) as nat)),
        None => m,
    }
}

pub open spec fn put_opt_flag(m: Map<Seq<char>, Seq<char>>, k: Seq<char>, v: Option<bool>) -> Map<
    Seq<char>,
    Seq<char>,
> {
    match v {
        Some(b) => m.insert(k, flag_seq(b)),
        None => m,
    }
}

/// The settings after a settings request: each field given is stored, numbers kept within
/// their ranges and the granularity normalized; fields not given are left as they were.
pub open spec fn applied_map(m: Map<Seq<char>, Seq<char>>, req: SetSettingsRequest) -> Map<
    Seq<char>,
    Seq<char>,
> {
    let m1 = put_opt_u32(m, "poll_interval_seconds"@, req.poll_interval_seconds, 15, 300);
    let m2 = put_opt_u32(m1, "retention_days"@, req.retention_days, 0, 3650);
    let m3 = put_opt_u32(m2, "afk_idle_threshold_seconds"@, req.afk_idle_threshold_seconds, 30, 3600);
    let m4 = put_opt_flag(m3, "onboarding_completed"@, req.onboarding_completed);
    let m5 = match req.export_default_granularity {
        Some(g) => m4.insert("export_default_granularity"@, granularity_seq(g@)),
        None => m4,
    };
    let m6 = put_opt_flag(m5, "export_default_include_summary"@, req.export_default_include_summary);
    let m7 = put_opt_flag(m6, "export_default_include_apps"@, req.export_default_include_apps);
    put_opt_flag(m7, "export_default_include_interfaces"@, req.export_default_include_interfaces)
}

/// The update times after a settings request at `ts`: each field given is stamped.
pub open spec fn applied_stamps(st: Map<Seq<char>, i64>, req: SetSettingsRequest, ts: i64) -> Map<Seq<char>, i64> {
    let s1 = stamp_if(st, req.poll_interval_seconds is Some, "poll_interval_seconds"@, ts);
    let s2 = stamp_if(s1, req.retention_days is Some, "retention_days"@, ts);
    let s3 = stamp_if(s2, req.afk_idle_threshold_seconds is Some, "afk_idle_threshold_seconds"@, ts);
    let s4 = stamp_if(s3, req.onboarding_completed is Some, "onboarding_completed"@, ts);
    let s5 = stamp_if(s4, req.export_default_granularity is Some, "export_default_granularity"@, ts);
    let s6 = stamp_if(s5, req.export_default_include_summary is Some, "export_default_include_summary"@, ts);
    let s7 = stamp_if(s6, req.export_default_include_apps is Some, "export_default_include_apps"@, ts);
    stamp_if(s7, req.export_default_include_interfaces is Some, "export_default_include_interfaces"@, ts)
}

/// One default setting (values and update times): written over a stored value when
/// `overwrite` holds, otherwise only where the key is missing. Defaults are stamped 0.
pub open spec fn default_put(
    p: (Map<Seq<char>, Seq<char>>, Map<Seq<char>, i64>),
    k: Seq<char>,
    v: Seq<char>,
    overwrite: bool,
) -> (Map<Seq<char>, Seq<char>>, Map<Seq<char>, i64>) {
    if overwrite || !p.0.dom().contains(k) {
        (p.0.insert(k, v), p.1.insert(k, 0))
    } else {
        p
    }
}

/// The settings (values and update times) after opening a store: the collector's
/// configuration (poll interval, retention, AFK threshold, export defaults) is reset to its
/// defaults; the onboarding state, the import status, the records of past cleanups and the
/// reliability counters keep their stored values and are only added where missing.
pub open spec fn defaults_applied(
    p: (Map<Seq<char>, Seq<char>>, Map<Seq<char>, i64>),
) -> (Map<Seq<char>, Seq<char>>, Map<Seq<char>, i64>) {
    let p1 = default_put(p, "poll_interval_seconds"@, "60"@, true);
    let p2 = default_put(p1, "retention_days"@, "0"@, true);
    let p3 = default_put(p2, "afk_idle_threshold_seconds"@, "300"@, true);
    let p4 = default_put(p3, "onboarding_completed"@, "0"@, false);
    let p5 = default_put(p4, "export_default_granularity"@, "day"@, true);
    let p6 = default_put(p5, "export_default_include_summary"@, "1"@, true);
    let p7 = default_put(p6, "export_default_include_apps"@, "1"@, true);
    let p8 = default_put(p7, "export_default_include_interfaces"@, "1"@, true);
    let p9 = default_put(p8, "import_status"@, "idle"@, false);
    let p10 = default_put(p9, "import_progress_pct"@, "0"@, false);
    let p11 = default_put(p10, "retention_cleanup_last_run_ts"@, "0"@, false);
    let p12 = default_put(p11, "retention_cleanup_last_run_day_start_ts"@, "0"@, false);
    let p13 = default_put(p12, "retention_cleanup_cutoff_ts"@, "0"@, false);
    let p14 = default_put(p13, "retention_cleanup_deleted_usage_records"@, "0"@, false);
    let p15 = default_put(p14, "retention_cleanup_deleted_afk_windows"@, "0"@, false);
    let p16 = default_put(p15, "retention_cleanup_last_result"@, "never"@, false);
    let p17 = default_put(p16, "daemon_reliability_session_open"@, "0"@, false);
    let p18 = default_put(p17, "daemon_reliability_start_count"@, "0"@, false);
    let p19 = default_put(p18, "daemon_reliability_clean_exit_count"@, "0"@, false);
    let p20 = default_put(p19, "daemon_reliability_unexpected_exit_count"@, "0"@, false);
    let p21 = default_put(p20, "daemon_reliability_last_start_ts"@, "0"@, false);
    let p22 = default_put(p21, "daemon_reliability_last_exit_ts"@, "0"@, false);
    let p23 = default_put(p22, "daemon_reliability_last_error_ts"@, "0"@, false);
    let p24 = default_put(p23, "daemon_reliability_last_error_stage"@, ""@, false);
    let p25 = default_put(p24, "daemon_reliability_last_error_message"@, ""@, false);
    let p26 = default_put(p25, "daemon_reliability_poll_error_count"@, "0"@, false);
    let p27 = default_put(p26, "daemon_reliability_ipc_error_count"@, "0"@, false);
    p27
}

impl Db {
    fn put_opt_u32(&mut self, key: &str, v: Option<u32>, lo: u32, hi: u32, ts: i64)
        requires
            lo <= hi,
        ensures
            final(self).setting_map() == put_opt_u32(
                old(self).setting_map(),
                key@,
                v,
                lo as int,
                hi as int,
            ),
            final(self).stamp_map() == stamp_if(old(self).stamp_map(), v is Some, key@, ts),
            final(self).same_but_settings(old(self)),
            final(self).wf() == old(self).wf(),
    {
        if let Some(x) = v {
            let c = clamp_u32(x, lo, hi);
            let text = fmt_u64(c as u64);
            self.upsert_setting(key, text.as_str(), ts);
        }
    }

    fn put_opt_flag(&mut self, key: &str, v: Option<bool>, ts: i64)
        ensures
            final(self).setting_map() == put_opt_flag(old(self).setting_map(), key@, v),
            final(self).stamp_map() == stamp_if(old(self).stamp_map(), v is Some, key@, ts),
            final(self).same_but_settings(old(self)),
            final(self).wf() == old(self).wf(),
    {
        if let Some(b) = v {
            self.upsert_setting(key, if b { "1" } else { "0" }, ts);
        }
    }

    pub fn apply_settings(&mut self, ts: i64, settings: &SetSettingsRequest)
        ensures
            final(self).setting_map() == applied_map(old(self).setting_map(), *settings),
            final(self).stamp_map() == applied_stamps(old(self).stamp_map(), *settings, ts),
            final(self).same_but_settings(old(self)),
            final(self).wf() == old(self).wf(),
    {
        self.put_opt_u32("poll_interval_seconds", settings.poll_interval_seconds, 15, 300, ts);
        self.put_opt_u32("retention_days", settings.retention_days, 0, 3650, ts);
        self.put_opt_u32(
            "afk_idle_threshold_seconds",
            settings.afk_idle_threshold_seconds,
            30,
            3600,
            ts,
        );
        self.put_opt_flag("onboarding_completed", settings.onboarding_completed, ts);
        match &settings.export_default_granularity {
            Some(g) => {
                let value = normalize_granularity(g.as_str());
                self.upsert_setting("export_default_granularity", value, ts);
            },
            None => {},
        }
        self.put_opt_flag(
            "export_default_include_summary",
            settings.export_default_include_summary,
            ts,
        );
        self.put_opt_flag("export_default_include_apps", settings.export_default_include_apps, ts);
        self.put_opt_flag(
            "export_default_include_interfaces",
            settings.export_default_include_interfaces,
            ts,
        );
    }

    /// Writes one default setting, stamped 0: over a stored value when `overwrite` holds,
    /// otherwise only where the key is missing.
    fn put_default(&mut self, key: &str, value: &str, overwrite: bool)
        ensures
            (final(self).setting_map(), final(self).stamp_map()) == default_put(
                (old(self).setting_map(), old(self).stamp_map()),
                key@,
                value@,
                overwrite,
            ),
            final(self).same_but_settings(old(self)),
            final(self).wf() == old(self).wf(),
    {
        if overwrite || self.read_setting_string(key).is_none() {
            self.upsert_setting(key, value, 0);
        }
    }

    /// Resets the collector's configuration to its defaults and adds the onboarding state,
    /// import status, cleanup records and reliability counters that are missing.
    pub fn ensure_default_settings(&mut self)
        ensures
            (final(self).setting_map(), final(self).stamp_map()) == defaults_applied(
                (old(self).setting_map(), old(self).stamp_map()),
            ),
            final(self).same_but_settings(old(self)),
            final(self).wf() == old(self).wf(),
    {
        self.put_default("poll_interval_seconds", "60", true);
        self.put_default("retention_days", "0", true);
        self.put_default("afk_idle_threshold_seconds", "300", true);
        self.put_default("onboarding_completed", "0", false);
        self.put_default("export_default_granularity", "day", true);
        self.put_default("export_default_include_summary", "1", true);
        self.put_default("export_default_include_apps", "1", true);
        self.put_default("export_default_include_interfaces", "1", true);
        self.put_default("import_status", "idle", false);
        self.put_default("import_progress_pct", "0", false);
        self.put_default("retention_cleanup_last_run_ts", "0", false);
        self.put_default("retention_cleanup_last_run_day_start_ts", "0", false);
        self.put_default("retention_cleanup_cutoff_ts", "0", false);
        self.put_default("retention_cleanup_deleted_usage_records", "0", false);
        self.put_default("retention_cleanup_deleted_afk_windows", "0", false);
        self.put_default("retention_cleanup_last_result", "never", false);
        self.put_default("daemon_reliability_session_open", "0", false);
        self.put_default("daemon_reliability_start_count", "0", false);
        self.put_default("daemon_reliability_clean_exit_count", "0", false);
        self.put_default("daemon_reliability_unexpected_exit_count", "0", false);
        self.put_default("daemon_reliability_last_start_ts", "0", false);
        self.put_default("daemon_reliability_last_exit_ts", "0", false);
        self.put_default("daemon_reliability_last_error_ts", "0", false);
        self.put_default("daemon_reliability_last_error_stage", "", false);
        self.put_default("daemon_reliability_last_error_message", "", false);
        self.put_default("daemon_reliability_poll_error_count", "0", false);
        self.put_default("daemon_reliability_ipc_error_count", "0", false);
    }
}

} // verus!
