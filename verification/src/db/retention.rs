use vstd::prelude::*;
use super::{Db, UsageRow, AfkRow, map_get, lemma_ids_keep};
use super::settings::{parsed_u32, parsed_i64, or_else};
use crate::seqs::{keep, lemma_keep_step, lemma_keep_len};
use crate::num::{dec_seq, fmt_int_seq, fmt_u64, fmt_i64};

verus! {

/// The start of the UTC day that holds `ts`.
pub open spec fn day_start(ts: i64) -> int {
    ts - (ts as int) % 86400
}

/// How many days of history are kept: the `retention_days` setting (0, unlimited, when unset
/// or unreadable), at most 3650.
pub open spec fn retention_days(db: &Db) -> int {
    let d = or_else(parsed_u32(db.setting("retention_days"@)), 0u32);
    if d > 3650 {
        3650
    } else {
        d as int
    }
}

/// The start of the day on which cleanup last ran (0 when never).
pub open spec fn last_cleanup_day(db: &Db) -> int {
    or_else(parsed_i64(db.setting("retention_cleanup_last_run_day_start_ts"@)), 0i64) as int
}

/// Cleanup runs at most once per UTC day, and only for a positive time.
pub open spec fn cleanup_due(db: &Db, now_ts: i64) -> bool {
    now_ts > 0 && last_cleanup_day(db) < day_start(now_ts)
}

/// Records older than this are removed: `days` whole days before the start of today,
/// saturating at the smallest timestamp.
pub open spec fn cleanup_cutoff(day: int, days: int) -> i64 {
    let c = day - days * 86400;
    if c < i64::MIN {
        i64::MIN
    } else {
        c as i64
    }
}

pub open spec fn usage_kept(cutoff: i64) -> spec_fn(UsageRow) -> bool {
    |r: UsageRow| r.ts >= cutoff
}

pub open spec fn afk_kept(cutoff: i64) -> spec_fn(AfkRow) -> bool {
    |r: AfkRow| r.end_ts >= cutoff
}

/// The settings a cleanup run records.
pub open spec fn cleanup_record(
    m: Map<Seq<char>, Seq<char>>,
    deleted_usage: Seq<char>,
    deleted_afk: Seq<char>,
    result: Seq<char>,
    cutoff: Seq<char>,
    now_ts: i64,
    day: int,
) -> Map<Seq<char>, Seq<char>> {
    m.insert("retention_cleanup_deleted_usage_records"@, deleted_usage)
        .insert("retention_cleanup_deleted_afk_windows"@, deleted_afk)
        .insert("retention_cleanup_last_result"@, result)
        .insert("retention_cleanup_cutoff_ts"@, cutoff)
        .insert("retention_cleanup_last_run_ts"@, fmt_int_seq(now_ts as int))
        .insert("retention_cleanup_last_run_day_start_ts"@, fmt_int_seq(day))
}

/// The update times a cleanup run at `now_ts` records.
pub open spec fn cleanup_stamps(st: Map<Seq<char>, i64>, now_ts: i64) -> Map<Seq<char>, i64> {
    st.insert("retention_cleanup_deleted_usage_records"@, now_ts)
        .insert("retention_cleanup_deleted_afk_windows"@, now_ts)
        .insert("retention_cleanup_last_result"@, now_ts)
        .insert("retention_cleanup_cutoff_ts"@, now_ts)
        .insert("retention_cleanup_last_run_ts"@, now_ts)
        .insert("retention_cleanup_last_run_day_start_ts"@, now_ts)
}

impl AfkRow {
    /// A copy of the row.
    pub fn copy(&self) -> (r: AfkRow)
        ensures
            r == *self,
    {
        AfkRow { id: self.id, start_ts: self.start_ts, end_ts: self.end_ts, source: self.source.clone() }
    }
}

impl Db {
    fn keep_usage_from(&mut self, cutoff: i64) -> (deleted: u64)
        requires
            old(self).wf(),
        ensures
            final(self).wf(),
            final(self).tables().usage_records@ == keep(old(self).tables().usage_records@, usage_kept(cutoff)),
            deleted == old(self).tables().usage_records@.len() - final(self).tables().usage_records@.len(),
            final(self).last_usage() == old(self).last_usage(),
            final(self).same_settings(old(self)),
            final(self).same_interfaces(old(self)),
            final(self).same_apps(old(self)),
            final(self).same_afk(old(self)),
            final(self).same_caps(old(self)),
            final(self).same_events(old(self)),
    {
        let ghost rows = self.t.usage_records@;
        let mut out: Vec<UsageRow> = Vec::new();
        let mut k: usize = 0;
        while k < self.t.usage_records.len()
            invariant
                rows == self.t.usage_records@,
                k <= rows.len(),
                out@ == keep(rows.subrange(0, k as int), usage_kept(cutoff)),
            decreases rows.len() - k,
        {
            proof {
                lemma_keep_step(rows, usage_kept(cutoff), k as int);
            }
            if self.t.usage_records[k].ts >= cutoff {
                out.push(self.t.usage_records[k].copy());
            }
            k = k + 1;
        }
        assert(rows.subrange(0, rows.len() as int) =~= rows);
        proof {
            lemma_keep_len(rows, usage_kept(cutoff));
            lemma_ids_keep(rows, |r: UsageRow| r.id, self.last_usage_id, usage_kept(cutoff));
        }
        let deleted = (self.t.usage_records.len() - out.len()) as u64;
        self.t.usage_records = out;
        deleted
    }

    fn keep_afk_from(&mut self, cutoff: i64) -> (deleted: u64)
        requires
            old(self).wf(),
        ensures
            final(self).wf(),
            final(self).tables().afk_windows@ == keep(old(self).tables().afk_windows@, afk_kept(cutoff)),
            deleted == old(self).tables().afk_windows@.len() - final(self).tables().afk_windows@.len(),
            final(self).last_afk() == old(self).last_afk(),
            final(self).same_settings(old(self)),
            final(self).same_interfaces(old(self)),
            final(self).same_apps(old(self)),
            final(self).same_usage(old(self)),
            final(self).same_caps(old(self)),
            final(self).same_events(old(self)),
    {
        let ghost rows = self.t.afk_windows@;
        let mut out: Vec<AfkRow> = Vec::new();
        let mut k: usize = 0;
        while k < self.t.afk_windows.len()
            invariant
                rows == self.t.afk_windows@,
                k <= rows.len(),
                out@ == keep(rows.subrange(0, k as int), afk_kept(cutoff)),
            decreases rows.len() - k,
        {
            proof {
                lemma_keep_step(rows, afk_kept(cutoff), k as int);
            }
            if self.t.afk_windows[k].end_ts >= cutoff {
                out.push(self.t.afk_windows[k].copy());
            }
            k = k + 1;
        }
        assert(rows.subrange(0, rows.len() as int) =~= rows);
        proof {
            lemma_keep_len(rows, afk_kept(cutoff));
            lemma_ids_keep(rows, |r: AfkRow| r.id, self.last_afk_id, afk_kept(cutoff));
        }
        let deleted = (self.t.afk_windows.len() - out.len()) as u64;
        self.t.afk_windows = out;
        deleted
    }

    /// Once per UTC day (for a positive `now_ts`): with a retention of `d` days, removes usage
    /// records older than `d` days before the start of today and AFK windows that ended
    /// before then, and records what it did; with unlimited retention only records that it
    /// skipped. Otherwise does nothing.
    pub fn run_retention_cleanup_if_due(&mut self, now_ts: i64)
        requires
            old(self).wf(),
        ensures
            final(self).wf(),
            !cleanup_due(old(self), now_ts) ==> final(self).setting_map() == old(self).setting_map()
                && final(self).stamp_map() == old(self).stamp_map() && final(self).same_but_settings(old(self)),
            cleanup_due(old(self), now_ts) ==> final(self).stamp_map() == cleanup_stamps(old(self).stamp_map(), now_ts),
            cleanup_due(old(self), now_ts) && retention_days(old(self)) == 0 ==> final(self).same_but_settings(old(self))
                && final(self).setting_map() == cleanup_record(
                old(self).setting_map(),
                "0"@,
                "0"@,
                "skipped_unlimited"@,
                "0"@,
                now_ts,
                day_start(now_ts),
            ),
            cleanup_due(old(self), now_ts) && retention_days(old(self)) > 0 ==> {
                let cutoff = cleanup_cutoff(day_start(now_ts), retention_days(old(self)));
                let usage = keep(old(self).tables().usage_records@, usage_kept(cutoff));
                let afk = keep(old(self).tables().afk_windows@, afk_kept(cutoff));
                &&& final(self).tables().usage_records@ == usage
                &&& final(self).tables().afk_windows@ == afk
                &&& final(self).setting_map() == cleanup_record(
                    old(self).setting_map(),
                    dec_seq((old(self).tables().usage_records@.len() - usage.len()) as nat),
                    dec_seq((old(self).tables().afk_windows@.len() - afk.len()) as nat),
                    "ok"@,
                    fmt_int_seq(cutoff as int),
                    now_ts,
                    day_start(now_ts),
                )
                &&& final(self).same_interfaces(old(self))
                &&& final(self).same_apps(old(self))
                &&& final(self).same_caps(old(self))
                &&& final(self).same_events(old(self))
                &&& final(self).last_usage() == old(self).last_usage()
                &&& final(self).last_afk() == old(self).last_afk()
            },
    {
        if now_ts <= 0 {
            return;
        }
        let days: u32 = match self.read_setting_u32("retention_days") {
            Some(d) => if d > 3650 {
                3650
            } else {
                d
            },
            None => 0,
        };
        let day: i64 = now_ts - now_ts % 86400;
        let last_day = self.i64_or_zero("retention_cleanup_last_run_day_start_ts");
        if last_day >= day {
            return;
        }
        let now_text = fmt_i64(now_ts);
        let day_text = fmt_i64(day);
        if days > 0 {
            let span: i64 = (days as i64) * 86400;
            let cutoff: i64 = if day < i64::MIN + span {
                i64::MIN
            } else {
                day - span
            };
            let deleted_usage = self.keep_usage_from(cutoff);
            let deleted_afk = self.keep_afk_from(cutoff);
            let du = fmt_u64(deleted_usage);
            let da = fmt_u64(deleted_afk);
            let ct = fmt_i64(cutoff);
            self.upsert_setting("retention_cleanup_deleted_usage_records", du.as_str(), now_ts);
            self.upsert_setting("retention_cleanup_deleted_afk_windows", da.as_str(), now_ts);
            self.upsert_setting("retention_cleanup_last_result", "ok", now_ts);
            self.upsert_setting("retention_cleanup_cutoff_ts", ct.as_str(), now_ts);
            self.upsert_setting("retention_cleanup_last_run_ts", now_text.as_str(), now_ts);
            self.upsert_setting("retention_cleanup_last_run_day_start_ts", day_text.as_str(), now_ts);
            return;
        }
        self.upsert_setting("retention_cleanup_deleted_usage_records", "0", now_ts);
        self.upsert_setting("retention_cleanup_deleted_afk_windows", "0", now_ts);
        self.upsert_setting("retention_cleanup_last_result", "skipped_unlimited", now_ts);
        self.upsert_setting("retention_cleanup_cutoff_ts", "0", now_ts);
        self.upsert_setting("retention_cleanup_last_run_ts", now_text.as_str(), now_ts);
        self.upsert_setting("retention_cleanup_last_run_day_start_ts", day_text.as_str(), now_ts);
    }
}

/// Cleanup runs at most once per UTC day: right after a run, another run on the same day
/// is not due.
pub proof fn lemma_cleanup_once_per_day(
    m: Map<Seq<char>, Seq<char>>,
    deleted_usage: Seq<char>,
    deleted_afk: Seq<char>,
    result: Seq<char>,
    cutoff: Seq<char>,
    now_ts: i64,
    later_ts: i64,
)
    requires
        now_ts > 0,
        day_start(later_ts) == day_start(now_ts),
    ensures
        ({
            let after = cleanup_record(m, deleted_usage, deleted_afk, result, cutoff, now_ts, day_start(now_ts));
            or_else(
                parsed_i64(map_get(after, "retention_cleanup_last_run_day_start_ts"@)),
                0i64,
            ) >= day_start(later_ts)
        }),
{
    let day = day_start(now_ts);
    assert(i64::MIN <= day <= i64::MAX);
    crate::db::laws::lemma_ts_roundtrip(day as i64);
    let after = cleanup_record(m, deleted_usage, deleted_afk, result, cutoff, now_ts, day);
    assert(map_get(after, "retention_cleanup_last_run_day_start_ts"@) == Some(fmt_int_seq(day)));
}

} // verus!
