//! What the queries count: the rows each report takes in, and the size of a summary's
//! buckets, stated over the stored rows and the reports themselves.
use vstd::prelude::*;
use super::{Db, InterfaceV, UsageV};
use super::group::{is_grouping, tagged, ts_of, lemma_tagged_witness};
use super::query::{iface_by_id, app_by_id, granularity_secs, summary_reply, summary_tags, bucket_start, min_ts, non_negative, poll_cutover_of, source_is_poll, attribution_guid, min_polled_last_seen, before_cutover, helper_cutover, is_poll_source, source_is_helper};
use super::breakdown::{iface_breakdown_reply, iface_tags, total_keys, lemma_sorted_member, app_tags, app_breakdown_reply};
use super::sort::KeyV;
use super::{CapV, EventV, DbError};
use super::alerts::{cap_usage, cap_tags, cap_step, EvalState, month_start, eval_end, monthly_drafts, daily_drafts};
use super::caps::{threshold_bytes, daily_cap, sat_mul_u64};
use super::retention::day_start;
use super::group::{sent_of, recv_of};
use super::afk::{audit_result, afk_in_range, afk_keys, afk_limit, window_report};
use crate::seqs::{keep, lemma_keep_members, lemma_keep_len};
use crate::contracts::{GetAfkAuditRequest, AfkAuditResponse, AppBreakdownRequest, AppBreakdownResponse, InterfaceBreakdownRequest, InterfaceBreakdownResponse, UsageSummaryRequest, UsageSummaryResponse};
use crate::text::keyword_seq;

verus! {

/// The bucket lengths: an hour is 3600 seconds, a day 86400, a week seven days and a
/// month thirty days; a granularity is read trimmed and case-insensitive, and any other
/// text means a day.
pub proof fn lemma_granularity_lengths(g: Seq<char>)
    ensures
        keyword_seq(g) == "hour"@ ==> granularity_secs(g) == 60 * 60,
        keyword_seq(g) == "day"@ ==> granularity_secs(g) == 24 * 60 * 60,
        keyword_seq(g) == "week"@ ==> granularity_secs(g) == 7 * 24 * 60 * 60,
        keyword_seq(g) == "month"@ ==> granularity_secs(g) == 30 * 24 * 60 * 60,
        keyword_seq(g) != "hour"@ && keyword_seq(g) != "week"@ && keyword_seq(g) != "month"@
            ==> granularity_secs(g) == 24 * 60 * 60,
{
    reveal_strlit("hour");
    reveal_strlit("day");
    reveal_strlit("week");
    reveal_strlit("month");
    assert("day"@[0] != "hour"@[0] && "day"@[0] != "week"@[0] && "day"@[0] != "month"@[0]);
    assert("week"@[0] != "hour"@[0]);
}

/// A bucket of seven days starts at a multiple of seven days; from the epoch on, it is the
/// start of the seven-day period that holds the time.
proof fn lemma_week_start(t: i64)
    ensures
        (bucket_start(t, 604800i64) as int) % (7int * 24 * 60 * 60) == 0,
        t >= 0 ==> bucket_start(t, 604800i64) as int == (t as int / (7int * 24 * 60 * 60)) * (7int * 24
            * 60 * 60),
{
    let d: int = 7int * 24 * 60 * 60;
    let ti = t as int;
    if ti >= 0 {
        let q = ti / d;
        assert(0 <= q * d <= ti) by (nonlinear_arith)
            requires
                ti >= 0,
                d > 0,
                q == ti / d,
        ;
        vstd::arithmetic::div_mod::lemma_mod_multiples_basic(q, d);
    } else {
        let q = (0 - ti) / d;
        assert(0 <= q * d <= 0 - ti) by (nonlinear_arith)
            requires
                0 - ti >= 0,
                d > 0,
                q == (0 - ti) / d,
        ;
        assert(0 - q * d == (0 - q) * d) by (nonlinear_arith);
        vstd::arithmetic::div_mod::lemma_mod_multiples_basic(0 - q, d);
    }
}

/// In a summary by week every bucket starts at a multiple of seven days, and every row it
/// counts from the epoch on lies in the bucket of its own seven-day period.
pub proof fn lemma_week_summary_buckets(db: &Db, req: UsageSummaryRequest, resp: UsageSummaryResponse)
    requires
        keyword_seq(req.granularity@) == "week"@,
        summary_reply(db, req, resp),
    ensures
        forall|i: int|
            0 <= i < resp.buckets@.len() ==> (#[trigger] resp.buckets@[i]).ts as int % (7int * 24 * 60 * 60) == 0,
        forall|j: int|
            0 <= j < db.usage().len() && (#[trigger] summary_tags(db, req)[j]) is Some && db.usage()[j].ts >= 0
                ==> summary_tags(db, req)[j]->0 as int == (db.usage()[j].ts as int / (7int * 24 * 60 * 60)) * (7int
                * 24 * 60 * 60),
{
    lemma_granularity_lengths(req.granularity@);
    let tags = summary_tags(db, req);
    let rs = db.usage();
    let g = choose|g: Seq<super::group::Group>| is_grouping(rs, tags, g) && super::query::summary_of(g, req, resp);
    assert forall|j: int| 0 <= j < rs.len() && (#[trigger] tags[j]) is Some implies tags[j]->0 == bucket_start(
        rs[j].ts,
        604800i64,
    ) by {
        lemma_week_start(rs[j].ts);
    }
    assert forall|j: int| 0 <= j < rs.len() && (#[trigger] tags[j]) is Some && rs[j].ts >= 0 implies tags[j]->0 as int
        == (rs[j].ts as int / (7int * 24 * 60 * 60)) * (7int * 24 * 60 * 60) by {
        lemma_week_start(rs[j].ts);
    }
    assert forall|i: int| 0 <= i < resp.buckets@.len() implies (#[trigger] resp.buckets@[i]).ts as int % (7int * 24
        * 60 * 60) == 0 by {
        assert(tagged(rs, tags, g[i].key, ts_of(), rs.len() as int).len() > 0);
        lemma_tagged_witness(rs, tags, g[i].key, ts_of(), rs.len() as int);
        let j = choose|j: int| 0 <= j < rs.len() && tags[j] == Some(g[i].key);
        lemma_week_start(rs[j].ts);
    }
}

/// An interface breakdown counts only polled rows in its range, on an interface that
/// passes both filters: the asked interface guid and the asked interface type.
pub proof fn lemma_iface_breakdown_rows(db: &Db, req: InterfaceBreakdownRequest, j: int)
    requires
        0 <= j < db.usage().len(),
        iface_tags(db, req)[j] is Some,
    ensures
        iface_by_id(db.interfaces(), db.usage()[j].interface_id) is Some,
        req.start_ts <= db.usage()[j].ts < req.end_ts,
        db.usage()[j].source == "interface_poll"@ || db.usage()[j].source == "poll"@,
        req.interface_id matches Some(g) ==> iface_by_id(db.interfaces(), db.usage()[j].interface_id)->0.guid == g@,
        req.interface_type matches Some(t) ==> iface_by_id(db.interfaces(), db.usage()[j].interface_id)->0.kind
            == t@,
{
}

/// Every interface an interface breakdown reports has the asked guid and the asked type,
/// when these are given.
pub proof fn lemma_iface_breakdown_filters(db: &Db, req: InterfaceBreakdownRequest, resp: InterfaceBreakdownResponse)
    requires
        iface_breakdown_reply(db, req, resp),
    ensures
        forall|i: int|
            0 <= i < resp.interfaces@.len() ==> (req.interface_type matches Some(t) ==> (
            #[trigger] resp.interfaces@[i]).interface_type@ == t@),
        forall|i: int|
            0 <= i < resp.interfaces@.len() ==> (req.interface_id matches Some(g) ==> (
            #[trigger] resp.interfaces@[i]).interface_id@ == g@),
{
    let rs = db.usage();
    let tags = iface_tags(db, req);
    let (gs, s) = choose|gs: Seq<super::group::Group>, s: Seq<KeyV>|
        is_grouping(rs, tags, gs) && super::sort::sorted_from(total_keys(gs), s) && resp.interfaces@.len() == gs.len()
            && resp.total_interfaces == gs.len() as u32 && forall|i: int|
            0 <= i < gs.len() ==> super::breakdown::iface_row_is(
                #[trigger] resp.interfaces@[i],
                iface_by_id(db.interfaces(), gs[s[i].pos].key)->0,
                gs[s[i].pos],
            );
    assert forall|i: int| 0 <= i < resp.interfaces@.len() implies {
        &&& (req.interface_type matches Some(t) ==> (#[trigger] resp.interfaces@[i]).interface_type@ == t@)
        &&& (req.interface_id matches Some(g) ==> resp.interfaces@[i].interface_id@ == g@)
    } by {
        lemma_sorted_member(total_keys(gs), s, i);
        let p = choose|p: int| 0 <= p < total_keys(gs).len() && total_keys(gs)[p] == s[i];
        assert(s[i].pos == p);
        let k = gs[p].key;
        assert(tagged(rs, tags, k, ts_of(), rs.len() as int).len() > 0);
        lemma_tagged_witness(rs, tags, k, ts_of(), rs.len() as int);
        let j = choose|j: int| 0 <= j < rs.len() && tags[j] == Some(k);
        lemma_iface_breakdown_rows(db, req, j);
        assert(rs[j].interface_id == k);
    }
}

/// The earliest time among rows that satisfy `p` is at most the time of each of them.
proof fn lemma_min_ts_below(rs: Seq<UsageV>, p: spec_fn(UsageV) -> bool, n: int, k: int)
    requires
        0 <= k < n <= rs.len(),
        p(rs[k]),
    ensures
        min_ts(rs, p, n) matches Some(m) && m <= rs[k].ts,
    decreases n,
{
    if k < n - 1 {
        lemma_min_ts_below(rs, p, n - 1, k);
    }
}

/// An app breakdown counts only rows in its range, on a known interface that passes both
/// filters, of a known app, that the helper recorded, or that were imported before the
/// helper's first record.
pub proof fn lemma_app_breakdown_rows(db: &Db, req: AppBreakdownRequest, j: int)
    requires
        0 <= j < db.usage().len(),
        app_tags(db, req)[j] is Some,
    ensures
        app_tags(db, req)[j] == Some(db.usage()[j].app_id),
        app_by_id(db.apps(), db.usage()[j].app_id) is Some,
        iface_by_id(db.interfaces(), db.usage()[j].interface_id) is Some,
        req.start_ts <= db.usage()[j].ts < req.end_ts,
        req.interface_id matches Some(g) ==> iface_by_id(db.interfaces(), db.usage()[j].interface_id)->0.guid == g@,
        req.interface_type matches Some(t) ==> iface_by_id(db.interfaces(), db.usage()[j].interface_id)->0.kind
            == t@,
        db.usage()[j].source == "helper"@ || (db.usage()[j].source == "import"@ && before_helper(
            db.usage(),
            db.usage()[j].ts,
        )),
{
    if db.usage()[j].source != "helper"@ {
        lemma_before_helper_cutover(db, db.usage()[j].ts);
    }
}

/// Polled interface totals are no app's usage: where the table holds no row that the
/// helper recorded or that was imported, an app breakdown lists no app.
pub proof fn lemma_app_breakdown_without_app_rows(db: &Db, req: AppBreakdownRequest, resp: AppBreakdownResponse)
    requires
        app_breakdown_reply(db, req, resp),
        forall|j: int|
            0 <= j < db.usage().len() ==> (#[trigger] db.usage()[j]).source != "helper"@ && db.usage()[j].source
                != "import"@,
    ensures
        resp.apps@.len() == 0,
        resp.total_apps == 0,
{
    let rs = db.usage();
    let tags = app_tags(db, req);
    let (gs, s) = choose|gs: Seq<super::group::Group>, s: Seq<KeyV>|
        is_grouping(rs, tags, gs) && super::sort::sorted_from(
            super::breakdown::app_keys(super::breakdown::app_sort_of(req.sort_by), db.apps(), gs),
            s,
        ) && super::breakdown::app_breakdown_of(db.apps(), req, gs, s, resp);
    if gs.len() > 0 {
        let k = gs[0].key;
        assert(tagged(rs, tags, k, ts_of(), rs.len() as int).len() > 0);
        lemma_tagged_witness(rs, tags, k, ts_of(), rs.len() as int);
        let j = choose|j: int| 0 <= j < rs.len() && tags[j] == Some(k);
        lemma_app_breakdown_rows(db, req, j);
        assert(false);
    }
}

/// An AFK audit lists only windows that overlap the asked range (ending at or after its
/// start and starting before its end); when the table holds no more windows than the
/// audit's limit, it lists every such window.
pub proof fn lemma_audit_lists_overlapping(db: &Db, req: GetAfkAuditRequest, s: Seq<KeyV>, resp: AfkAuditResponse)
    requires
        audit_result(db, req, s, Ok(resp)),
    ensures
        forall|i: int|
            0 <= i < resp.afk_windows@.len() ==> (req.start_ts matches Some(st) ==> (
            #[trigger] resp.afk_windows@[i]).end_ts >= st) && (req.end_ts matches Some(en)
                ==> resp.afk_windows@[i].start_ts < en),
        db.afk().len() <= afk_limit(req.limit) ==> forall|k: int|
            0 <= k < db.afk().len() && (req.start_ts matches Some(st) ==> (#[trigger] db.afk()[k]).end_ts >= st)
                && (req.end_ts matches Some(en) ==> db.afk()[k].start_ts < en) ==> exists|i: int|
                0 <= i < resp.afk_windows@.len() && resp.afk_windows@[i].start_ts == db.afk()[k].start_ts
                    && resp.afk_windows@[i].end_ts == db.afk()[k].end_ts,
{
    let rows = db.afk();
    let sel = keep(rows, afk_in_range(req));
    let keys = afk_keys(sel);
    lemma_keep_members(rows, afk_in_range(req));
    lemma_keep_len(rows, afk_in_range(req));
    assert forall|i: int| 0 <= i < resp.afk_windows@.len() implies (req.start_ts matches Some(st) ==> (
    #[trigger] resp.afk_windows@[i]).end_ts >= st) && (req.end_ts matches Some(en) ==> resp.afk_windows@[i].start_ts
        < en) by {
        lemma_sorted_member(keys, s, i);
        let p = choose|p: int| 0 <= p < keys.len() && keys[p] == s[i];
        assert(s[i].pos == p);
        assert(afk_in_range(req)(sel[p]));
    }
    if rows.len() <= afk_limit(req.limit) {
        assert forall|k: int|
            0 <= k < rows.len() && (req.start_ts matches Some(st) ==> (#[trigger] rows[k]).end_ts >= st) && (
            req.end_ts matches Some(en) ==> rows[k].start_ts < en) implies exists|i: int|
            0 <= i < resp.afk_windows@.len() && resp.afk_windows@[i].start_ts == rows[k].start_ts
                && resp.afk_windows@[i].end_ts == rows[k].end_ts by {
            assert(afk_in_range(req)(rows[k]));
            assert(sel.contains(rows[k]));
            let p = choose|p: int| 0 <= p < sel.len() && sel[p] == rows[k];
            assert(s.contains(keys[p]));
            let i = choose|i: int| 0 <= i < s.len() && s[i] == keys[p];
            assert(s[i].pos == p);
            assert(window_report(db, sel[s[i].pos], resp.afk_windows@[i]));
        }
    }
}

/// With no tag set, no row is taken.
proof fn lemma_untagged_empty(rs: Seq<UsageV>, tags: Seq<Option<i64>>, k: i64, f: spec_fn(UsageV) -> i64, n: int)
    requires
        n <= tags.len(),
        forall|j: int| 0 <= j < n ==> (#[trigger] tags[j]) is None,
    ensures
        tagged(rs, tags, k, f, n) == Seq::<i64>::empty(),
    decreases n,
{
    if n > 0 {
        lemma_untagged_empty(rs, tags, k, f, n - 1);
    }
}

/// A cap that names an interface counts nothing from other interfaces: where no usage row
/// lies on an interface with that guid, its usage over any range is zero.
pub proof fn lemma_cap_usage_other_interfaces(rs: Seq<UsageV>, ifs: Seq<InterfaceV>, start_ts: i64, end_ts: i64, g: Seq<char>)
    requires
        forall|j: int|
            0 <= j < rs.len() ==> (iface_by_id(ifs, #[trigger] rs[j].interface_id) matches Some(i) ==> i.guid != g),
    ensures
        cap_usage(rs, ifs, start_ts, end_ts, Some(g)) == Some(0u64),
{
    let tags = cap_tags(rs, ifs, start_ts, end_ts, Some(g));
    assert forall|j: int| 0 <= j < rs.len() implies (#[trigger] tags[j]) is None by {
        assert(iface_by_id(ifs, rs[j].interface_id) matches Some(i) ==> i.guid != g);
    }
    lemma_untagged_empty(rs, tags, 0, sent_of(), rs.len() as int);
    lemma_untagged_empty(rs, tags, 0, recv_of(), rs.len() as int);
}

/// A cap on an interface raises no alert, monthly or daily, while no usage row lies on an
/// interface with its guid, whatever the other interfaces used.
pub proof fn lemma_cap_without_own_usage_is_quiet(rs: Seq<UsageV>, ifs: Seq<InterfaceV>, now_ts: i64, c: CapV, st: EvalState)
    requires
        c.interface_guid is Some,
        c.monthly_cap_bytes > 0,
        forall|j: int|
            0 <= j < rs.len() ==> (iface_by_id(ifs, #[trigger] rs[j].interface_id) matches Some(i) ==> i.guid
                != c.interface_guid->0),
    ensures
        cap_step(rs, ifs, now_ts, c, st) == (st, None::<DbError>),
{
    let g = c.interface_guid->0;
    let ms = month_start(now_ts);
    let ds = day_start(now_ts) as i64;
    let end = eval_end(now_ts);
    lemma_cap_usage_other_interfaces(rs, ifs, ms, end, g);
    lemma_cap_usage_other_interfaces(rs, ifs, ds, end, g);
    let capb = non_negative(c.monthly_cap_bytes);
    assert(capb >= 1);
    assert(sat_mul_u64(capb, 50) >= 50) by (nonlinear_arith)
        requires
            capb >= 1,
            sat_mul_u64(capb, 50) == (if capb * 50 > u64::MAX {
                u64::MAX as int
            } else {
                capb * 50
            }),
    ;
    assert(sat_mul_u64(capb, 80) >= 80) by (nonlinear_arith)
        requires
            capb >= 1,
            sat_mul_u64(capb, 80) == (if capb * 80 > u64::MAX {
                u64::MAX as int
            } else {
                capb * 80
            }),
    ;
    assert(sat_mul_u64(capb, 95) >= 95) by (nonlinear_arith)
        requires
            capb >= 1,
            sat_mul_u64(capb, 95) == (if capb * 95 > u64::MAX {
                u64::MAX as int
            } else {
                capb * 95
            }),
    ;
    assert(threshold_bytes(capb, 50) >= 1);
    assert(threshold_bytes(capb, 80) >= 1);
    assert(threshold_bytes(capb, 95) >= 1);
    assert(monthly_drafts(c, 0, ms, end, now_ts) == Seq::<EventV>::empty());
    assert(daily_cap(capb) >= 1);
    assert(daily_drafts(c, 0, ds, end, now_ts) == Seq::<EventV>::empty());
}

/// The earliest polled time depends on the rows' times and sources alone.
proof fn lemma_min_ts_same_poll(rs: Seq<UsageV>, rs2: Seq<UsageV>, n: int)
    requires
        0 <= n <= rs.len() == rs2.len(),
        forall|j: int| 0 <= j < n ==> (#[trigger] rs2[j]).ts == rs[j].ts && rs2[j].source == rs[j].source,
    ensures
        min_ts(rs, source_is_poll(), n) == min_ts(rs2, source_is_poll(), n),
    decreases n,
{
    if n > 0 {
        lemma_min_ts_same_poll(rs, rs2, n - 1);
        assert(rs2[n - 1].ts == rs[n - 1].ts);
    }
}

/// Rows taken under one tag give the same values where the taken rows agree on them.
proof fn lemma_tagged_same(
    rs: Seq<UsageV>,
    rs2: Seq<UsageV>,
    tags: Seq<Option<i64>>,
    k: i64,
    f: spec_fn(UsageV) -> i64,
    n: int,
)
    requires
        0 <= n <= tags.len(),
        n <= rs.len(),
        n <= rs2.len(),
        forall|j: int| 0 <= j < n && (#[trigger] tags[j]) == Some(k) ==> f(rs[j]) == f(rs2[j]),
    ensures
        tagged(rs, tags, k, f, n) == tagged(rs2, tags, k, f, n),
    decreases n,
{
    if n > 0 {
        lemma_tagged_same(rs, rs2, tags, k, f, n - 1);
    }
}

/// What other interfaces used never changes the usage of a cap that names an interface:
/// two tables whose rows agree on interface, time and source, and agree whole on every row
/// of an interface with the cap's guid, give that cap the same usage over any range.
pub proof fn lemma_cap_usage_own_interface_only(
    rs: Seq<UsageV>,
    rs2: Seq<UsageV>,
    ifs: Seq<InterfaceV>,
    start_ts: i64,
    end_ts: i64,
    g: Seq<char>,
)
    requires
        rs2.len() == rs.len(),
        forall|j: int|
            0 <= j < rs.len() ==> {
                &&& (#[trigger] rs2[j]).interface_id == rs[j].interface_id
                &&& rs2[j].ts == rs[j].ts
                &&& rs2[j].source == rs[j].source
                &&& (iface_by_id(ifs, rs[j].interface_id) matches Some(i) && i.guid == g ==> rs2[j] == rs[j])
            },
    ensures
        cap_usage(rs, ifs, start_ts, end_ts, Some(g)) == cap_usage(rs2, ifs, start_ts, end_ts, Some(g)),
{
    let n = rs.len() as int;
    lemma_min_ts_same_poll(rs, rs2, n);
    assert(poll_cutover_of(rs, ifs) == poll_cutover_of(rs2, ifs));
    let tags = cap_tags(rs, ifs, start_ts, end_ts, Some(g));
    let tags2 = cap_tags(rs2, ifs, start_ts, end_ts, Some(g));
    assert(tags =~= tags2);
    lemma_tagged_same(rs, rs2, tags, 0, sent_of(), n);
    lemma_tagged_same(rs, rs2, tags, 0, recv_of(), n);
}

/// Usage on other interfaces never changes what a cap that names an interface does: it
/// raises the same alerts, or fails the same way, on both tables.
pub proof fn lemma_cap_alerts_own_interface_only(
    rs: Seq<UsageV>,
    rs2: Seq<UsageV>,
    ifs: Seq<InterfaceV>,
    now_ts: i64,
    c: CapV,
    st: EvalState,
)
    requires
        c.interface_guid is Some,
        rs2.len() == rs.len(),
        forall|j: int|
            0 <= j < rs.len() ==> {
                &&& (#[trigger] rs2[j]).interface_id == rs[j].interface_id
                &&& rs2[j].ts == rs[j].ts
                &&& rs2[j].source == rs[j].source
                &&& (iface_by_id(ifs, rs[j].interface_id) matches Some(i) && i.guid == c.interface_guid->0
                    ==> rs2[j] == rs[j])
            },
    ensures
        cap_step(rs, ifs, now_ts, c, st) == cap_step(rs2, ifs, now_ts, c, st),
{
    let g = c.interface_guid->0;
    lemma_cap_usage_own_interface_only(rs, rs2, ifs, month_start(now_ts), eval_end(now_ts), g);
    lemma_cap_usage_own_interface_only(rs, rs2, ifs, day_start(now_ts) as i64, eval_end(now_ts), g);
}

/// `ts` comes before all polling: before every polled row and before every sighting of an
/// interface other than the attribution interface.
pub open spec fn before_polling(rs: Seq<UsageV>, ifs: Seq<InterfaceV>, ts: i64) -> bool {
    &&& forall|k: int|
        0 <= k < rs.len() && ((#[trigger] rs[k]).source == "interface_poll"@ || rs[k].source == "poll"@) ==> ts
            < rs[k].ts
    &&& forall|m: int| 0 <= m < ifs.len() && (#[trigger] ifs[m]).guid != attribution_guid() ==> ts < ifs[m].last_seen
}

/// `ts` comes before every row that the helper recorded.
pub open spec fn before_helper(rs: Seq<UsageV>, ts: i64) -> bool {
    forall|k: int| 0 <= k < rs.len() && (#[trigger] rs[k]).source == "helper"@ ==> ts < rs[k].ts
}

/// The earliest sighting of a polled interface is at most each such sighting.
proof fn lemma_min_seen_below(ifs: Seq<InterfaceV>, n: int, m: int)
    requires
        0 <= m < n <= ifs.len(),
        ifs[m].guid != attribution_guid(),
    ensures
        min_polled_last_seen(ifs, n) matches Some(x) && x <= ifs[m].last_seen,
    decreases n,
{
    if m < n - 1 {
        lemma_min_seen_below(ifs, n - 1, m);
    }
}

/// A time before the poll cutover comes before all polling.
proof fn lemma_before_poll_cutover(rs: Seq<UsageV>, ifs: Seq<InterfaceV>, ts: i64)
    requires
        before_cutover(ts, poll_cutover_of(rs, ifs)),
    ensures
        before_polling(rs, ifs, ts),
{
    assert forall|k: int|
        0 <= k < rs.len() && ((#[trigger] rs[k]).source == "interface_poll"@ || rs[k].source == "poll"@) implies ts
        < rs[k].ts by {
        lemma_min_ts_below(rs, source_is_poll(), rs.len() as int, k);
    }
    assert forall|m: int| 0 <= m < ifs.len() && (#[trigger] ifs[m]).guid != attribution_guid() implies ts
        < ifs[m].last_seen by {
        lemma_min_seen_below(ifs, ifs.len() as int, m);
    }
}

/// A time before the helper cutover comes before every helper row.
proof fn lemma_before_helper_cutover(db: &Db, ts: i64)
    requires
        before_cutover(ts, helper_cutover(db)),
    ensures
        before_helper(db.usage(), ts),
{
    let rs = db.usage();
    assert forall|k: int| 0 <= k < rs.len() && (#[trigger] rs[k]).source == "helper"@ implies ts < rs[k].ts by {
        lemma_min_ts_below(rs, source_is_helper(), rs.len() as int, k);
    }
}

/// The rows a cap's usage counts: in the range, on a known interface, on the cap's
/// interface when it names one, and polled, or imported before all polling.
pub proof fn lemma_cap_usage_rows(
    rs: Seq<UsageV>,
    ifs: Seq<InterfaceV>,
    start_ts: i64,
    end_ts: i64,
    guid: Option<Seq<char>>,
    j: int,
)
    requires
        0 <= j < rs.len(),
        cap_tags(rs, ifs, start_ts, end_ts, guid)[j] is Some,
    ensures
        iface_by_id(ifs, rs[j].interface_id) is Some,
        start_ts <= rs[j].ts < end_ts,
        guid matches Some(g) ==> iface_by_id(ifs, rs[j].interface_id)->0.guid == g,
        rs[j].source == "interface_poll"@ || rs[j].source == "poll"@ || (rs[j].source == "import"@
            && before_polling(rs, ifs, rs[j].ts)),
{
    if !is_poll_source(rs[j].source) {
        lemma_before_poll_cutover(rs, ifs, rs[j].ts);
    }
}

/// The rows a usage summary counts: in the range, on a known interface that passes both
/// filters; without an app filter, polled rows and rows imported before all polling; with
/// one, rows of a known app of that process name that the helper recorded or that were
/// imported before the helper's first record.
pub proof fn lemma_summary_rows(db: &Db, req: UsageSummaryRequest, j: int)
    requires
        0 <= j < db.usage().len(),
        summary_tags(db, req)[j] is Some,
    ensures
        iface_by_id(db.interfaces(), db.usage()[j].interface_id) is Some,
        req.start_ts <= db.usage()[j].ts < req.end_ts,
        req.interface_id matches Some(g) ==> iface_by_id(db.interfaces(), db.usage()[j].interface_id)->0.guid == g@,
        req.interface_type matches Some(t) ==> iface_by_id(db.interfaces(), db.usage()[j].interface_id)->0.kind
            == t@,
        req.app_filter is None ==> db.usage()[j].source == "interface_poll"@ || db.usage()[j].source == "poll"@
            || (db.usage()[j].source == "import"@ && before_polling(db.usage(), db.interfaces(), db.usage()[j].ts)),
        req.app_filter matches Some(f) ==> {
            &&& app_by_id(db.apps(), db.usage()[j].app_id) matches Some(a) && a.process_name == f@
            &&& db.usage()[j].source == "helper"@ || (db.usage()[j].source == "import"@ && before_helper(
                db.usage(),
                db.usage()[j].ts,
            ))
        },
{
    let r = db.usage()[j];
    if req.app_filter is None {
        if !is_poll_source(r.source) {
            lemma_before_poll_cutover(db.usage(), db.interfaces(), r.ts);
        }
    } else if r.source != "helper"@ {
        lemma_before_helper_cutover(db, r.ts);
    }
}

} // verus!
