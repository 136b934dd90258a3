use vstd::prelude::*;
use super::{Db, DbError, CapRow, CapV, CapEventRow, EventV, InterfaceV, UsageV, view_seq, opt_view, ids_at_most, lemma_ids_push};
use super::query::{iface_by_id, before_cutover, is_poll_source, non_negative, poll_cutover_of, min_opt, iface_id_is};
use super::group::{checked_sum, tagged, sent_of, recv_of, lemma_overflow_stays};
use super::caps::{threshold_bytes, daily_cap, clamped, threshold_bytes_for_percent, derive_daily_cap_bytes, as_i64_clamped};
use super::retention::day_start;
use super::sort::{SortKey, KeyV, sort_keys, sorted_from};
use super::breakdown::lemma_sorted_member;
use crate::seqs::{keep, lemma_keep_step, lemma_first_index_props};

verus! {

/// Days since 1970-01-01 to the day of the month (1-based), by the civil calendar.
pub open spec fn day_of_month(days: int) -> int {
    let z = days + 719468;
    let era = z / 146097;
    let doe = z - era * 146097;
    let yoe = (doe - doe / 1460 + doe / 36524 - doe / 146096) / 365;
    let doy = doe - (365 * yoe + yoe / 4 - yoe / 100);
    let mp = (5 * doy + 2) / 153;
    doy - (153 * mp + 2) / 5 + 1
}

/// The start of the UTC month that holds `ts`; outside the calendar's years 0000 to 9999
/// the time itself.
pub open spec fn month_start(ts: i64) -> i64 {
    if ts > 253402300799 || ts < -62167219200 {
        ts
    } else {
        let days = (ts as int) / 86400;
        ((days - (day_of_month(days) - 1)) * 86400) as i64
    }
}

proof fn lemma_shifted_div(x: int, d: int, k: int)
    requires
        d > 0,
    ensures
        (x + k * d) / d == x / d + k,
{
    vstd::arithmetic::div_mod::lemma_hoist_over_denominator(x, k, d as nat);
}

#[verifier::rlimit(50)]
pub fn utc_month_start_ts(now_ts: i64) -> (r: i64)
    ensures
        r == month_start(now_ts),
{
    if now_ts > 253402300799 || now_ts < -62167219200 {
        return now_ts;
    }
    let shifted: i64 = now_ts + 62167219200;
    proof {
        lemma_shifted_div(now_ts as int, 86400, 719528);
    }
    let days: i64 = shifted / 86400 - 719528;
    assert(days == (now_ts as int) / 86400);
    assert(-719528 <= days <= 2932897);
    let z: i64 = days + 719468;
    proof {
        lemma_shifted_div(z as int, 146097, 1);
    }
    let era: i64 = (z + 146097) / 146097 - 1;
    assert(era == (z as int) / 146097);
    assert(-1 <= era <= 26);
    assert(0 <= z - era * 146097 < 146097) by (nonlinear_arith)
        requires
            era == (z as int) / 146097,
    ;
    let doe: i64 = z - era * 146097;
    let a: i64 = doe / 1460;
    let b: i64 = doe / 36524;
    let c: i64 = doe / 146096;
    assert(0 <= a <= 101 && 0 <= b <= 4 && 0 <= c <= 1);
    let yoe: i64 = (doe - a + b - c) / 365;
    assert(0 <= yoe <= 401);
    let doy: i64 = doe - (365 * yoe + yoe / 4 - yoe / 100);
    assert(-2000 <= doy <= 146097);
    let mp: i64 = (5 * doy + 2) / 153;
    let dom: i64 = doy - (153 * mp + 2) / 5 + 1;
    assert(dom == day_of_month(days as int));
    assert(-1000 <= dom <= 150000);
    (days - (dom - 1)) * 86400
}

/// A usage record counted against a cap: polled, or imported before polling began, within
/// `[start_ts, end_ts)`, on the cap's interface when it names one.
pub open spec fn cap_counts(
    ifs: Seq<InterfaceV>,
    cut: Option<i64>,
    start_ts: i64,
    end_ts: i64,
    guid: Option<Seq<char>>,
    r: UsageV,
) -> bool {
    match iface_by_id(ifs, r.interface_id) {
        None => false,
        Some(i) => {
            &&& start_ts <= r.ts < end_ts
            &&& match guid {
                None => true,
                Some(g) => i.guid == g,
            }
            &&& (is_poll_source(r.source) || (r.source == "import"@ && before_cutover(r.ts, cut)))
        },
    }
}

pub open spec fn cap_tags(
    rs: Seq<UsageV>,
    ifs: Seq<InterfaceV>,
    start_ts: i64,
    end_ts: i64,
    guid: Option<Seq<char>>,
) -> Seq<Option<i64>> {
    Seq::new(
        rs.len(),
        |j: int|
            if cap_counts(ifs, poll_cutover_of(rs, ifs), start_ts, end_ts, guid, rs[j]) {
                Some(0i64)
            } else {
                None
            },
    )
}

/// Bytes sent plus received that count against a cap over `[start_ts, end_ts)`; `None`
/// when a sum leaves the `i64` range.
pub open spec fn cap_usage(
    rs: Seq<UsageV>,
    ifs: Seq<InterfaceV>,
    start_ts: i64,
    end_ts: i64,
    guid: Option<Seq<char>>,
) -> Option<u64> {
    let tags = cap_tags(rs, ifs, start_ts, end_ts, guid);
    let n = rs.len() as int;
    match (checked_sum(tagged(rs, tags, 0, sent_of(), n)), checked_sum(tagged(rs, tags, 0, recv_of(), n))) {
        (Some(s), Some(r)) => if i64::MIN <= s + r <= i64::MAX {
            Some(non_negative((s + r) as i64))
        } else {
            None
        },
        _ => None,
    }
}

/// Alert events agree on the key of the unique index: cap, window kind, window start,
/// threshold kind and threshold value.
pub open spec fn same_alert(e: EventV, d: EventV) -> bool {
    &&& e.cap_definition_id == d.cap_definition_id
    &&& e.window_kind == d.window_kind
    &&& e.window_start_ts == d.window_start_ts
    &&& e.threshold_kind == d.threshold_kind
    &&& e.threshold_value == d.threshold_value
}

pub open spec fn has_alert(events: Seq<EventV>, d: EventV) -> bool {
    exists|i: int| 0 <= i < events.len() && same_alert(#[trigger] events[i], d)
}

/// The events of an evaluation so far, the last event id, and how many were inserted.
pub struct EvalState {
    pub events: Seq<EventV>,
    pub last: i64,
    pub count: nat,
}

/// Inserting an alert: nothing when one with its key exists, else a new `new` event.
pub open spec fn insert_step(st: EvalState, d: EventV) -> (EvalState, Option<DbError>) {
    if has_alert(st.events, d) {
        (st, None)
    } else if st.last == i64::MAX {
        (st, Some(DbError::IdSpaceExhausted))
    } else {
        (
            EvalState {
                events: st.events.push(
                    EventV { id: (st.last + 1) as i64, delivery_state: "new"@, delivered_at: None, ..d },
                ),
                last: (st.last + 1) as i64,
                count: st.count + 1,
            },
            None,
        )
    }
}

/// Inserting alerts in order, stopping at the first failure.
pub open spec fn insert_all(st: EvalState, ds: Seq<EventV>) -> (EvalState, Option<DbError>)
    decreases ds.len(),
{
    if ds.len() == 0 {
        (st, None)
    } else {
        let (s1, e1) = insert_all(st, ds.drop_last());
        if e1 is Some {
            (s1, e1)
        } else {
            insert_step(s1, ds.last())
        }
    }
}

/// An alert of a cap for a window.
pub open spec fn draft(
    c: CapV,
    window_kind: Seq<char>,
    window_start_ts: i64,
    window_end_ts: i64,
    threshold_kind: Seq<char>,
    threshold_value: u64,
    usage: u64,
    cap: u64,
    now_ts: i64,
) -> EventV {
    EventV {
        id: 0,
        cap_definition_id: c.id,
        scope: c.scope,
        interface_guid: c.interface_guid,
        window_kind,
        window_start_ts,
        window_end_ts,
        threshold_kind,
        threshold_value: clamped(threshold_value),
        usage_bytes: clamped(usage),
        cap_bytes: clamped(cap),
        fired_at: now_ts,
        delivery_state: "new"@,
        delivered_at: None,
    }
}

pub open spec fn pct_kind(pct: u64) -> Seq<char> {
    if pct == 50 {
        "pct_50"@
    } else if pct == 80 {
        "pct_80"@
    } else {
        "pct_95"@
    }
}

/// The monthly alert for `pct` percent, when the usage reaches that share of the cap.
pub open spec fn pct_drafts(prev: Seq<EventV>, c: CapV, pct: u64, usage: u64, ms: i64, end: i64, now_ts: i64) -> Seq<EventV> {
    let capb = non_negative(c.monthly_cap_bytes);
    let tb = threshold_bytes(capb, pct);
    if tb == 0 || usage < tb {
        prev
    } else {
        prev.push(draft(c, "monthly"@, ms, end, pct_kind(pct), pct, usage, capb, now_ts))
    }
}

/// The monthly alerts a cap's usage calls for: at 50, 80 and 95 percent.
pub open spec fn monthly_drafts(c: CapV, usage: u64, ms: i64, end: i64, now_ts: i64) -> Seq<EventV> {
    let s50 = pct_drafts(Seq::empty(), c, 50, usage, ms, end, now_ts);
    let s80 = pct_drafts(s50, c, 80, usage, ms, end, now_ts);
    pct_drafts(s80, c, 95, usage, ms, end, now_ts)
}

/// The daily alert a cap's usage today calls for: at a thirtieth of the monthly cap.
pub open spec fn daily_drafts(c: CapV, usage: u64, ds: i64, end: i64, now_ts: i64) -> Seq<EventV> {
    let dc = daily_cap(non_negative(c.monthly_cap_bytes));
    if usage >= dc {
        seq![draft(c, "daily"@, ds, end, "daily_cap"@, dc, usage, dc, now_ts)]
    } else {
        Seq::empty()
    }
}

/// The end of the evaluated windows: one second after `now_ts`, saturating.
pub open spec fn eval_end(now_ts: i64) -> i64 {
    if now_ts == i64::MAX {
        i64::MAX
    } else {
        (now_ts + 1) as i64
    }
}

/// Evaluating one cap: its monthly usage and alerts, then its daily usage and alert.
pub open spec fn cap_step(rs: Seq<UsageV>, ifs: Seq<InterfaceV>, now_ts: i64, c: CapV, st: EvalState) -> (
    EvalState,
    Option<DbError>,
) {
    let ms = month_start(now_ts);
    let ds = day_start(now_ts) as i64;
    let end = eval_end(now_ts);
    match cap_usage(rs, ifs, ms, end, c.interface_guid) {
        None => (st, Some(DbError::IntegerOverflow)),
        Some(mu) => {
            let (s1, e1) = insert_all(st, monthly_drafts(c, mu, ms, end, now_ts));
            if e1 is Some {
                (s1, e1)
            } else {
                match cap_usage(rs, ifs, ds, end, c.interface_guid) {
                    None => (s1, Some(DbError::IntegerOverflow)),
                    Some(du) => insert_all(s1, daily_drafts(c, du, ds, end, now_ts)),
                }
            }
        },
    }
}

/// Evaluating caps in order, stopping at the first failure (earlier alerts stay).
pub open spec fn eval_caps(rs: Seq<UsageV>, ifs: Seq<InterfaceV>, now_ts: i64, caps: Seq<CapV>, st: EvalState) -> (
    EvalState,
    Option<DbError>,
)
    decreases caps.len(),
{
    if caps.len() == 0 {
        (st, None)
    } else {
        let (s1, e1) = eval_caps(rs, ifs, now_ts, caps.drop_last(), st);
        if e1 is Some {
            (s1, e1)
        } else {
            cap_step(rs, ifs, now_ts, caps.last(), s1)
        }
    }
}

/// Active caps with a positive cap take part in an evaluation.
pub open spec fn cap_active() -> spec_fn(CapV) -> bool {
    |c: CapV| c.is_active && c.monthly_cap_bytes > 0
}

/// Caps are evaluated by id (then table position).
pub open spec fn active_keys(act: Seq<CapV>) -> Seq<KeyV> {
    let e = Seq::<char>::empty();
    Seq::new(
        act.len(),
        |i: int| KeyV { s0: e, s1: e, n1: act[i].id as int, n2: 0, n3: 0, s2: e, s3: e, id: i, pos: i },
    )
}

pub open spec fn ordered_caps(act: Seq<CapV>, s: Seq<KeyV>) -> Seq<CapV> {
    Seq::new(s.len(), |i: int| act[s[i].pos])
}

/// An evaluation's outcome given the order `s` of the active caps.
pub open spec fn eval_result(old_db: &Db, new_db: &Db, now_ts: i64, s: Seq<KeyV>, r: Result<usize, DbError>) -> bool {
    let act = keep(old_db.caps(), cap_active());
    let st0 = EvalState { events: old_db.events(), last: old_db.last_event(), count: 0 };
    let (st, e) = eval_caps(old_db.usage(), old_db.interfaces(), now_ts, ordered_caps(act, s), st0);
    &&& sorted_from(active_keys(act), s)
    &&& new_db.events() == st.events
    &&& new_db.last_event() == st.last
    &&& match e {
        Some(err) => r == Err::<usize, DbError>(err),
        None => r == Ok::<usize, DbError>(st.count as usize),
    }
}

impl Db {
    fn poll_cutover_now(&self) -> (r: Option<i64>)
        ensures
            r == poll_cutover_of(self.usage(), self.interfaces()),
    {
        let a = self.min_usage_ts(true);
        let b = self.min_polled_interface_seen();
        match (a, b) {
            (None, y) => y,
            (x, None) => x,
            (Some(x), Some(y)) => Some(
                if x <= y {
                    x
                } else {
                    y
                },
            ),
        }
    }

    /// The bytes that count against a cap over a range, `Err` when a sum overflows.
    fn cap_usage_bytes(&self, cut: Option<i64>, start_ts: i64, end_ts: i64, guid: &Option<String>) -> (r: Result<u64, DbError>)
        requires
            cut == poll_cutover_of(self.usage(), self.interfaces()),
        ensures
            match cap_usage(self.usage(), self.interfaces(), start_ts, end_ts, opt_view(*guid)) {
                Some(v) => r == Ok::<u64, DbError>(v),
                None => r == Err::<u64, DbError>(DbError::IntegerOverflow),
            },
    {
        let ghost rs = self.usage();
        let ghost tags = cap_tags(rs, self.interfaces(), start_ts, end_ts, opt_view(*guid));
        let mut sent: i64 = 0;
        let mut recv: i64 = 0;
        let mut k: usize = 0;
        while k < self.t.usage_records.len()
            invariant
                rs == self.usage(),
                rs.len() == self.t.usage_records@.len(),
                cut == poll_cutover_of(self.usage(), self.interfaces()),
                tags == cap_tags(rs, self.interfaces(), start_ts, end_ts, opt_view(*guid)),
                k <= rs.len(),
                checked_sum(tagged(rs, tags, 0, sent_of(), k as int)) == Some(sent),
                checked_sum(tagged(rs, tags, 0, recv_of(), k as int)) == Some(recv),
            decreases rs.len() - k,
        {
            let row = &self.t.usage_records[k];
            assert(rs[k as int] == row@);
            let counts = match self.find_interface_by_id(row.interface_id) {
                None => false,
                Some(i) => {
                    let iface = &self.t.interfaces[i];
                    assert(self.interfaces()[i as int] == iface@);
                    let before = match cut {
                        None => true,
                        Some(c) => row.ts < c,
                    };
                    start_ts <= row.ts && row.ts < end_ts && (match guid {
                        None => true,
                        Some(g) => crate::text::same_text(&iface.guid, g),
                    }) && (crate::text::str_is(row.source.as_str(), "interface_poll") || crate::text::str_is(
                        row.source.as_str(),
                        "poll",
                    ) || (crate::text::str_is(row.source.as_str(), "import") && before))
                },
            };
            assert(counts == (tags[k as int] == Some(0i64)));
            if counts {
                let ghost ps = tagged(rs, tags, 0, sent_of(), k as int);
                let ghost pr = tagged(rs, tags, 0, recv_of(), k as int);
                assert(ps.push(row.bytes_sent).drop_last() =~= ps);
                assert(pr.push(row.bytes_recv).drop_last() =~= pr);
                sent = match sent.checked_add(row.bytes_sent) {
                    Some(v) => v,
                    None => {
                        proof {
                            lemma_overflow_stays(rs, tags, 0, sent_of(), k + 1, rs.len() as int);
                        }
                        return Err(DbError::IntegerOverflow);
                    },
                };
                recv = match recv.checked_add(row.bytes_recv) {
                    Some(v) => v,
                    None => {
                        proof {
                            lemma_overflow_stays(rs, tags, 0, recv_of(), k + 1, rs.len() as int);
                        }
                        return Err(DbError::IntegerOverflow);
                    },
                };
            }
            k = k + 1;
        }
        let total: i128 = (sent as i128) + (recv as i128);
        if total < -9223372036854775808i128 || total > 9223372036854775807i128 {
            return Err(DbError::IntegerOverflow);
        }
        if total < 0 {
            Ok(0)
        } else {
            Ok(total as u64)
        }
    }

    fn has_alert_exec(&self, d: &CapEventRow) -> (r: bool)
        ensures
            r == has_alert(self.events(), d@),
    {
        let ghost ev = self.events();
        let mut k: usize = 0;
        while k < self.t.cap_events.len()
            invariant
                ev == self.events(),
                k <= ev.len(),
                forall|j: int| 0 <= j < k ==> !same_alert(#[trigger] ev[j], d@),
            decreases ev.len() - k,
        {
            let e = &self.t.cap_events[k];
            assert(ev[k as int] == e@);
            if e.cap_definition_id == d.cap_definition_id && crate::text::same_text(&e.window_kind, &d.window_kind)
                && e.window_start_ts == d.window_start_ts && crate::text::same_text(&e.threshold_kind, &d.threshold_kind)
                && e.threshold_value == d.threshold_value {
                assert(same_alert(ev[k as int], d@));
                return true;
            }
            k = k + 1;
        }
        false
    }

    /// Adds an alert event unless one with its key exists; says whether it added one.
    fn insert_alert(&mut self, d: CapEventRow) -> (r: Result<bool, DbError>)
        requires
            old(self).wf(),
        ensures
            final(self).wf(),
            final(self).same_settings(old(self)),
            final(self).same_interfaces(old(self)),
            final(self).same_apps(old(self)),
            final(self).same_usage(old(self)),
            final(self).same_afk(old(self)),
            final(self).same_caps(old(self)),
            ({
                let st = EvalState { events: old(self).events(), last: old(self).last_event(), count: 0 };
                let (st2, e) = insert_step(st, d@);
                &&& final(self).events() == st2.events
                &&& final(self).last_event() == st2.last
                &&& match e {
                    Some(err) => r == Err::<bool, DbError>(err),
                    None => r == Ok::<bool, DbError>(st2.count == 1),
                }
            }),
    {
        let ghost ev = self.events();
        if self.has_alert_exec(&d) {
            return Ok(false);
        }
        if self.last_event_id == i64::MAX {
            return Err(DbError::IdSpaceExhausted);
        }
        let id = self.last_event_id + 1;
        let row = CapEventRow { id, delivery_state: "new".to_string(), delivered_at: None, ..d };
        proof {
            reveal_strlit("new");
            lemma_ids_push(self.t.cap_events@, |r: CapEventRow| r.id, self.last_event_id, id, row);
        }
        self.t.cap_events.push(row);
        self.last_event_id = id;
        assert(self.events() =~= ev.push(row@));
        Ok(true)
    }
}

/// A failed evaluation stays failed, with the same state, whatever caps follow.
proof fn lemma_eval_stops(
    rs: Seq<UsageV>,
    ifs: Seq<InterfaceV>,
    now_ts: i64,
    caps: Seq<CapV>,
    st0: EvalState,
    k: int,
)
    requires
        0 <= k <= caps.len(),
        eval_caps(rs, ifs, now_ts, caps.subrange(0, k), st0).1 is Some,
    ensures
        eval_caps(rs, ifs, now_ts, caps, st0) == eval_caps(rs, ifs, now_ts, caps.subrange(0, k), st0),
    decreases caps.len() - k,
{
    if k < caps.len() {
        assert(caps.subrange(0, k + 1).drop_last() =~= caps.subrange(0, k));
        lemma_eval_stops(rs, ifs, now_ts, caps, st0, k + 1);
    } else {
        assert(caps.subrange(0, k) =~= caps);
    }
}

/// Inserting alerts from a count of `n` ends `n` higher than from zero, otherwise alike.
proof fn lemma_insert_all_shift(st: EvalState, ds: Seq<EventV>, n: nat)
    ensures
        insert_all(EvalState { count: st.count + n, ..st }, ds).1 == insert_all(st, ds).1,
        insert_all(EvalState { count: st.count + n, ..st }, ds).0 == (EvalState {
            count: insert_all(st, ds).0.count + n,
            ..insert_all(st, ds).0
        }),
        insert_all(st, ds).0.count <= st.count + ds.len(),
        insert_all(st, ds).0.count - st.count <= insert_all(st, ds).0.events.len() - st.events.len(),
        insert_all(st, ds).0.events.len() >= st.events.len(),
    decreases ds.len(),
{
    if ds.len() > 0 {
        lemma_insert_all_shift(st, ds.drop_last(), n);
    }
}

impl Db {
    /// Raises the monthly alerts a cap's usage calls for; says how many were raised.
    fn raise_monthly(&mut self, c: &CapRow, capb: u64, mu: u64, ms: i64, end: i64, now_ts: i64) -> (r: Result<usize, DbError>)
        requires
            old(self).wf(),
            capb == non_negative(c@.monthly_cap_bytes),
        ensures
            final(self).wf(),
            final(self).same_settings(old(self)),
            final(self).same_interfaces(old(self)),
            final(self).same_apps(old(self)),
            final(self).same_usage(old(self)),
            final(self).same_afk(old(self)),
            final(self).same_caps(old(self)),
            ({
                let st = EvalState { events: old(self).events(), last: old(self).last_event(), count: 0 };
                let (st2, e) = insert_all(st, monthly_drafts(c@, mu, ms, end, now_ts));
                &&& final(self).events() == st2.events
                &&& final(self).last_event() == st2.last
                &&& match e {
                    Some(err) => r == Err::<usize, DbError>(err),
                    None => r == Ok::<usize, DbError>(st2.count as usize),
                }
            }),
    {
        let ghost st0 = EvalState { events: self.events(), last: self.last_event(), count: 0 };
        let ghost mut st = st0;
        let ghost mut dl: Seq<EventV> = Seq::empty();
        let mut count: usize = 0;
        let mut p: usize = 0;
        while p < 3
            invariant
                p <= 3,
                self.wf(),
                self.same_settings(old(self)),
                self.same_interfaces(old(self)),
                self.same_apps(old(self)),
                self.same_usage(old(self)),
                self.same_afk(old(self)),
                self.same_caps(old(self)),
                st0 == (EvalState { events: old(self).events(), last: old(self).last_event(), count: 0 }),
                capb == non_negative(c@.monthly_cap_bytes),
                dl == (if p == 0 {
                    Seq::<EventV>::empty()
                } else if p == 1 {
                    pct_drafts(Seq::empty(), c@, 50, mu, ms, end, now_ts)
                } else if p == 2 {
                    pct_drafts(pct_drafts(Seq::empty(), c@, 50, mu, ms, end, now_ts), c@, 80, mu, ms, end, now_ts)
                } else {
                    monthly_drafts(c@, mu, ms, end, now_ts)
                }),
                insert_all(st0, dl) == (st, None::<DbError>),
                self.events() == st.events,
                self.last_event() == st.last,
                count as nat == st.count,
                st.count <= st.events.len() - st0.events.len(),
            decreases 3 - p,
        {
            let pct: u64 = if p == 0 {
                50
            } else if p == 1 {
                80
            } else {
                95
            };
            let kind: &str = if p == 0 {
                "pct_50"
            } else if p == 1 {
                "pct_80"
            } else {
                "pct_95"
            };
            assert(kind@ == pct_kind(pct)) by {
                reveal_strlit("pct_50");
                reveal_strlit("pct_80");
                reveal_strlit("pct_95");
            }
            let tb = threshold_bytes_for_percent(capb, pct);
            let ghost dl2 = pct_drafts(dl, c@, pct, mu, ms, end, now_ts);
            if !(tb == 0 || mu < tb) {
                let ghost st_before = st;
                assert(dl2.drop_last() =~= dl);
                match self.raise_alert(c, "monthly", ms, end, kind, pct, mu, capb, now_ts) {
                    Ok(ins) => {
                        let ghost z = EvalState { count: 0, ..st_before };
                        assert(insert_step(z, dl2.last()).1 is None);
                        assert(insert_step(st_before, dl2.last()).1 is None);
                        proof {
                            st = insert_step(st_before, dl2.last()).0;
                        }
                        let _n = self.t.cap_events.len();
                        assert(self.events().len() == self.t.cap_events@.len());
                        assert(st.count == count as nat + if ins { 1nat } else { 0nat });
                        assert(st.count <= st.events.len() - st0.events.len());
                        if ins {
                            count = count + 1;
                        }
                    },
                    Err(e) => {
                        proof {
                            let stf = insert_step(st_before, dl2.last()).0;
                            assert(stf == st_before);
                            assert(self.events() == stf.events);
                            assert(self.last_event() == stf.last);
                            assert(insert_all(st0, dl2) == (stf, Some(e)));
                            let d50 = pct_drafts(Seq::empty(), c@, 50, mu, ms, end, now_ts);
                            let d80 = pct_drafts(d50, c@, 80, mu, ms, end, now_ts);
                            let d95 = pct_drafts(d80, c@, 95, mu, ms, end, now_ts);
                            if p == 0 {
                                assert(dl2 == d50);
                                if d80.len() > d50.len() {
                                    assert(d80.drop_last() =~= d50);
                                }
                                assert(insert_all(st0, d80) == (stf, Some(e)));
                                if d95.len() > d80.len() {
                                    assert(d95.drop_last() =~= d80);
                                }
                                assert(insert_all(st0, d95) == (stf, Some(e)));
                            } else if p == 1 {
                                assert(dl2 == d80);
                                if d95.len() > d80.len() {
                                    assert(d95.drop_last() =~= d80);
                                }
                                assert(insert_all(st0, d95) == (stf, Some(e)));
                            } else {
                                assert(dl2 == d95);
                            }
                            assert(insert_all(st0, monthly_drafts(c@, mu, ms, end, now_ts)) == (stf, Some(e)));
                        }
                        return Err(e);
                    },
                }
            }
            proof {
                dl = dl2;
            }
            p = p + 1;
        }
        Ok(count)
    }

    /// Raises the daily alert a cap's usage today calls for; says how many were raised.
    fn raise_daily(&mut self, c: &CapRow, capb: u64, du: u64, ds: i64, end: i64, now_ts: i64) -> (r: Result<usize, DbError>)
        requires
            old(self).wf(),
            capb == non_negative(c@.monthly_cap_bytes),
        ensures
            final(self).wf(),
            final(self).same_settings(old(self)),
            final(self).same_interfaces(old(self)),
            final(self).same_apps(old(self)),
            final(self).same_usage(old(self)),
            final(self).same_afk(old(self)),
            final(self).same_caps(old(self)),
            ({
                let st = EvalState { events: old(self).events(), last: old(self).last_event(), count: 0 };
                let (st2, e) = insert_all(st, daily_drafts(c@, du, ds, end, now_ts));
                &&& final(self).events() == st2.events
                &&& final(self).last_event() == st2.last
                &&& match e {
                    Some(err) => r == Err::<usize, DbError>(err),
                    None => r == Ok::<usize, DbError>(st2.count as usize),
                }
            }),
    {
        let dc = derive_daily_cap_bytes(capb);
        let ghost dd = daily_drafts(c@, du, ds, end, now_ts);
        let ghost st = EvalState { events: self.events(), last: self.last_event(), count: 0 };
        if du >= dc {
            assert(dd.drop_last() =~= Seq::<EventV>::empty());
            assert(dd.last() == draft(c@, "daily"@, ds, end, "daily_cap"@, dc, du, dc, now_ts));
            assert(insert_all(st, Seq::<EventV>::empty()) == (st, None::<DbError>));
            assert(insert_all(st, dd) == insert_step(st, dd.last()));
            match self.raise_alert(c, "daily", ds, end, "daily_cap", dc, du, dc, now_ts) {
                Ok(ins) => Ok(
                    if ins {
                        1
                    } else {
                        0
                    },
                ),
                Err(e) => Err(e),
            }
        } else {
            assert(dd =~= Seq::<EventV>::empty());
            Ok(0)
        }
    }

    /// Inserts the alert of a cap for a window unless it was raised before.
    fn raise_alert(
        &mut self,
        c: &CapRow,
        window_kind: &str,
        window_start_ts: i64,
        window_end_ts: i64,
        threshold_kind: &str,
        threshold_value: u64,
        usage: u64,
        cap: u64,
        now_ts: i64,
    ) -> (r: Result<bool, DbError>)
        requires
            old(self).wf(),
        ensures
            final(self).wf(),
            final(self).same_settings(old(self)),
            final(self).same_interfaces(old(self)),
            final(self).same_apps(old(self)),
            final(self).same_usage(old(self)),
            final(self).same_afk(old(self)),
            final(self).same_caps(old(self)),
            ({
                let st = EvalState { events: old(self).events(), last: old(self).last_event(), count: 0 };
                let (st2, e) = insert_step(
                    st,
                    draft(c@, window_kind@, window_start_ts, window_end_ts, threshold_kind@, threshold_value, usage, cap, now_ts),
                );
                &&& final(self).events() == st2.events
                &&& final(self).last_event() == st2.last
                &&& match e {
                    Some(err) => r == Err::<bool, DbError>(err),
                    None => r == Ok::<bool, DbError>(st2.count == 1),
                }
            }),
    {
        let d = CapEventRow {
            id: 0,
            cap_definition_id: c.id,
            scope: c.scope.clone(),
            interface_guid: super::query::copy_opt_string(&c.interface_guid),
            window_kind: window_kind.to_string(),
            window_start_ts,
            window_end_ts,
            threshold_kind: threshold_kind.to_string(),
            threshold_value: as_i64_clamped(threshold_value),
            usage_bytes: as_i64_clamped(usage),
            cap_bytes: as_i64_clamped(cap),
            fired_at: now_ts,
            delivery_state: "new".to_string(),
            delivered_at: None,
        };
        proof {
            reveal_strlit("new");
        }
        assert(d@ == draft(c@, window_kind@, window_start_ts, window_end_ts, threshold_kind@, threshold_value, usage, cap, now_ts));
        self.insert_alert(d)
    }

    /// Raises the alerts that the caps' usage calls for at `now_ts`: for each active cap, by
    /// id, a monthly alert at 50, 80 and 95 percent of the cap, and a daily alert at a
    /// thirtieth of it, each at most once per window. Returns how many were raised. A failure
    /// stops the evaluation; alerts raised before it stay.
    pub fn evaluate_cap_alerts(&mut self, now_ts: i64) -> (r: Result<usize, DbError>)
        requires
            old(self).wf(),
        ensures
            final(self).wf(),
            final(self).same_settings(old(self)),
            final(self).same_interfaces(old(self)),
            final(self).same_apps(old(self)),
            final(self).same_usage(old(self)),
            final(self).same_afk(old(self)),
            final(self).same_caps(old(self)),
            now_ts <= 0 ==> r == Ok::<usize, DbError>(0) && final(self).same_events(old(self)),
            now_ts > 0 ==> exists|s: Seq<KeyV>| eval_result(old(self), final(self), now_ts, s, r),
    {
        if now_ts <= 0 {
            return Ok(0);
        }
        let ghost caps0 = self.caps();
        let ghost act = keep(caps0, cap_active());
        let ghost rs = self.usage();
        let ghost ifs = self.interfaces();
        let ghost st0 = EvalState { events: self.events(), last: self.last_event(), count: 0 };
        let mut picked: Vec<usize> = Vec::new();
        let mut keys: Vec<SortKey> = Vec::new();
        let mut k: usize = 0;
        while k < self.t.caps.len()
            invariant
                caps0 == self.caps(),
                k <= caps0.len(),
                picked@.len() == keys@.len(),
                picked@.len() == keep(caps0.subrange(0, k as int), cap_active()).len(),
                forall|j: int|
                    0 <= j < picked@.len() ==> (#[trigger] picked@[j]) < caps0.len() && caps0[picked@[j] as int] == keep(
                        caps0.subrange(0, k as int),
                        cap_active(),
                    )[j],
                forall|j: int| 0 <= j < keys@.len() ==> (#[trigger] keys@[j])@ == active_keys(keep(caps0.subrange(0, k as int), cap_active()))[j],
            decreases caps0.len() - k,
        {
            let c = &self.t.caps[k];
            assert(caps0[k as int] == c@);
            proof {
                lemma_keep_step(caps0, cap_active(), k as int);
            }
            if c.is_active && c.monthly_cap_bytes > 0 {
                let pos = picked.len();
                keys.push(SortKey { s0: Vec::new(), s1: Vec::new(), n1: c.id as i128, n2: 0, n3: 0, s2: Vec::new(), s3: Vec::new(), id: pos as i128, pos });
                picked.push(k);
            }
            k = k + 1;
        }
        assert(caps0.subrange(0, caps0.len() as int) =~= caps0);
        proof {
            assert(view_seq(keys@) =~= active_keys(act));
            assert forall|a: int, b: int| 0 <= a < b < view_seq(keys@).len() implies (#[trigger] view_seq(keys@)[a]).id
                != (#[trigger] view_seq(keys@)[b]).id by {
                assert(view_seq(keys@)[a].id == a);
                assert(view_seq(keys@)[b].id == b);
            }
        }
        let sorted = sort_keys(keys);
        let ghost s = view_seq(sorted@);
        let ghost ordered = ordered_caps(act, s);
        let ms = utc_month_start_ts(now_ts);
        let ds: i64 = now_ts - now_ts % 86400;
        let end: i64 = if now_ts == i64::MAX {
            i64::MAX
        } else {
            now_ts + 1
        };
        let cut = self.poll_cutover_now();
        let mut count: usize = 0;
        let ghost mut st = st0;
        let mut i: usize = 0;
        while i < sorted.len()
            invariant
                now_ts > 0,
                s == view_seq(sorted@),
                sorted_from(active_keys(act), s),
                ordered == ordered_caps(act, s),
                act == keep(caps0, cap_active()),
                caps0 == old(self).caps(),
                rs == old(self).usage(),
                ifs == old(self).interfaces(),
                st0 == (EvalState { events: old(self).events(), last: old(self).last_event(), count: 0 }),
                picked@.len() == act.len(),
                forall|j: int| 0 <= j < picked@.len() ==> (#[trigger] picked@[j]) < caps0.len() && caps0[picked@[j] as int] == act[j],
                ms == month_start(now_ts),
                ds == day_start(now_ts),
                end == eval_end(now_ts),
                cut == poll_cutover_of(rs, ifs),
                i <= s.len(),
                self.wf(),
                self.same_settings(old(self)),
                self.same_interfaces(old(self)),
                self.same_apps(old(self)),
                self.same_usage(old(self)),
                self.same_afk(old(self)),
                self.same_caps(old(self)),
                eval_caps(rs, ifs, now_ts, ordered.subrange(0, i as int), st0) == (st, None::<DbError>),
                self.events() == st.events,
                self.last_event() == st.last,
                count as nat == st.count,
                st.count <= st.events.len(),
            decreases s.len() - i,
        {
            proof {
                lemma_sorted_member(active_keys(act), s, i as int);
                let j = choose|j: int| 0 <= j < act.len() && active_keys(act)[j] == s[i as int];
                assert(active_keys(act)[j].pos == j);
                assert(ordered.subrange(0, i + 1).drop_last() =~= ordered.subrange(0, i as int));
            }
            let q = sorted[i].pos;
            assert(s[i as int].pos == q);
            let c = self.t.caps[picked[q]].copy();
            assert(c@ == ordered[i as int]);
            assert(self.usage() == rs && self.interfaces() == ifs);
            let capb: u64 = if c.monthly_cap_bytes < 0 {
                0
            } else {
                c.monthly_cap_bytes as u64
            };
            let ghost st_i = st;
            let mu = match self.cap_usage_bytes(cut, ms, end, &c.interface_guid) {
                Ok(v) => v,
                Err(e) => {
                    proof {
                        lemma_eval_stops(rs, ifs, now_ts, ordered, st0, i + 1);
                        assert(eval_result(old(self), self, now_ts, s, Err::<usize, DbError>(e)));
                    }
                    return Err(e);
                },
            };
            let added = match self.raise_monthly(&c, capb, mu, ms, end, now_ts) {
                Ok(a) => a,
                Err(e) => {
                    proof {
                        lemma_insert_all_shift(EvalState { count: 0, ..st_i }, monthly_drafts(c@, mu, ms, end, now_ts), st_i.count);
                        assert(EvalState { count: 0 + st_i.count, ..st_i } == st_i);
                        lemma_eval_stops(rs, ifs, now_ts, ordered, st0, i + 1);
                        assert(eval_result(old(self), self, now_ts, s, Err::<usize, DbError>(e)));
                    }
                    return Err(e);
                },
            };
            proof {
                lemma_insert_all_shift(EvalState { count: 0, ..st_i }, monthly_drafts(c@, mu, ms, end, now_ts), st_i.count);
                assert(EvalState { count: 0 + st_i.count, ..st_i } == st_i);
                st = insert_all(st_i, monthly_drafts(c@, mu, ms, end, now_ts)).0;
            }
            let _n = self.t.cap_events.len();
            assert(st.count <= st.events.len());
            count = count + added;
            let dc = derive_daily_cap_bytes(capb);
            let ghost st_m = st;
            let du = match self.cap_usage_bytes(cut, ds, end, &c.interface_guid) {
                Ok(v) => v,
                Err(e) => {
                    proof {
                        lemma_eval_stops(rs, ifs, now_ts, ordered, st0, i + 1);
                        assert(eval_result(old(self), self, now_ts, s, Err::<usize, DbError>(e)));
                    }
                    return Err(e);
                },
            };
            let added = match self.raise_daily(&c, capb, du, ds, end, now_ts) {
                Ok(a) => a,
                Err(e) => {
                    proof {
                        lemma_insert_all_shift(EvalState { count: 0, ..st_m }, daily_drafts(c@, du, ds, end, now_ts), st_m.count);
                        assert(EvalState { count: 0 + st_m.count, ..st_m } == st_m);
                        lemma_eval_stops(rs, ifs, now_ts, ordered, st0, i + 1);
                        assert(eval_result(old(self), self, now_ts, s, Err::<usize, DbError>(e)));
                    }
                    return Err(e);
                },
            };
            proof {
                lemma_insert_all_shift(EvalState { count: 0, ..st_m }, daily_drafts(c@, du, ds, end, now_ts), st_m.count);
                assert(EvalState { count: 0 + st_m.count, ..st_m } == st_m);
                st = insert_all(st_m, daily_drafts(c@, du, ds, end, now_ts)).0;
            }
            let _n = self.t.cap_events.len();
            assert(st.count <= st.events.len());
            count = count + added;
            assert(cap_step(rs, ifs, now_ts, ordered[i as int], st_i) == (st, None::<DbError>));
            i = i + 1;
        }
        assert(ordered.subrange(0, s.len() as int) =~= ordered);
        assert(eval_result(old(self), self, now_ts, s, Ok::<usize, DbError>(count)));
        Ok(count)
    }
}

/// `b` starts with `a`.
pub open spec fn extends(a: Seq<EventV>, b: Seq<EventV>) -> bool {
    a.len() <= b.len() && b.subrange(0, a.len() as int) == a
}

/// Every alert of `ds` has been raised in `events`.
pub open spec fn covers(events: Seq<EventV>, ds: Seq<EventV>) -> bool {
    forall|i: int| 0 <= i < ds.len() ==> has_alert(events, #[trigger] ds[i])
}

/// A cap's usage sums are in range and all the alerts they call for have been raised.
pub open spec fn cap_covered(rs: Seq<UsageV>, ifs: Seq<InterfaceV>, now_ts: i64, c: CapV, events: Seq<EventV>) -> bool {
    let ms = month_start(now_ts);
    let ds = day_start(now_ts) as i64;
    let end = eval_end(now_ts);
    match (cap_usage(rs, ifs, ms, end, c.interface_guid), cap_usage(rs, ifs, ds, end, c.interface_guid)) {
        (Some(mu), Some(du)) => covers(events, monthly_drafts(c, mu, ms, end, now_ts)) && covers(
            events,
            daily_drafts(c, du, ds, end, now_ts),
        ),
        _ => false,
    }
}

proof fn lemma_extends_covers(a: Seq<EventV>, b: Seq<EventV>, ds: Seq<EventV>)
    requires
        extends(a, b),
        covers(a, ds),
    ensures
        covers(b, ds),
{
    assert forall|i: int| 0 <= i < ds.len() implies has_alert(b, #[trigger] ds[i]) by {
        let j = choose|j: int| 0 <= j < a.len() && same_alert(#[trigger] a[j], ds[i]);
        assert(b[j] == b.subrange(0, a.len() as int)[j]);
    }
}

proof fn lemma_extends_trans(a: Seq<EventV>, b: Seq<EventV>, c: Seq<EventV>)
    requires
        extends(a, b),
        extends(b, c),
    ensures
        extends(a, c),
{
    assert(c.subrange(0, a.len() as int) =~= b.subrange(0, a.len() as int));
}

/// A successful run of inserts has raised every alert it was given and only added events.
proof fn lemma_insert_all_covers(st: EvalState, ds: Seq<EventV>)
    requires
        insert_all(st, ds).1 is None,
    ensures
        covers(insert_all(st, ds).0.events, ds),
        extends(st.events, insert_all(st, ds).0.events),
    decreases ds.len(),
{
    if ds.len() == 0 {
        assert(st.events.subrange(0, st.events.len() as int) =~= st.events);
    } else {
        let (s1, e1) = insert_all(st, ds.drop_last());
        lemma_insert_all_covers(st, ds.drop_last());
        let d = ds.last();
        let s2 = insert_step(s1, d).0;
        if !has_alert(s1.events, d) {
            assert(extends(s1.events, s2.events)) by {
                assert(s2.events.subrange(0, s1.events.len() as int) =~= s1.events);
            }
            assert(same_alert(s2.events[s1.events.len() as int], d));
            assert(has_alert(s2.events, d));
            lemma_extends_trans(st.events, s1.events, s2.events);
            lemma_extends_covers(s1.events, s2.events, ds.drop_last());
        } else {
            assert(s2 == s1);
        }
        assert forall|i: int| 0 <= i < ds.len() implies has_alert(s2.events, #[trigger] ds[i]) by {
            if i < ds.len() - 1 {
                assert(ds[i] == ds.drop_last()[i]);
            }
        }
    }
}

/// Inserting alerts that were all raised before changes nothing.
proof fn lemma_insert_all_noop(st: EvalState, ds: Seq<EventV>)
    requires
        covers(st.events, ds),
    ensures
        insert_all(st, ds) == (st, None::<DbError>),
    decreases ds.len(),
{
    if ds.len() > 0 {
        assert forall|i: int| 0 <= i < ds.drop_last().len() implies has_alert(st.events, #[trigger] ds.drop_last()[i]) by {
            assert(ds.drop_last()[i] == ds[i]);
        }
        lemma_insert_all_noop(st, ds.drop_last());
        assert(has_alert(st.events, ds[ds.len() - 1]));
    }
}

/// A successful evaluation has raised every alert its caps call for and only added events.
pub proof fn lemma_eval_covers(rs: Seq<UsageV>, ifs: Seq<InterfaceV>, now_ts: i64, caps: Seq<CapV>, st: EvalState)
    requires
        eval_caps(rs, ifs, now_ts, caps, st).1 is None,
    ensures
        extends(st.events, eval_caps(rs, ifs, now_ts, caps, st).0.events),
        forall|i: int|
            0 <= i < caps.len() ==> cap_covered(rs, ifs, now_ts, #[trigger] caps[i], eval_caps(rs, ifs, now_ts, caps, st).0.events),
    decreases caps.len(),
{
    if caps.len() == 0 {
        assert(st.events.subrange(0, st.events.len() as int) =~= st.events);
    } else {
        let (s1, e1) = eval_caps(rs, ifs, now_ts, caps.drop_last(), st);
        lemma_eval_covers(rs, ifs, now_ts, caps.drop_last(), st);
        let c = caps.last();
        let ms = month_start(now_ts);
        let ds = day_start(now_ts) as i64;
        let end = eval_end(now_ts);
        let mu = cap_usage(rs, ifs, ms, end, c.interface_guid)->0;
        let du = cap_usage(rs, ifs, ds, end, c.interface_guid)->0;
        let md = monthly_drafts(c, mu, ms, end, now_ts);
        let dd = daily_drafts(c, du, ds, end, now_ts);
        let (sm, em) = insert_all(s1, md);
        lemma_insert_all_covers(s1, md);
        let (sd, ed) = insert_all(sm, dd);
        lemma_insert_all_covers(sm, dd);
        lemma_extends_trans(s1.events, sm.events, sd.events);
        lemma_extends_trans(st.events, s1.events, sd.events);
        lemma_extends_covers(sm.events, sd.events, md);
        assert forall|i: int| 0 <= i < caps.len() implies cap_covered(rs, ifs, now_ts, #[trigger] caps[i], sd.events) by {
            if i < caps.len() - 1 {
                assert(caps[i] == caps.drop_last()[i]);
                assert(cap_covered(rs, ifs, now_ts, caps.drop_last()[i], s1.events));
                let mu2 = cap_usage(rs, ifs, ms, end, caps[i].interface_guid)->0;
                let du2 = cap_usage(rs, ifs, ds, end, caps[i].interface_guid)->0;
                lemma_extends_covers(s1.events, sd.events, monthly_drafts(caps[i], mu2, ms, end, now_ts));
                lemma_extends_covers(s1.events, sd.events, daily_drafts(caps[i], du2, ds, end, now_ts));
            }
        }
    }
}

/// Evaluating caps whose alerts were all raised before changes nothing.
pub proof fn lemma_eval_noop(rs: Seq<UsageV>, ifs: Seq<InterfaceV>, now_ts: i64, caps: Seq<CapV>, st: EvalState)
    requires
        forall|i: int| 0 <= i < caps.len() ==> cap_covered(rs, ifs, now_ts, #[trigger] caps[i], st.events),
    ensures
        eval_caps(rs, ifs, now_ts, caps, st) == (st, None::<DbError>),
    decreases caps.len(),
{
    if caps.len() > 0 {
        assert forall|i: int| 0 <= i < caps.drop_last().len() implies cap_covered(rs, ifs, now_ts, #[trigger] caps.drop_last()[i], st.events) by {
            assert(caps.drop_last()[i] == caps[i]);
        }
        lemma_eval_noop(rs, ifs, now_ts, caps.drop_last(), st);
        let c = caps.last();
        assert(cap_covered(rs, ifs, now_ts, caps[caps.len() - 1], st.events));
        let ms = month_start(now_ts);
        let ds = day_start(now_ts) as i64;
        let end = eval_end(now_ts);
        let mu = cap_usage(rs, ifs, ms, end, c.interface_guid)->0;
        let du = cap_usage(rs, ifs, ds, end, c.interface_guid)->0;
        lemma_insert_all_noop(st, monthly_drafts(c, mu, ms, end, now_ts));
        lemma_insert_all_noop(st, daily_drafts(c, du, ds, end, now_ts));
    }
}

} // verus!
