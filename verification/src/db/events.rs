use vstd::prelude::*;
use super::{Db, CapEventRow, EventV, view_seq, opt_view, ids_at_most, lemma_ids_push};
use super::query::non_negative;
use super::sort::{SortKey, KeyV, sort_keys, sorted_from};
use super::breakdown::lemma_sorted_member;
use crate::seqs::{keep, lemma_keep_step};
use crate::text::{chars_of, trim_vec, trim_seq, string_of, keyword, keyword_seq, chars_eq_str, same_text};
use crate::contracts::{CapAlertEvent, ListCapAlertEventsRequest, ListCapAlertEventsResponse, MarkCapAlertEventsDeliveredResponse};

verus! {

/// A filter value, trimmed and lowercased, kept only when it is one of the known values.
pub open spec fn known_filter(raw: Option<String>, a: Seq<char>, b: Seq<char>, c: Seq<char>, d: Seq<char>) -> Option<Seq<char>> {
    match raw {
        None => None,
        Some(r) => {
            let k = keyword_seq(r@);
            if k == a || k == b || k == c || k == d {
                Some(k)
            } else {
                None
            }
        },
    }
}

pub open spec fn scope_filter(raw: Option<String>) -> Option<Seq<char>> {
    known_filter(raw, "global"@, "interface"@, "global"@, "interface"@)
}

pub open spec fn window_filter(raw: Option<String>) -> Option<Seq<char>> {
    known_filter(raw, "monthly"@, "daily"@, "monthly"@, "daily"@)
}

pub open spec fn threshold_filter(raw: Option<String>) -> Option<Seq<char>> {
    known_filter(raw, "pct_50"@, "pct_80"@, "pct_95"@, "daily_cap"@)
}

pub open spec fn delivery_filter(raw: Option<String>) -> Option<Seq<char>> {
    known_filter(raw, "new"@, "delivered"@, "new"@, "delivered"@)
}

/// The guid filter: the trimmed guid, unless blank.
pub open spec fn guid_filter(raw: Option<String>) -> Option<Seq<char>> {
    match raw {
        None => None,
        Some(g) => if trim_seq(g@).len() > 0 {
            Some(trim_seq(g@))
        } else {
            None
        },
    }
}

pub open spec fn text_passes(filter: Option<Seq<char>>, v: Seq<char>) -> bool {
    match filter {
        None => true,
        Some(f) => f == v,
    }
}

/// The alert events a listing selects.
pub open spec fn event_selected(req: ListCapAlertEventsRequest) -> spec_fn(EventV) -> bool {
    |e: EventV|
        {
            &&& match req.start_ts {
                None => true,
                Some(s) => e.fired_at >= s,
            }
            &&& match req.end_ts {
                None => true,
                Some(t) => e.fired_at < t,
            }
            &&& text_passes(scope_filter(req.scope), e.scope)
            &&& match guid_filter(req.interface_guid) {
                None => true,
                Some(g) => e.interface_guid == Some(g),
            }
            &&& text_passes(window_filter(req.window_kind), e.window_kind)
            &&& text_passes(threshold_filter(req.threshold_kind), e.threshold_kind)
            &&& text_passes(delivery_filter(req.delivery_state), e.delivery_state)
        }
}

/// Newest first: by firing time, then id, both descending.
pub open spec fn event_keys(sel: Seq<EventV>) -> Seq<KeyV> {
    let e = Seq::<char>::empty();
    Seq::new(
        sel.len(),
        |i: int|
            KeyV {
                s0: e,
                s1: e,
                n1: -(sel[i].fired_at as int),
                n2: -(sel[i].id as int),
                n3: 0,
                s2: e,
                s3: e,
                id: i,
                pos: i,
            },
    )
}

/// How many events a listing returns at most: the asked limit (200 by default), within
/// 1..=1000.
pub open spec fn event_limit(limit: Option<u32>) -> int {
    let l = match limit {
        None => 200,
        Some(x) => x as int,
    };
    if l < 1 {
        1
    } else if l > 1000 {
        1000
    } else {
        l
    }
}

/// A listing's outcome given the order `s` of the selected events: the first of them, up
/// to the limit.
pub open spec fn listing_result(db: &Db, req: ListCapAlertEventsRequest, s: Seq<KeyV>, r: ListCapAlertEventsResponse) -> bool {
    let sel = keep(db.events(), event_selected(req));
    let n = if s.len() < event_limit(req.limit) {
        s.len() as int
    } else {
        event_limit(req.limit)
    };
    &&& sorted_from(event_keys(sel), s)
    &&& r.events@.len() == n
    &&& forall|i: int| 0 <= i < n ==> event_is(#[trigger] r.events@[i], sel[s[i].pos])
}

/// The reported form of an alert event.
pub open spec fn event_is(out: CapAlertEvent, e: EventV) -> bool {
    &&& out.id == e.id
    &&& out.cap_definition_id == e.cap_definition_id
    &&& out.scope@ == e.scope
    &&& opt_view(out.interface_guid) == e.interface_guid
    &&& out.window_kind@ == e.window_kind
    &&& out.window_start_ts == e.window_start_ts
    &&& out.window_end_ts == e.window_end_ts
    &&& out.threshold_kind@ == e.threshold_kind
    &&& out.threshold_value == non_negative(e.threshold_value)
    &&& out.usage_bytes == non_negative(e.usage_bytes)
    &&& out.cap_bytes == non_negative(e.cap_bytes)
    &&& out.fired_at == e.fired_at
    &&& out.delivery_state@ == e.delivery_state
    &&& out.delivered_at == e.delivered_at
}

fn known_filter_exec(raw: &Option<String>, a: &str, b: &str, c: &str, d: &str) -> (r: Option<Vec<char>>)
    ensures
        match r {
            None => known_filter(*raw, a@, b@, c@, d@) is None,
            Some(v) => known_filter(*raw, a@, b@, c@, d@) == Some(v@),
        },
{
    match raw {
        None => None,
        Some(s) => {
            let k = keyword(s.as_str());
            if chars_eq_str(&k, a) || chars_eq_str(&k, b) || chars_eq_str(&k, c) || chars_eq_str(&k, d) {
                Some(k)
            } else {
                None
            }
        },
    }
}

fn text_passes_exec(filter: &Option<Vec<char>>, v: &String) -> (r: bool)
    ensures
        r == text_passes(
            match filter {
                None => None,
                Some(f) => Some(f@),
            },
            v@,
        ),
{
    match filter {
        None => true,
        Some(f) => crate::text::chars_eq(f, &chars_of(v.as_str())),
    }
}

impl CapEventRow {
    fn report(&self) -> (r: CapAlertEvent)
        ensures
            event_is(r, self@),
    {
        CapAlertEvent {
            id: self.id,
            cap_definition_id: self.cap_definition_id,
            scope: self.scope.clone(),
            interface_guid: super::query::copy_opt_string(&self.interface_guid),
            window_kind: self.window_kind.clone(),
            window_start_ts: self.window_start_ts,
            window_end_ts: self.window_end_ts,
            threshold_kind: self.threshold_kind.clone(),
            threshold_value: if self.threshold_value < 0 {
                0
            } else {
                self.threshold_value as u64
            },
            usage_bytes: if self.usage_bytes < 0 {
                0
            } else {
                self.usage_bytes as u64
            },
            cap_bytes: if self.cap_bytes < 0 {
                0
            } else {
                self.cap_bytes as u64
            },
            fired_at: self.fired_at,
            delivery_state: self.delivery_state.clone(),
            delivered_at: self.delivered_at,
        }
    }
}

/// The events one delivery acknowledgement marks: positive listed ids still `new`.
pub open spec fn acked(ids: Seq<i64>) -> spec_fn(EventV) -> bool {
    |e: EventV| e.id > 0 && ids.contains(e.id) && e.delivery_state == "new"@
}

/// The events after marking the acknowledged ones delivered at `ts`.
pub open spec fn marked(events: Seq<EventV>, ids: Seq<i64>, ts: i64) -> Seq<EventV> {
    Seq::new(
        events.len(),
        |i: int|
            if acked(ids)(events[i]) {
                EventV { delivery_state: "delivered"@, delivered_at: Some(ts), ..events[i] }
            } else {
                events[i]
            },
    )
}

/// How many of the first `n` events satisfy `p`.
pub open spec fn count_where(events: Seq<EventV>, p: spec_fn(EventV) -> bool, n: int) -> nat
    decreases n,
{
    if n <= 0 {
        0
    } else {
        count_where(events, p, n - 1) + if p(events[n - 1]) {
            1nat
        } else {
            0nat
        }
    }
}

pub open spec fn cap_count(n: nat) -> u32 {
    if n > u32::MAX {
        u32::MAX
    } else {
        n as u32
    }
}

impl Db {
    /// Alert events matching the filters, newest first, up to the limit. Unknown filter
    /// values and blank guids filter nothing.
    pub fn list_cap_alert_events(&self, req: &ListCapAlertEventsRequest) -> (r: ListCapAlertEventsResponse)
        ensures
            exists|s: Seq<KeyV>| listing_result(self, *req, s, r),
    {
        let ghost rows = self.events();
        let ghost p = event_selected(*req);
        let ghost sel = keep(rows, p);
        let scope = known_filter_exec(&req.scope, "global", "interface", "global", "interface");
        let window = known_filter_exec(&req.window_kind, "monthly", "daily", "monthly", "daily");
        let threshold = known_filter_exec(&req.threshold_kind, "pct_50", "pct_80", "pct_95", "daily_cap");
        let delivery = known_filter_exec(&req.delivery_state, "new", "delivered", "new", "delivered");
        let guid: Option<Vec<char>> = match &req.interface_guid {
            None => None,
            Some(g) => {
                let t = trim_vec(&chars_of(g.as_str()));
                if t.len() > 0 {
                    Some(t)
                } else {
                    None
                }
            },
        };
        let limit: usize = match req.limit {
            None => 200,
            Some(l) => if l < 1 {
                1
            } else if l > 1000 {
                1000
            } else {
                l as usize
            },
        };
        let mut picked: Vec<usize> = Vec::new();
        let mut keys: Vec<SortKey> = Vec::new();
        let mut k: usize = 0;
        while k < self.t.cap_events.len()
            invariant
                rows == self.events(),
                p == event_selected(*req),
                k <= rows.len(),
                match scope { None => scope_filter(req.scope) is None, Some(v) => scope_filter(req.scope) == Some(v@) },
                match window { None => window_filter(req.window_kind) is None, Some(v) => window_filter(req.window_kind) == Some(v@) },
                match threshold { None => threshold_filter(req.threshold_kind) is None, Some(v) => threshold_filter(req.threshold_kind) == Some(v@) },
                match delivery { None => delivery_filter(req.delivery_state) is None, Some(v) => delivery_filter(req.delivery_state) == Some(v@) },
                match guid { None => guid_filter(req.interface_guid) is None, Some(v) => guid_filter(req.interface_guid) == Some(v@) },
                picked@.len() == keys@.len(),
                picked@.len() == keep(rows.subrange(0, k as int), p).len(),
                forall|j: int|
                    0 <= j < picked@.len() ==> (#[trigger] picked@[j]) < rows.len() && rows[picked@[j] as int] == keep(
                        rows.subrange(0, k as int),
                        p,
                    )[j],
                forall|j: int| 0 <= j < keys@.len() ==> (#[trigger] keys@[j])@ == event_keys(keep(rows.subrange(0, k as int), p))[j],
            decreases rows.len() - k,
        {
            let e = &self.t.cap_events[k];
            assert(rows[k as int] == e@);
            proof {
                lemma_keep_step(rows, p, k as int);
            }
            let guid_ok = match &guid {
                None => true,
                Some(g) => match &e.interface_guid {
                    None => false,
                    Some(x) => crate::text::chars_eq(g, &chars_of(x.as_str())),
                },
            };
            let inside = (match req.start_ts {
                None => true,
                Some(s) => e.fired_at >= s,
            }) && (match req.end_ts {
                None => true,
                Some(t) => e.fired_at < t,
            }) && text_passes_exec(&scope, &e.scope) && guid_ok && text_passes_exec(&window, &e.window_kind)
                && text_passes_exec(&threshold, &e.threshold_kind) && text_passes_exec(&delivery, &e.delivery_state);
            assert(inside == p(rows[k as int]));
            if inside {
                let pos = picked.len();
                keys.push(SortKey { s0: Vec::new(), s1: Vec::new(), n1: 0 - (e.fired_at as i128), n2: 0 - (e.id as i128), n3: 0, s2: Vec::new(), s3: Vec::new(), id: pos as i128, pos });
                picked.push(k);
            }
            k = k + 1;
        }
        assert(rows.subrange(0, rows.len() as int) =~= rows);
        proof {
            assert(view_seq(keys@) =~= event_keys(sel));
            assert forall|a: int, b: int| 0 <= a < b < view_seq(keys@).len() implies (#[trigger] view_seq(keys@)[a]).id
                != (#[trigger] view_seq(keys@)[b]).id by {
                assert(view_seq(keys@)[a].id == a);
                assert(view_seq(keys@)[b].id == b);
            }
        }
        let sorted = sort_keys(keys);
        let ghost s = view_seq(sorted@);
        let mut out: Vec<CapAlertEvent> = Vec::new();
        let mut i: usize = 0;
        while i < sorted.len() && i < limit
            invariant
                s == view_seq(sorted@),
                rows == self.events(),
                sel == keep(rows, p),
                sorted_from(event_keys(sel), s),
                limit == event_limit(req.limit),
                picked@.len() == sel.len(),
                forall|j: int| 0 <= j < picked@.len() ==> (#[trigger] picked@[j]) < rows.len() && rows[picked@[j] as int] == sel[j],
                i <= s.len(),
                i <= limit,
                out@.len() == i,
                forall|j: int| 0 <= j < i ==> event_is(#[trigger] out@[j], sel[s[j].pos]),
            decreases s.len() - i,
        {
            proof {
                lemma_sorted_member(event_keys(sel), s, i as int);
                let j = choose|j: int| 0 <= j < sel.len() && event_keys(sel)[j] == s[i as int];
                assert(event_keys(sel)[j].pos == j);
            }
            let q = sorted[i].pos;
            assert(s[i as int].pos == q);
            let at = picked[q];
            assert(rows[at as int] == self.t.cap_events@[at as int]@);
            out.push(self.t.cap_events[at].report());
            i = i + 1;
        }
        let r = ListCapAlertEventsResponse { events: out };
        assert(listing_result(self, *req, s, r));
        r
    }

    /// Marks the listed (positive) event ids that are still `new` as delivered at
    /// `delivered_at`, and says how many were marked.
    pub fn mark_cap_alert_events_delivered(&mut self, event_ids: &Vec<i64>, delivered_at: i64) -> (r:
        MarkCapAlertEventsDeliveredResponse)
        requires
            old(self).wf(),
        ensures
            final(self).wf(),
            final(self).same_settings(old(self)),
            final(self).same_interfaces(old(self)),
            final(self).same_apps(old(self)),
            final(self).same_usage(old(self)),
            final(self).same_afk(old(self)),
            final(self).same_caps(old(self)),
            final(self).last_event() == old(self).last_event(),
            final(self).events() == marked(old(self).events(), event_ids@, delivered_at),
            r.updated == cap_count(count_where(old(self).events(), acked(event_ids@), old(self).events().len() as int)),
    {
        let ghost ev0 = self.events();
        let ghost raw0 = self.t.cap_events@;
        let ghost p = acked(event_ids@);
        let mut out: Vec<CapEventRow> = Vec::new();
        let mut n: u32 = 0;
        let ghost mut cnt: nat = 0;
        let mut k: usize = 0;
        while k < self.t.cap_events.len()
            invariant
                ev0 == self.events(),
                raw0 == self.t.cap_events@,
                p == acked(event_ids@),
                self.wf(),
                k <= ev0.len(),
                cnt == count_where(ev0, p, k as int),
                n == cap_count(cnt),
                ids_at_most(out@, |r: CapEventRow| r.id, self.last_event_id),
                view_seq(out@) == marked(ev0, event_ids@, delivered_at).subrange(0, k as int),
            decreases ev0.len() - k,
        {
            let e = &self.t.cap_events[k];
            assert(ev0[k as int] == e@);
            let mut listed = false;
            let mut j: usize = 0;
            while j < event_ids.len()
                invariant
                    j <= event_ids@.len(),
                    listed == exists|q: int| 0 <= q < j && event_ids@[q] == e.id,
                decreases event_ids@.len() - j,
            {
                if event_ids[j] == e.id {
                    listed = true;
                }
                j = j + 1;
            }
            assert(listed == event_ids@.contains(e.id));
            let hit = e.id > 0 && listed && crate::text::str_is(e.delivery_state.as_str(), "new");
            assert(hit == p(ev0[k as int]));
            let ghost before = out@;
            let row = if hit {
                CapEventRow { delivery_state: "delivered".to_string(), delivered_at: Some(delivered_at), ..e.copy() }
            } else {
                e.copy()
            };
            out.push(row);
            proof {
                reveal_strlit("delivered");
                assert(row@ == marked(ev0, event_ids@, delivered_at)[k as int]);
                assert((|r: CapEventRow| r.id)(raw0[k as int]) <= self.last_event_id);
                lemma_ids_push(before, |r: CapEventRow| r.id, self.last_event_id, self.last_event_id, row);
                assert(view_seq(out@) =~= view_seq(before).push(row@));
                assert(view_seq(out@) =~= marked(ev0, event_ids@, delivered_at).subrange(0, k + 1));
            }
            if hit {
                n = n.saturating_add(1);
                proof {
                    cnt = cnt + 1;
                }
            }
            k = k + 1;
        }
        assert(marked(ev0, event_ids@, delivered_at).subrange(0, ev0.len() as int) =~= marked(ev0, event_ids@, delivered_at));
        self.t.cap_events = out;
        MarkCapAlertEventsDeliveredResponse { updated: n }
    }
}

/// Acknowledging the same events again marks nothing more and changes nothing.
pub proof fn lemma_mark_delivered_idempotent(events: Seq<EventV>, ids: Seq<i64>, ts: i64, ts2: i64)
    ensures
        marked(marked(events, ids, ts), ids, ts2) == marked(events, ids, ts),
        count_where(marked(events, ids, ts), acked(ids), events.len() as int) == 0,
{
    let once = marked(events, ids, ts);
    assert forall|i: int| 0 <= i < once.len() implies !acked(ids)(#[trigger] once[i]) by {
        reveal_strlit("delivered");
        reveal_strlit("new");
        if acked(ids)(events[i]) {
            assert(once[i].delivery_state == "delivered"@);
            assert("delivered"@[0] != "new"@[0]);
        }
    }
    assert(marked(once, ids, ts2) =~= once);
    lemma_count_none(once, acked(ids), events.len() as int);
}

proof fn lemma_count_none(events: Seq<EventV>, p: spec_fn(EventV) -> bool, n: int)
    requires
        n <= events.len(),
        forall|i: int| 0 <= i < events.len() ==> !p(#[trigger] events[i]),
    ensures
        count_where(events, p, n) == 0,
    decreases n,
{
    if n > 0 {
        lemma_count_none(events, p, n - 1);
    }
}

} // verus!
