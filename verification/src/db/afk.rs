use vstd::prelude::*;
use super::{Db, DbError, AfkRow, AfkV, AppV, UsageV, ids_at_most, lemma_ids_push, view_seq};
use super::group::{Group, group_rows, group_overflows, is_grouping, ts_of, lemma_tagged_witness};
use super::query::{app_by_id, before_cutover, helper_cutover, non_negative};
use super::breakdown::{app_row_is, total_keys, shown_name, lemma_distinct_keys, lemma_sorted_member};
use super::sort::{SortKey, KeyV, sort_keys, sorted_from};
use crate::seqs::{keep, lemma_keep_step, lemma_first_index_props};
use crate::text::{chars_of, trim_vec, trim_seq, string_of};
use crate::contracts::{AppUsageRow, AfkWindowUsage, GetAfkAuditRequest, AfkAuditResponse};

verus! {

/// The source stored with an AFK window: the given one, trimmed, or `wts` when blank.
pub open spec fn afk_source(source: Seq<char>) -> Seq<char> {
    let t = trim_seq(source);
    if t.len() == 0 {
        "wts"@
    } else {
        t
    }
}

/// A window is stored only when both ends are positive and it does not end before it starts.
pub open spec fn afk_valid(start_ts: i64, end_ts: i64) -> bool {
    start_ts > 0 && end_ts > 0 && end_ts >= start_ts
}

/// A stored window overlaps or adjoins `[start_ts, end_ts]` (touching by a second counts).
pub open spec fn touches(start_ts: i64, end_ts: i64) -> spec_fn(AfkV) -> bool {
    |w: AfkV| w.start_ts <= end_ts + 1 && w.end_ts >= start_ts - 1
}

/// The earliest-starting window among the first `n` that satisfy `p` (the first of equals),
/// -1 when none does.
pub open spec fn first_touch(rows: Seq<AfkV>, p: spec_fn(AfkV) -> bool, n: int) -> int
    decreases n,
{
    if n <= 0 {
        -1
    } else {
        let b = first_touch(rows, p, n - 1);
        if p(rows[n - 1]) && (b < 0 || rows[n - 1].start_ts < rows[b].start_ts) {
            n - 1
        } else {
            b
        }
    }
}

/// The earliest start among `start` and the first `n` windows that satisfy `p`.
pub open spec fn merged_start(rows: Seq<AfkV>, p: spec_fn(AfkV) -> bool, start: i64, n: int) -> i64
    decreases n,
{
    if n <= 0 {
        start
    } else {
        let m = merged_start(rows, p, start, n - 1);
        if p(rows[n - 1]) && rows[n - 1].start_ts < m {
            rows[n - 1].start_ts
        } else {
            m
        }
    }
}

/// The latest end among `end` and the first `n` windows that satisfy `p`.
pub open spec fn merged_end(rows: Seq<AfkV>, p: spec_fn(AfkV) -> bool, end: i64, n: int) -> i64
    decreases n,
{
    if n <= 0 {
        end
    } else {
        let m = merged_end(rows, p, end, n - 1);
        if p(rows[n - 1]) && rows[n - 1].end_ts > m {
            rows[n - 1].end_ts
        } else {
            m
        }
    }
}

/// The first `n` windows after the merge: the window at `ki` becomes `mr`, the other
/// windows that satisfy `p` are gone.
pub open spec fn merged_rows(rows: Seq<AfkV>, p: spec_fn(AfkV) -> bool, ki: int, mr: AfkV, n: int) -> Seq<AfkV>
    decreases n,
{
    if n <= 0 {
        Seq::empty()
    } else {
        let pre = merged_rows(rows, p, ki, mr, n - 1);
        if n - 1 == ki {
            pre.push(mr)
        } else if p(rows[n - 1]) {
            pre
        } else {
            pre.push(rows[n - 1])
        }
    }
}

/// The AFK windows after recording `[start_ts, end_ts]`, given the next free id; `None`
/// when a new window needs an id and none is left.
pub open spec fn afk_upsert(rows: Seq<AfkV>, last: i64, start_ts: i64, end_ts: i64, source: Seq<char>) -> Option<
    (Seq<AfkV>, i64),
> {
    let p = touches(start_ts, end_ts);
    let n = rows.len() as int;
    let ki = first_touch(rows, p, n);
    if ki < 0 {
        if last == i64::MAX {
            None
        } else {
            Some(
                (
                    rows.push(
                        AfkV { id: (last + 1) as i64, start_ts, end_ts, source: afk_source(source) },
                    ),
                    (last + 1) as i64,
                ),
            )
        }
    } else {
        let mr = AfkV {
            id: rows[ki].id,
            start_ts: merged_start(rows, p, start_ts, n),
            end_ts: merged_end(rows, p, end_ts, n),
            source: afk_source(source),
        };
        Some((merged_rows(rows, p, ki, mr, n), last))
    }
}

proof fn lemma_first_touch_range(rows: Seq<AfkV>, p: spec_fn(AfkV) -> bool, n: int)
    requires
        0 <= n <= rows.len(),
    ensures
        -1 <= first_touch(rows, p, n) < n,
        first_touch(rows, p, n) >= 0 ==> p(rows[first_touch(rows, p, n)]),
    decreases n,
{
    if n > 0 {
        lemma_first_touch_range(rows, p, n - 1);
    }
}

impl Db {
    /// Records that the user was away over `[start_ts, end_ts]`: merges it with every stored
    /// window that overlaps or adjoins it into the earliest-starting of them, or stores it
    /// as a new window. Invalid ranges are ignored.
    pub fn upsert_afk_window(&mut self, start_ts: i64, end_ts: i64, source: &str) -> (r: Result<(), DbError>)
        requires
            old(self).wf(),
        ensures
            final(self).wf(),
            final(self).same_settings(old(self)),
            final(self).same_interfaces(old(self)),
            final(self).same_apps(old(self)),
            final(self).same_usage(old(self)),
            final(self).same_caps(old(self)),
            final(self).same_events(old(self)),
            !afk_valid(start_ts, end_ts) ==> r is Ok && final(self).same_afk(old(self)),
            afk_valid(start_ts, end_ts) ==> match afk_upsert(
                old(self).afk(),
                old(self).last_afk(),
                start_ts,
                end_ts,
                source@,
            ) {
                None => r == Err::<(), DbError>(DbError::IdSpaceExhausted) && final(self).same_afk(old(self)),
                Some((rows, last)) => r is Ok && final(self).afk() == rows && final(self).last_afk() == last,
            },
    {
        if start_ts <= 0 || end_ts <= 0 || end_ts < start_ts {
            return Ok(());
        }
        let t = trim_vec(&chars_of(source));
        let src = if t.len() == 0 {
            "wts".to_string()
        } else {
            string_of(t.as_slice())
        };
        proof {
            reveal_strlit("wts");
        }
        assert(src@ == afk_source(source@));
        let ghost rows = self.afk();
        let ghost p = touches(start_ts, end_ts);
        let ghost n = rows.len() as int;
        let mut ki: Option<usize> = None;
        let mut ms: i64 = start_ts;
        let mut me: i64 = end_ts;
        let mut k: usize = 0;
        while k < self.t.afk_windows.len()
            invariant
                rows == self.afk(),
                n == rows.len(),
                p == touches(start_ts, end_ts),
                start_ts > 0,
                k <= n,
                ki == (if first_touch(rows, p, k as int) < 0 {
                    None::<usize>
                } else {
                    Some(first_touch(rows, p, k as int) as usize)
                }),
                ms == merged_start(rows, p, start_ts, k as int),
                me == merged_end(rows, p, end_ts, k as int),
            decreases n - k,
        {
            let w = &self.t.afk_windows[k];
            assert(rows[k as int] == w@);
            proof {
                lemma_first_touch_range(rows, p, k as int);
            }
            if w.start_ts as i128 <= end_ts as i128 + 1 && w.end_ts >= start_ts - 1 {
                let better = match ki {
                    None => true,
                    Some(b) => w.start_ts < self.t.afk_windows[b].start_ts,
                };
                if better {
                    ki = Some(k);
                }
                if w.start_ts < ms {
                    ms = w.start_ts;
                }
                if w.end_ts > me {
                    me = w.end_ts;
                }
            }
            k = k + 1;
        }
        proof {
            lemma_first_touch_range(rows, p, n);
        }
        match ki {
            None => {
                if self.last_afk_id == i64::MAX {
                    return Err(DbError::IdSpaceExhausted);
                }
                let id = self.last_afk_id + 1;
                proof {
                    lemma_ids_push(self.t.afk_windows@, |r: AfkRow| r.id, self.last_afk_id, id, AfkRow { id, start_ts, end_ts, source: src });
                }
                self.t.afk_windows.push(AfkRow { id, start_ts, end_ts, source: src });
                self.last_afk_id = id;
                assert(self.afk() =~= rows.push(AfkV { id, start_ts, end_ts, source: afk_source(source@) }));
                Ok(())
            },
            Some(kk) => {
                let keep_id = self.t.afk_windows[kk].id;
                let ghost mr = AfkV { id: keep_id, start_ts: ms, end_ts: me, source: afk_source(source@) };
                let mut out: Vec<AfkRow> = Vec::new();
                let mut j: usize = 0;
                while j < self.t.afk_windows.len()
                    invariant
                        rows == self.afk(),
                        n == rows.len(),
                        p == touches(start_ts, end_ts),
                        start_ts > 0,
                        j <= n,
                        kk < n,
                        keep_id == rows[kk as int].id,
                        src@ == afk_source(source@),
                        mr == (AfkV { id: keep_id, start_ts: ms, end_ts: me, source: afk_source(source@) }),
                        self.wf(),
                        ids_at_most(out@, |r: AfkRow| r.id, self.last_afk_id),
                        super::view_seq(out@) == merged_rows(rows, p, kk as int, mr, j as int),
                    decreases n - j,
                {
                    let w = &self.t.afk_windows[j];
                    assert(rows[j as int] == w@);
                    let ghost before = out@;
                    if j == kk {
                        out.push(AfkRow { id: keep_id, start_ts: ms, end_ts: me, source: src.clone() });
                        proof {
                            assert((|r: AfkRow| r.id)(self.t.afk_windows@[kk as int]) <= self.last_afk_id);
                            lemma_ids_push(before, |r: AfkRow| r.id, self.last_afk_id, self.last_afk_id, out@.last());
                        }
                    } else if w.start_ts as i128 <= end_ts as i128 + 1 && w.end_ts >= start_ts - 1 {
                    } else {
                        out.push(w.copy());
                        proof {
                            assert((|r: AfkRow| r.id)(self.t.afk_windows@[j as int]) <= self.last_afk_id);
                            lemma_ids_push(before, |r: AfkRow| r.id, self.last_afk_id, self.last_afk_id, out@.last());
                        }
                    }
                    assert(super::view_seq(out@) =~= merged_rows(rows, p, kk as int, mr, j + 1));
                    j = j + 1;
                }
                self.t.afk_windows = out;
                Ok(())
            },
        }
    }
}

/// How many windows an audit lists: the asked limit (100 by default), within 1..=1000.
pub open spec fn afk_limit(limit: Option<u32>) -> int {
    let l = match limit {
        None => 100,
        Some(x) => x as int,
    };
    if l < 1 {
        1
    } else if l > 1000 {
        1000
    } else {
        l
    }
}

/// A window ends no earlier than the range's start and starts before its end.
pub open spec fn afk_in_range(req: GetAfkAuditRequest) -> spec_fn(AfkV) -> bool {
    |w: AfkV|
        (match req.start_ts {
            None => true,
            Some(s) => w.end_ts >= s,
        }) && (match req.end_ts {
            None => true,
            Some(e) => w.start_ts < e,
        })
}

/// The windows in range, newest start first (ties in table order).
pub open spec fn afk_keys(sel: Seq<AfkV>) -> Seq<KeyV> {
    let e = Seq::<char>::empty();
    Seq::new(
        sel.len(),
        |i: int| KeyV { s0: e, s1: e, n1: -(sel[i].start_ts as int), n2: 0, n3: 0, s2: e, s3: e, id: i, pos: i },
    )
}

/// The end of a window, plus one second unless that leaves the `i64` range.
pub open spec fn after_end(end_ts: i64) -> i64 {
    if end_ts == i64::MAX {
        i64::MAX
    } else {
        (end_ts + 1) as i64
    }
}

/// The window's length in seconds, within `0..=u32::MAX`.
pub open spec fn afk_duration(start_ts: i64, end_ts: i64) -> u32 {
    let d = end_ts - start_ts;
    if d < 0 {
        0
    } else if d > u32::MAX {
        u32::MAX
    } else {
        d as u32
    }
}

/// A usage record counted for a window: within it, from the helper, or imported before
/// the first helper record.
pub open spec fn in_window(w: AfkV, cut: Option<i64>, r: UsageV) -> bool {
    &&& w.start_ts <= r.ts < after_end(w.end_ts)
    &&& (r.source == "helper"@ || (r.source == "import"@ && before_cutover(r.ts, cut)))
}

pub open spec fn window_total_tags(db: &Db, w: AfkV) -> Seq<Option<i64>> {
    Seq::new(
        db.usage().len(),
        |j: int|
            if in_window(w, helper_cutover(db), db.usage()[j]) {
                Some(0i64)
            } else {
                None
            },
    )
}

pub open spec fn window_app_tags(db: &Db, w: AfkV) -> Seq<Option<i64>> {
    Seq::new(
        db.usage().len(),
        |j: int|
            if in_window(w, helper_cutover(db), db.usage()[j]) && app_by_id(
                db.apps(),
                db.usage()[j].app_id,
            ) is Some {
                Some(db.usage()[j].app_id)
            } else {
                None
            },
    )
}

/// A window's sums leave the `i64` range.
pub open spec fn window_overflows(db: &Db, w: AfkV) -> bool {
    group_overflows(db.usage(), window_total_tags(db, w)) || group_overflows(
        db.usage(),
        window_app_tags(db, w),
    )
}

/// The rows of the top apps: the first `limit` groups by total.
pub open spec fn top_apps_of(apps: Seq<AppV>, gs: Seq<Group>, s: Seq<KeyV>, limit: int, rows: Seq<AppUsageRow>) -> bool {
    let n = if gs.len() < limit {
        gs.len() as int
    } else {
        limit
    };
    &&& sorted_from(total_keys(gs), s)
    &&& rows.len() == n
    &&& forall|i: int| 0 <= i < n ==> app_row_is(#[trigger] rows[i], app_by_id(apps, gs[s[i].pos].key)->0, gs[s[i].pos])
}

/// An audit's outcome given the order `s` of the windows in range: it fails exactly when
/// a listed window's sums overflow, and otherwise reports the listed windows in order.
pub open spec fn audit_result(db: &Db, req: GetAfkAuditRequest, s: Seq<KeyV>, r: Result<AfkAuditResponse, DbError>) -> bool {
    let sel = keep(db.afk(), afk_in_range(req));
    let n = if s.len() < afk_limit(req.limit) {
        s.len() as int
    } else {
        afk_limit(req.limit)
    };
    &&& sorted_from(afk_keys(sel), s)
    &&& (r is Err <==> exists|i: int| 0 <= i < n && window_overflows(db, #[trigger] sel[s[i].pos]))
    &&& (r is Err ==> r == Err::<AfkAuditResponse, DbError>(DbError::IntegerOverflow))
    &&& (r matches Ok(resp) ==> resp.afk_windows@.len() == n && forall|i: int|
        0 <= i < n ==> window_report(db, sel[s[i].pos], #[trigger] resp.afk_windows@[i]))
}

/// What an audit says of one window.
pub open spec fn window_report(db: &Db, w: AfkV, out: AfkWindowUsage) -> bool {
    &&& out.start_ts == w.start_ts
    &&& out.end_ts == w.end_ts
    &&& out.duration_seconds == afk_duration(w.start_ts, w.end_ts)
    &&& exists|g1: Seq<Group>|
        is_grouping(db.usage(), window_total_tags(db, w), g1) && out.bytes_sent == (if g1.len() == 0 {
            0
        } else {
            non_negative(g1[0].sent)
        }) && out.bytes_recv == (if g1.len() == 0 {
            0
        } else {
            non_negative(g1[0].recv)
        })
    &&& exists|g2: Seq<Group>, s2: Seq<KeyV>|
        is_grouping(db.usage(), window_app_tags(db, w), g2) && top_apps_of(db.apps(), g2, s2, 5, out.top_apps@)
}

impl Db {
    /// The groups of tagged rows, ordered by total, cut to `limit`, as app rows.
    fn top_apps(&self, tags: &Vec<Option<i64>>, limit: usize) -> (r: Result<Vec<AppUsageRow>, DbError>)
        requires
            tags@.len() == self.usage().len(),
            forall|j: int| 0 <= j < tags@.len() && (#[trigger] tags@[j]) is Some ==> app_by_id(self.apps(), tags@[j]->0) is Some,
        ensures
            r is Err <==> group_overflows(self.usage(), tags@),
            r is Err ==> r == Err::<Vec<AppUsageRow>, DbError>(DbError::IntegerOverflow),
            r matches Ok(rows) ==> exists|gs: Seq<Group>, s: Seq<KeyV>|
                is_grouping(self.usage(), tags@, gs) && top_apps_of(self.apps(), gs, s, limit as int, rows@),
    {
        let groups = match group_rows(&self.t.usage_records, tags) {
            Ok(g) => g,
            Err(e) => {
                return Err(e);
            },
        };
        let ghost gs = groups@;
        let mut keys: Vec<SortKey> = Vec::new();
        let mut names: Vec<(String, String)> = Vec::new();
        let mut i: usize = 0;
        while i < groups.len()
            invariant
                gs == groups@,
                is_grouping(self.usage(), tags@, gs),
                tags@.len() == self.usage().len(),
                forall|j: int| 0 <= j < tags@.len() && (#[trigger] tags@[j]) is Some ==> app_by_id(self.apps(), tags@[j]->0) is Some,
                i <= gs.len(),
                keys@.len() == i,
                names@.len() == i,
                forall|j: int| 0 <= j < i ==> (#[trigger] keys@[j])@ == total_keys(gs)[j],
                forall|j: int|
                    0 <= j < i ==> (#[trigger] names@[j]).0@ == app_by_id(self.apps(), gs[j].key)->0.process_name
                        && names@[j].1@ == shown_name(app_by_id(self.apps(), gs[j].key)->0),
            decreases gs.len() - i,
        {
            let g = groups[i];
            proof {
                lemma_tagged_witness(self.usage(), tags@, g.key, ts_of(), self.usage().len() as int);
                let j = choose|j: int| 0 <= j < self.usage().len() && tags@[j] == Some(g.key);
                assert(tags@[j] is Some);
                lemma_first_index_props(self.apps(), super::query::app_id_is(g.key));
            }
            let a = match self.find_app_by_id(g.key) {
                Some(a) => a,
                None => {
                    proof {
                        assert(false);
                    }
                    0
                },
            };
            let app = &self.t.apps[a];
            assert(self.apps()[a as int] == app@);
            let pn = app.process_name.clone();
            let dn = match &app.display_name {
                Some(d) => d.clone(),
                None => app.process_name.clone(),
            };
            let t: i128 = (g.sent as i128) + (g.recv as i128);
            let key = SortKey { s0: Vec::new(), s1: Vec::new(), n1: 0 - t, n2: 0, n3: 0, s2: Vec::new(), s3: Vec::new(), id: g.key as i128, pos: i };
            assert(key@ =~= total_keys(gs)[i as int]);
            keys.push(key);
            names.push((pn, dn));
            i = i + 1;
        }
        proof {
            assert(view_seq(keys@) =~= total_keys(gs));
            lemma_distinct_keys(gs, view_seq(keys@));
        }
        let sorted = sort_keys(keys);
        let ghost s = view_seq(sorted@);
        let mut out: Vec<AppUsageRow> = Vec::new();
        let mut k: usize = 0;
        while k < sorted.len() && k < limit
            invariant
                s == view_seq(sorted@),
                gs == groups@,
                sorted_from(total_keys(gs), s),
                k <= s.len(),
                k <= limit,
                out@.len() == k,
                names@.len() == gs.len(),
                forall|j: int|
                    0 <= j < gs.len() ==> (#[trigger] names@[j]).0@ == app_by_id(self.apps(), gs[j].key)->0.process_name
                        && names@[j].1@ == shown_name(app_by_id(self.apps(), gs[j].key)->0),
                forall|j: int|
                    0 <= j < k ==> app_row_is(
                        #[trigger] out@[j],
                        app_by_id(self.apps(), gs[s[j].pos].key)->0,
                        gs[s[j].pos],
                    ),
            decreases s.len() - k,
        {
            proof {
                lemma_sorted_member(total_keys(gs), s, k as int);
                let j = choose|j: int| 0 <= j < gs.len() && total_keys(gs)[j] == s[k as int];
                assert(total_keys(gs)[j].pos == j);
            }
            let p = sorted[k].pos;
            assert(s[k as int].pos == p);
            let g = groups[p];
            let s_out: u64 = if g.sent < 0 {
                0
            } else {
                g.sent as u64
            };
            let r_out: u64 = if g.recv < 0 {
                0
            } else {
                g.recv as u64
            };
            out.push(AppUsageRow { process_name: names[p].0.clone(), display_name: names[p].1.clone(), bytes_sent: s_out, bytes_recv: r_out, last_seen_ts: g.last_ts });
            k = k + 1;
        }
        let r: Result<Vec<AppUsageRow>, DbError> = Ok(out);
        assert(r matches Ok(rows) ==> exists|gs2: Seq<Group>, s2: Seq<KeyV>|
            is_grouping(self.usage(), tags@, gs2) && top_apps_of(self.apps(), gs2, s2, limit as int, rows@)) by {
            assert(top_apps_of(self.apps(), gs, s, limit as int, r->Ok_0@));
        }
        r
    }

    /// The usage report of one window.
    fn window_usage(&self, w_start: i64, w_end: i64, cut: Option<i64>) -> (r: Result<AfkWindowUsage, DbError>)
        requires
            cut == helper_cutover(self),
        ensures
            ({
                let w = AfkV { id: 0, start_ts: w_start, end_ts: w_end, source: Seq::empty() };
                &&& r is Err <==> window_overflows(self, w)
                &&& r is Err ==> r == Err::<AfkWindowUsage, DbError>(DbError::IntegerOverflow)
                &&& r matches Ok(out) ==> window_report(self, w, out)
            }),
    {
        let ghost w = AfkV { id: 0, start_ts: w_start, end_ts: w_end, source: Seq::empty() };
        let excl: i64 = if w_end == i64::MAX {
            i64::MAX
        } else {
            w_end + 1
        };
        let mut total_tags: Vec<Option<i64>> = Vec::new();
        let mut app_tags: Vec<Option<i64>> = Vec::new();
        let mut k: usize = 0;
        while k < self.t.usage_records.len()
            invariant
                k <= self.usage().len(),
                self.usage().len() == self.t.usage_records@.len(),
                cut == helper_cutover(self),
                excl == after_end(w_end),
                w == (AfkV { id: 0, start_ts: w_start, end_ts: w_end, source: Seq::empty() }),
                total_tags@.len() == k,
                app_tags@.len() == k,
                forall|j: int| 0 <= j < k ==> #[trigger] total_tags@[j] == window_total_tags(self, w)[j],
                forall|j: int| 0 <= j < k ==> #[trigger] app_tags@[j] == window_app_tags(self, w)[j],
            decreases self.usage().len() - k,
        {
            let row = &self.t.usage_records[k];
            assert(self.usage()[k as int] == row@);
            let before = match cut {
                None => true,
                Some(c) => row.ts < c,
            };
            let inside = w_start <= row.ts && row.ts < excl && (crate::text::str_is(row.source.as_str(), "helper")
                || (crate::text::str_is(row.source.as_str(), "import") && before));
            total_tags.push(
                if inside {
                    Some(0)
                } else {
                    None
                },
            );
            let has_app = self.find_app_by_id(row.app_id).is_some();
            proof {
                lemma_first_index_props(self.apps(), super::query::app_id_is(row.app_id));
            }
            app_tags.push(
                if inside && has_app {
                    Some(row.app_id)
                } else {
                    None
                },
            );
            k = k + 1;
        }
        assert(total_tags@ =~= window_total_tags(self, w));
        assert(app_tags@ =~= window_app_tags(self, w));
        let totals = match group_rows(&self.t.usage_records, &total_tags) {
            Ok(g) => g,
            Err(e) => {
                return Err(e);
            },
        };
        let (sent, recv): (u64, u64) = if totals.len() == 0 {
            (0, 0)
        } else {
            let g = totals[0];
            (
                if g.sent < 0 {
                    0
                } else {
                    g.sent as u64
                },
                if g.recv < 0 {
                    0
                } else {
                    g.recv as u64
                },
            )
        };
        let top = match self.top_apps(&app_tags, 5) {
            Ok(t) => t,
            Err(e) => {
                return Err(e);
            },
        };
        let ghost top_v = top@;
        let d: i128 = (w_end as i128) - (w_start as i128);
        let duration: u32 = if d < 0 {
            0
        } else if d > 4294967295 {
            4294967295
        } else {
            d as u32
        };
        let out = AfkWindowUsage { start_ts: w_start, end_ts: w_end, duration_seconds: duration, bytes_sent: sent, bytes_recv: recv, top_apps: top };
        assert(is_grouping(self.usage(), window_total_tags(self, w), totals@));
        let r: Result<AfkWindowUsage, DbError> = Ok(out);
        assert(r matches Ok(o) ==> window_report(self, w, o)) by {
            let o = r->Ok_0;
            let (g2, s2) = choose|g2: Seq<Group>, s2: Seq<KeyV>|
                is_grouping(self.usage(), app_tags@, g2) && top_apps_of(self.apps(), g2, s2, 5, top_v);
            assert(is_grouping(self.usage(), window_app_tags(self, w), g2) && top_apps_of(self.apps(), g2, s2, 5, o.top_apps@));
            assert(is_grouping(self.usage(), window_total_tags(self, w), totals@) && o.bytes_sent == (if totals@.len() == 0 {
                0
            } else {
                non_negative(totals@[0].sent)
            }) && o.bytes_recv == (if totals@.len() == 0 {
                0
            } else {
                non_negative(totals@[0].recv)
            }));
        }
        r
    }

    /// The AFK windows in a range, newest first, each with the traffic during it and its top
    /// five apps. Fails when a listed window's sums overflow.
    pub fn query_afk_audit(&self, req: &GetAfkAuditRequest) -> (r: Result<AfkAuditResponse, DbError>)
        ensures
            exists|s: Seq<KeyV>| audit_result(self, *req, s, r),
    {
        let ghost rows = self.afk();
        let ghost sel = keep(rows, afk_in_range(*req));
        let limit: usize = match req.limit {
            None => 100,
            Some(l) => if l < 1 {
                1
            } else if l > 1000 {
                1000
            } else {
                l as usize
            },
        };
        let mut picked: Vec<(i64, i64)> = Vec::new();
        let mut keys: Vec<SortKey> = Vec::new();
        let mut k: usize = 0;
        while k < self.t.afk_windows.len()
            invariant
                rows == self.afk(),
                k <= rows.len(),
                picked@.len() == keys@.len(),
                picked@.len() == keep(rows.subrange(0, k as int), afk_in_range(*req)).len(),
                forall|j: int|
                    0 <= j < picked@.len() ==> (#[trigger] picked@[j]).0 == keep(rows.subrange(0, k as int), afk_in_range(*req))[j].start_ts
                        && picked@[j].1 == keep(rows.subrange(0, k as int), afk_in_range(*req))[j].end_ts,
                forall|j: int|
                    0 <= j < keys@.len() ==> (#[trigger] keys@[j])@ == afk_keys(keep(rows.subrange(0, k as int), afk_in_range(*req)))[j],
            decreases rows.len() - k,
        {
            let wr = &self.t.afk_windows[k];
            assert(rows[k as int] == wr@);
            proof {
                lemma_keep_step(rows, afk_in_range(*req), k as int);
            }
            let inside = (match req.start_ts {
                None => true,
                Some(s) => wr.end_ts >= s,
            }) && (match req.end_ts {
                None => true,
                Some(e) => wr.start_ts < e,
            });
            if inside {
                let pos = picked.len();
                keys.push(SortKey { s0: Vec::new(), s1: Vec::new(), n1: 0 - (wr.start_ts as i128), n2: 0, n3: 0, s2: Vec::new(), s3: Vec::new(), id: pos as i128, pos });
                picked.push((wr.start_ts, wr.end_ts));
            }
            k = k + 1;
        }
        assert(rows.subrange(0, rows.len() as int) =~= rows);
        proof {
            assert(view_seq(keys@) =~= afk_keys(sel));
            assert forall|a: int, b: int| 0 <= a < b < view_seq(keys@).len() implies (#[trigger] view_seq(keys@)[a]).id
                != (#[trigger] view_seq(keys@)[b]).id by {
                assert(view_seq(keys@)[a].id == a);
                assert(view_seq(keys@)[b].id == b);
            }
        }
        let sorted = sort_keys(keys);
        let ghost s = view_seq(sorted@);
        let ghost n = if s.len() < afk_limit(req.limit) {
            s.len() as int
        } else {
            afk_limit(req.limit)
        };
        let cut = self.min_usage_ts(false);
        let mut out: Vec<AfkWindowUsage> = Vec::new();
        let mut i: usize = 0;
        while i < sorted.len() && i < limit
            invariant
                s == view_seq(sorted@),
                sel == keep(self.afk(), afk_in_range(*req)),
                sorted_from(afk_keys(sel), s),
                limit == afk_limit(req.limit),
                n == (if s.len() < afk_limit(req.limit) {
                    s.len() as int
                } else {
                    afk_limit(req.limit)
                }),
                cut == helper_cutover(self),
                picked@.len() == sel.len(),
                forall|j: int| 0 <= j < picked@.len() ==> (#[trigger] picked@[j]).0 == sel[j].start_ts && picked@[j].1 == sel[j].end_ts,
                i <= s.len(),
                i <= limit,
                out@.len() == i,
                forall|j: int| 0 <= j < i ==> !window_overflows(self, #[trigger] sel[s[j].pos]),
                forall|j: int| 0 <= j < i ==> window_report(self, sel[s[j].pos], #[trigger] out@[j]),
            decreases s.len() - i,
        {
            proof {
                lemma_sorted_member(afk_keys(sel), s, i as int);
                let j = choose|j: int| 0 <= j < sel.len() && afk_keys(sel)[j] == s[i as int];
                assert(afk_keys(sel)[j].pos == j);
            }
            let p = sorted[i].pos;
            assert(s[i as int].pos == p);
            let (ws, we) = picked[p];
            let ghost wv = sel[p as int];
            let ghost w0 = AfkV { id: 0, start_ts: ws, end_ts: we, source: Seq::empty() };
            assert(window_total_tags(self, w0) =~= window_total_tags(self, wv));
            assert(window_app_tags(self, w0) =~= window_app_tags(self, wv));
            match self.window_usage(ws, we, cut) {
                Ok(wu) => {
                    out.push(wu);
                },
                Err(e) => {
                    let r: Result<AfkAuditResponse, DbError> = Err(e);
                    assert(exists|i2: int| 0 <= i2 < n && window_overflows(self, #[trigger] sel[s[i2].pos])) by {
                        assert(window_overflows(self, sel[s[i as int].pos]));
                    }
                    assert(audit_result(self, *req, s, r));
                    return r;
                },
            }
            i = i + 1;
        }
        assert(out@.len() == n);
        let r: Result<AfkAuditResponse, DbError> = Ok(AfkAuditResponse { afk_windows: out });
        assert(!exists|i2: int| 0 <= i2 < n && window_overflows(self, #[trigger] sel[s[i2].pos]));
        assert(audit_result(self, *req, s, r));
        r
    }
}

/// The windows after a successful upsert.
pub open spec fn upserted_rows(rows: Seq<AfkV>, last: i64, start_ts: i64, end_ts: i64, source: Seq<char>) -> Seq<AfkV> {
    match afk_upsert(rows, last, start_ts, end_ts, source) {
        Some((r, _)) => r,
        None => rows,
    }
}

proof fn lemma_merged_bounds(rows: Seq<AfkV>, p: spec_fn(AfkV) -> bool, start: i64, end: i64, n: int)
    ensures
        merged_start(rows, p, start, n) <= start,
        merged_end(rows, p, end, n) >= end,
    decreases n,
{
    if n > 0 {
        lemma_merged_bounds(rows, p, start, end, n - 1);
    }
}

proof fn lemma_merged_has(rows: Seq<AfkV>, p: spec_fn(AfkV) -> bool, ki: int, mr: AfkV, n: int)
    requires
        0 <= ki < n,
    ensures
        merged_rows(rows, p, ki, mr, n).contains(mr),
    decreases n,
{
    let m = merged_rows(rows, p, ki, mr, n);
    if n - 1 == ki {
        assert(m[m.len() - 1] == mr);
    } else {
        lemma_merged_has(rows, p, ki, mr, n - 1);
        let pre = merged_rows(rows, p, ki, mr, n - 1);
        let j = choose|j: int| 0 <= j < pre.len() && pre[j] == mr;
        assert(m[j] == pre[j]);
    }
}

/// Recording a valid AFK range leaves a stored window that covers it.
pub proof fn lemma_afk_upsert_covers(rows: Seq<AfkV>, last: i64, start_ts: i64, end_ts: i64, source: Seq<char>)
    requires
        afk_valid(start_ts, end_ts),
        afk_upsert(rows, last, start_ts, end_ts, source) is Some,
    ensures
        ({
            let after = upserted_rows(rows, last, start_ts, end_ts, source);
            exists|i: int| 0 <= i < after.len() && (#[trigger] after[i]).start_ts <= start_ts && after[i].end_ts >= end_ts
        }),
{
    let p = touches(start_ts, end_ts);
    let n = rows.len() as int;
    let ki = first_touch(rows, p, n);
    lemma_first_touch_range(rows, p, n);
    let after = upserted_rows(rows, last, start_ts, end_ts, source);
    if ki < 0 {
        assert(after[after.len() - 1].start_ts == start_ts);
    } else {
        let mr = AfkV {
            id: rows[ki].id,
            start_ts: merged_start(rows, p, start_ts, n),
            end_ts: merged_end(rows, p, end_ts, n),
            source: afk_source(source),
        };
        lemma_merged_bounds(rows, p, start_ts, end_ts, n);
        lemma_merged_has(rows, p, ki, mr, n);
        let j = choose|j: int| 0 <= j < after.len() && after[j] == mr;
        assert(after[j].start_ts <= start_ts);
    }
}


/// Second `t` lies in a window of `rows`.
pub open spec fn covered(rows: Seq<AfkV>, t: int) -> bool {
    exists|i: int| 0 <= i < rows.len() && (#[trigger] rows[i]).start_ts <= t <= rows[i].end_ts
}

/// Every window is a range (it does not end before it starts) and no two windows overlap
/// or adjoin.
pub open spec fn separated(rows: Seq<AfkV>) -> bool {
    &&& forall|i: int| 0 <= i < rows.len() ==> (#[trigger] rows[i]).start_ts <= rows[i].end_ts
    &&& forall|i: int, j: int|
        0 <= i < rows.len() && 0 <= j < rows.len() && i != j ==> !touches((#[trigger] rows[i]).start_ts, rows[i].end_ts)(
            #[trigger] rows[j],
        )
}

proof fn lemma_merged_extremes(rows: Seq<AfkV>, p: spec_fn(AfkV) -> bool, start: i64, end: i64, n: int)
    requires
        0 <= n <= rows.len(),
    ensures
        forall|j: int| 0 <= j < n && p(rows[j]) ==> merged_start(rows, p, start, n) <= (#[trigger] rows[j]).start_ts
            && rows[j].end_ts <= merged_end(rows, p, end, n),
        merged_start(rows, p, start, n) == start || exists|a: int|
            0 <= a < n && p(#[trigger] rows[a]) && rows[a].start_ts == merged_start(rows, p, start, n),
        merged_end(rows, p, end, n) == end || exists|b: int|
            0 <= b < n && p(#[trigger] rows[b]) && rows[b].end_ts == merged_end(rows, p, end, n),
    decreases n,
{
    if n > 0 {
        lemma_merged_extremes(rows, p, start, end, n - 1);
        let ms = merged_start(rows, p, start, n - 1);
        let me = merged_end(rows, p, end, n - 1);
        if merged_start(rows, p, start, n) != start && merged_start(rows, p, start, n) == ms {
            let a = choose|a: int| 0 <= a < n - 1 && p(#[trigger] rows[a]) && rows[a].start_ts == ms;
            assert(0 <= a < n && p(rows[a]) && rows[a].start_ts == merged_start(rows, p, start, n));
        }
        if merged_end(rows, p, end, n) != end && merged_end(rows, p, end, n) == me {
            let b = choose|b: int| 0 <= b < n - 1 && p(#[trigger] rows[b]) && rows[b].end_ts == me;
            assert(0 <= b < n && p(rows[b]) && rows[b].end_ts == merged_end(rows, p, end, n));
        }
    }
}

proof fn lemma_merged_members(rows: Seq<AfkV>, p: spec_fn(AfkV) -> bool, ki: int, mr: AfkV, n: int)
    requires
        0 <= n <= rows.len(),
        0 <= ki < rows.len(),
        p(rows[ki]),
    ensures
        forall|x: int| 0 <= x < merged_rows(rows, p, ki, mr, n).len() ==> ((#[trigger] merged_rows(rows, p, ki, mr, n)[x]) == mr
            && ki < n) || exists|j: int| 0 <= j < n && !p(#[trigger] rows[j]) && merged_rows(rows, p, ki, mr, n)[x] == rows[j],
        forall|j: int| 0 <= j < n && !p(#[trigger] rows[j]) ==> merged_rows(rows, p, ki, mr, n).contains(rows[j]),
    decreases n,
{
    if n > 0 {
        lemma_merged_members(rows, p, ki, mr, n - 1);
        let pre = merged_rows(rows, p, ki, mr, n - 1);
        let m = merged_rows(rows, p, ki, mr, n);
        assert forall|x: int| 0 <= x < m.len() implies ((#[trigger] m[x]) == mr && ki < n) || exists|j: int|
            0 <= j < n && !p(#[trigger] rows[j]) && m[x] == rows[j] by {
            if x < pre.len() {
                assert(m[x] == pre[x]);
                if !(pre[x] == mr && ki < n - 1) {
                    let j = choose|j: int| 0 <= j < n - 1 && !p(#[trigger] rows[j]) && pre[x] == rows[j];
                    assert(0 <= j < n && !p(rows[j]) && m[x] == rows[j]);
                }
            } else if n - 1 != ki && !p(rows[n - 1]) {
                assert(m[x] == rows[n - 1]);
            }
        }
        assert forall|j: int| 0 <= j < n && !p(#[trigger] rows[j]) implies m.contains(rows[j]) by {
            if j < n - 1 {
                let y = choose|y: int| 0 <= y < pre.len() && pre[y] == rows[j];
                assert(m[y] == pre[y]);
            } else {
                assert(m[m.len() - 1] == rows[j]);
            }
        }
    }
}

proof fn lemma_first_touch_none(rows: Seq<AfkV>, p: spec_fn(AfkV) -> bool, n: int)
    requires
        0 <= n <= rows.len(),
        first_touch(rows, p, n) < 0,
    ensures
        forall|j: int| 0 <= j < n ==> !p(#[trigger] rows[j]),
    decreases n,
{
    if n > 0 {
        lemma_first_touch_none(rows, p, n - 1);
    }
}

/// Recording a valid AFK range adds exactly its seconds to those covered, leaves every
/// stored window that neither overlaps nor adjoins it as it was, and keeps the windows
/// apart: stored windows that neither overlap nor adjoin stay so.
pub proof fn lemma_afk_upsert_merges(rows: Seq<AfkV>, last: i64, start_ts: i64, end_ts: i64, source: Seq<char>, t: int)
    requires
        afk_valid(start_ts, end_ts),
        afk_upsert(rows, last, start_ts, end_ts, source) is Some,
    ensures
        covered(upserted_rows(rows, last, start_ts, end_ts, source), t) <==> (covered(rows, t) || start_ts <= t <= end_ts),
        forall|i: int|
            0 <= i < rows.len() && !touches(start_ts, end_ts)(#[trigger] rows[i]) ==> upserted_rows(
                rows,
                last,
                start_ts,
                end_ts,
                source,
            ).contains(rows[i]),
        separated(rows) ==> separated(upserted_rows(rows, last, start_ts, end_ts, source)),
{
    let p = touches(start_ts, end_ts);
    let n = rows.len() as int;
    let ki = first_touch(rows, p, n);
    lemma_first_touch_range(rows, p, n);
    let after = upserted_rows(rows, last, start_ts, end_ts, source);
    if ki < 0 {
        lemma_first_touch_none(rows, p, n);
        let nw = after[after.len() - 1];
        assert(after == rows.push(nw));
        assert forall|i: int| 0 <= i < rows.len() && !p(#[trigger] rows[i]) implies after.contains(rows[i]) by {
            assert(after[i] == rows[i]);
        }
        if covered(after, t) {
            let i = choose|i: int| 0 <= i < after.len() && (#[trigger] after[i]).start_ts <= t <= after[i].end_ts;
            if i < n {
                assert(rows[i] == after[i]);
            }
        }
        if covered(rows, t) {
            let i = choose|i: int| 0 <= i < rows.len() && (#[trigger] rows[i]).start_ts <= t <= rows[i].end_ts;
            assert(after[i] == rows[i]);
        }
        if start_ts <= t <= end_ts {
            assert(after[after.len() - 1].start_ts <= t <= after[after.len() - 1].end_ts);
        }
        if separated(rows) {
            assert forall|i: int, j: int|
                0 <= i < after.len() && 0 <= j < after.len() && i != j implies !touches(
                    (#[trigger] after[i]).start_ts,
                    after[i].end_ts,
                )(#[trigger] after[j]) by {
                if i < n && j < n {
                    assert(after[i] == rows[i] && after[j] == rows[j]);
                } else if i < n {
                    assert(after[i] == rows[i]);
                    assert(!p(rows[i]));
                } else {
                    assert(after[j] == rows[j]);
                    assert(!p(rows[j]));
                }
            }
        }
    } else {
        let ms = merged_start(rows, p, start_ts, n);
        let me = merged_end(rows, p, end_ts, n);
        let mr = AfkV { id: rows[ki].id, start_ts: ms, end_ts: me, source: afk_source(source) };
        assert(after == merged_rows(rows, p, ki, mr, n));
        lemma_merged_bounds(rows, p, start_ts, end_ts, n);
        lemma_merged_extremes(rows, p, start_ts, end_ts, n);
        lemma_merged_members(rows, p, ki, mr, n);
        lemma_merged_has(rows, p, ki, mr, n);
        let k = choose|k: int| 0 <= k < after.len() && after[k] == mr;
        if covered(after, t) {
            let i = choose|i: int| 0 <= i < after.len() && (#[trigger] after[i]).start_ts <= t <= after[i].end_ts;
            if after[i] == mr {
                if t < start_ts {
                    let a = choose|a: int| 0 <= a < n && p(#[trigger] rows[a]) && rows[a].start_ts == ms;
                    assert(rows[a].start_ts <= t <= rows[a].end_ts);
                } else if t > end_ts {
                    let b = choose|b: int| 0 <= b < n && p(#[trigger] rows[b]) && rows[b].end_ts == me;
                    assert(rows[b].start_ts <= t <= rows[b].end_ts);
                }
            } else {
                let j = choose|j: int| 0 <= j < n && !p(#[trigger] rows[j]) && after[i] == rows[j];
                assert(rows[j].start_ts <= t <= rows[j].end_ts);
            }
        }
        if covered(rows, t) {
            let j = choose|j: int| 0 <= j < rows.len() && (#[trigger] rows[j]).start_ts <= t <= rows[j].end_ts;
            if p(rows[j]) {
                assert(after[k].start_ts <= t <= after[k].end_ts);
            } else {
                assert(after.contains(rows[j]));
                let y = choose|y: int| 0 <= y < after.len() && after[y] == rows[j];
                assert(after[y].start_ts <= t <= after[y].end_ts);
            }
        }
        if start_ts <= t <= end_ts {
            assert(after[k].start_ts <= t <= after[k].end_ts);
        }
        if separated(rows) {
            assert forall|i: int| 0 <= i < after.len() implies (#[trigger] after[i]).start_ts <= after[i].end_ts by {
                if after[i] != mr {
                    let j = choose|j: int| 0 <= j < n && !p(#[trigger] rows[j]) && after[i] == rows[j];
                }
            }
            lemma_merged_separated(rows, p, start_ts, end_ts, ki, mr, n);
        }
    }
}

/// A window that did not touch the recorded range does not touch the merged window either,
/// when the stored windows were apart.
proof fn lemma_apart_from_merged(rows: Seq<AfkV>, p: spec_fn(AfkV) -> bool, start_ts: i64, end_ts: i64, mr: AfkV, c: int)
    requires
        p == touches(start_ts, end_ts),
        start_ts <= end_ts,
        separated(rows),
        mr.start_ts == merged_start(rows, p, start_ts, rows.len() as int),
        mr.end_ts == merged_end(rows, p, end_ts, rows.len() as int),
        0 <= c < rows.len(),
        !p(rows[c]),
    ensures
        !touches(mr.start_ts, mr.end_ts)(rows[c]),
        !touches(rows[c].start_ts, rows[c].end_ts)(mr),
{
    let n = rows.len() as int;
    lemma_merged_bounds(rows, p, start_ts, end_ts, n);
    lemma_merged_extremes(rows, p, start_ts, end_ts, n);
    let ms = mr.start_ts;
    let me = mr.end_ts;
    let w = rows[c];
    assert(w.start_ts <= w.end_ts);
    if w.start_ts <= me + 1 && w.end_ts >= ms - 1 {
        if w.start_ts > end_ts + 1 {
            let b = choose|b: int| 0 <= b < n && p(#[trigger] rows[b]) && rows[b].end_ts == me;
            assert(b != c);
            assert(!touches(rows[b].start_ts, rows[b].end_ts)(rows[c]));
            assert(false);
        } else {
            let a = choose|a: int| 0 <= a < n && p(#[trigger] rows[a]) && rows[a].start_ts == ms;
            assert(a != c);
            assert(!touches(rows[a].start_ts, rows[a].end_ts)(rows[c]));
            assert(false);
        }
    }
}

/// The merged windows are ranges, pairwise apart, when the stored windows were.
proof fn lemma_merged_separated(
    rows: Seq<AfkV>,
    p: spec_fn(AfkV) -> bool,
    start_ts: i64,
    end_ts: i64,
    ki: int,
    mr: AfkV,
    n: int,
)
    requires
        0 <= n <= rows.len(),
        0 <= ki < rows.len(),
        p == touches(start_ts, end_ts),
        start_ts <= end_ts,
        separated(rows),
        mr.start_ts == merged_start(rows, p, start_ts, rows.len() as int),
        mr.end_ts == merged_end(rows, p, end_ts, rows.len() as int),
        p(rows[ki]),
    ensures
        separated(merged_rows(rows, p, ki, mr, n)),
    decreases n,
{
    lemma_merged_bounds(rows, p, start_ts, end_ts, rows.len() as int);
    if n > 0 {
        lemma_merged_separated(rows, p, start_ts, end_ts, ki, mr, n - 1);
        lemma_merged_members(rows, p, ki, mr, n - 1);
        let pre = merged_rows(rows, p, ki, mr, n - 1);
        let m = merged_rows(rows, p, ki, mr, n);
        if n - 1 == ki || !p(rows[n - 1]) {
            let nw = if n - 1 == ki { mr } else { rows[n - 1] };
            assert(m == pre.push(nw));
            // The new window is apart from every earlier one.
            assert forall|x: int| 0 <= x < pre.len() implies !touches(nw.start_ts, nw.end_ts)(#[trigger] pre[x])
                && !touches(pre[x].start_ts, pre[x].end_ts)(nw) by {
                if pre[x] == mr && ki < n - 1 {
                    assert(n - 1 != ki);
                    lemma_apart_from_merged(rows, p, start_ts, end_ts, mr, n - 1);
                } else {
                    let j = choose|j: int| 0 <= j < n - 1 && !p(#[trigger] rows[j]) && pre[x] == rows[j];
                    if n - 1 == ki {
                        lemma_apart_from_merged(rows, p, start_ts, end_ts, mr, j);
                    } else {
                        assert(!touches(rows[j].start_ts, rows[j].end_ts)(rows[n - 1]));
                        assert(!touches(rows[n - 1].start_ts, rows[n - 1].end_ts)(rows[j]));
                    }
                }
            }
            assert forall|i: int| 0 <= i < m.len() implies (#[trigger] m[i]).start_ts <= m[i].end_ts by {
                if i < pre.len() {
                    assert(m[i] == pre[i]);
                }
            }
            assert forall|i: int, j: int|
                0 <= i < m.len() && 0 <= j < m.len() && i != j implies !touches((#[trigger] m[i]).start_ts, m[i].end_ts)(
                    #[trigger] m[j],
                ) by {
                if i < pre.len() && j < pre.len() {
                    assert(m[i] == pre[i] && m[j] == pre[j]);
                } else if i < pre.len() {
                    assert(m[i] == pre[i] && m[j] == nw);
                } else {
                    assert(m[j] == pre[j] && m[i] == nw);
                }
            }
        } else {
            assert(m == pre);
        }
    }
}

} // verus!
