use vstd::prelude::*;
use super::{Db, DbError, InterfaceV, AppV, UsageV, UsageRow, view_seq, opt_view};
use super::group::{Group, group_rows, group_overflows, is_grouping};
use super::settings::granularity_seq;
use super::settings::normalize_granularity;
use crate::seqs::{first_index, lemma_first_found, lemma_first_none, lemma_first_index_props};
use crate::text::{same_text, str_is};
use crate::contracts::{UsageSummaryRequest, UsageBucket, UsageSummaryResponse};

verus! {

/// The guid under which attributed usage is stored.
pub open spec fn attribution_guid() -> Seq<char> {
    "{11111111-1111-1111-1111-111111111111}"@
}

pub open spec fn iface_id_is(id: i64) -> spec_fn(InterfaceV) -> bool {
    |r: InterfaceV| r.id == id
}

pub open spec fn app_id_is(id: i64) -> spec_fn(AppV) -> bool {
    |r: AppV| r.id == id
}

/// The interface row with the given id (ids are the table's key).
pub open spec fn iface_by_id(ifaces: Seq<InterfaceV>, id: i64) -> Option<InterfaceV> {
    let i = first_index(ifaces, iface_id_is(id));
    if i >= 0 {
        Some(ifaces[i])
    } else {
        None
    }
}

/// The app row with the given id (ids are the table's key).
pub open spec fn app_by_id(apps: Seq<AppV>, id: i64) -> Option<AppV> {
    let i = first_index(apps, app_id_is(id));
    if i >= 0 {
        Some(apps[i])
    } else {
        None
    }
}

/// An optional filter passes a value when absent or equal to it.
pub open spec fn passes(filter: Option<String>, v: Seq<char>) -> bool {
    match filter {
        None => true,
        Some(f) => f@ == v,
    }
}

pub open spec fn is_poll_source(s: Seq<char>) -> bool {
    s == "interface_poll"@ || s == "poll"@
}

pub open spec fn min_opt(a: Option<i64>, b: Option<i64>) -> Option<i64> {
    match (a, b) {
        (None, y) => y,
        (x, None) => x,
        (Some(x), Some(y)) => Some(if x <= y { x } else { y }),
    }
}

/// `MIN(ts)` over the first `n` usage rows that satisfy `p` (`None` when there are none).
pub open spec fn min_ts(rows: Seq<UsageV>, p: spec_fn(UsageV) -> bool, n: int) -> Option<i64>
    decreases n,
{
    if n <= 0 {
        None
    } else {
        let m = min_ts(rows, p, n - 1);
        if p(rows[n - 1]) {
            min_opt(m, Some(rows[n - 1].ts))
        } else {
            m
        }
    }
}

/// `MAX(ts)` over the first `n` usage rows that satisfy `p` (`None` when there are none).
pub open spec fn max_ts(rows: Seq<UsageV>, p: spec_fn(UsageV) -> bool, n: int) -> Option<i64>
    decreases n,
{
    if n <= 0 {
        None
    } else {
        let m = max_ts(rows, p, n - 1);
        if p(rows[n - 1]) {
            match m {
                None => Some(rows[n - 1].ts),
                Some(x) => Some(if x < rows[n - 1].ts { rows[n - 1].ts } else { x }),
            }
        } else {
            m
        }
    }
}

/// `MIN(last_seen)` over the first `n` interfaces other than the attribution interface.
pub open spec fn min_polled_last_seen(ifaces: Seq<InterfaceV>, n: int) -> Option<i64>
    decreases n,
{
    if n <= 0 {
        None
    } else {
        let m = min_polled_last_seen(ifaces, n - 1);
        if ifaces[n - 1].guid != attribution_guid() {
            min_opt(m, Some(ifaces[n - 1].last_seen))
        } else {
            m
        }
    }
}

pub open spec fn source_is_poll() -> spec_fn(UsageV) -> bool {
    |r: UsageV| is_poll_source(r.source)
}

pub open spec fn source_is_helper() -> spec_fn(UsageV) -> bool {
    |r: UsageV| r.source == "helper"@
}

pub open spec fn source_is_attributed() -> spec_fn(UsageV) -> bool {
    |r: UsageV| r.source == "helper"@ || r.source == "import"@
}

/// From when on polled data replaces imported data: the earliest polled record or the
/// earliest sighting of a polled interface.
pub open spec fn poll_cutover(db: &Db) -> Option<i64> {
    poll_cutover_of(db.usage(), db.interfaces())
}

pub open spec fn poll_cutover_of(rs: Seq<UsageV>, ifs: Seq<InterfaceV>) -> Option<i64> {
    min_opt(min_ts(rs, source_is_poll(), rs.len() as int), min_polled_last_seen(ifs, ifs.len() as int))
}

/// From when on helper data replaces imported data: the earliest helper record.
pub open spec fn helper_cutover(db: &Db) -> Option<i64> {
    min_ts(db.usage(), source_is_helper(), db.usage().len() as int)
}

/// Seconds per bucket of a granularity.
pub open spec fn granularity_secs(g: Seq<char>) -> i64 {
    let n = granularity_seq(g);
    if n == "hour"@ {
        3600
    } else if n == "week"@ {
        604800
    } else if n == "month"@ {
        2592000
    } else {
        86400
    }
}

/// `(ts / b) * b` with the division truncating toward zero.
pub open spec fn bucket_start(ts: i64, b: i64) -> i64 {
    let t = ts as int;
    let d = b as int;
    if t >= 0 {
        ((t / d) * d) as i64
    } else {
        (0 - ((0 - t) / d) * d) as i64
    }
}

/// Imported data counts only before the cutover.
pub open spec fn before_cutover(ts: i64, cut: Option<i64>) -> bool {
    match cut {
        None => true,
        Some(c) => ts < c,
    }
}

/// The bucket a usage row falls in for a summary, `None` when the summary leaves it out.
pub open spec fn summary_tag(
    ifaces: Seq<InterfaceV>,
    apps: Seq<AppV>,
    req: UsageSummaryRequest,
    cut: Option<i64>,
    r: UsageV,
) -> Option<i64> {
    let keep = match iface_by_id(ifaces, r.interface_id) {
        None => false,
        Some(i) => {
            &&& req.start_ts <= r.ts < req.end_ts
            &&& passes(req.interface_id, i.guid)
            &&& passes(req.interface_type, i.kind)
            &&& match req.app_filter {
                None => is_poll_source(r.source) || (r.source == "import"@ && before_cutover(
                    r.ts,
                    cut,
                )),
                Some(f) => match app_by_id(apps, r.app_id) {
                    None => false,
                    Some(a) => a.process_name == f@ && (r.source == "helper"@ || (r.source
                        == "import"@ && before_cutover(r.ts, cut))),
                },
            }
        },
    };
    if keep {
        Some(bucket_start(r.ts, granularity_secs(req.granularity@)))
    } else {
        None
    }
}

/// The cutover a summary uses: the helper cutover when filtering by app, else the poll one.
pub open spec fn summary_cutover(db: &Db, req: UsageSummaryRequest) -> Option<i64> {
    match req.app_filter {
        Some(_) => helper_cutover(db),
        None => poll_cutover(db),
    }
}

/// The summary's bucket of every usage row.
pub open spec fn summary_tags(db: &Db, req: UsageSummaryRequest) -> Seq<Option<i64>> {
    let c = summary_cutover(db, req);
    Seq::new(
        db.usage().len(),
        |j: int| summary_tag(db.interfaces(), db.apps(), req, c, db.usage()[j]),
    )
}

/// A stored total as an unsigned count: negative totals read as zero.
pub open spec fn non_negative(v: i64) -> u64 {
    if v < 0 {
        0
    } else {
        v as u64
    }
}

pub open spec fn sat_add(a: u64, b: u64) -> u64 {
    if a + b > u64::MAX {
        u64::MAX
    } else {
        (a + b) as u64
    }
}

/// The saturating sum of the buckets' sent (or received) bytes, in order.
pub open spec fn bucket_total(bs: Seq<UsageBucket>, sent: bool) -> u64
    decreases bs.len(),
{
    if bs.len() == 0 {
        0
    } else {
        sat_add(
            bucket_total(bs.drop_last(), sent),
            if sent {
                bs.last().bytes_sent
            } else {
                bs.last().bytes_recv
            },
        )
    }
}

/// A summary response built from the groups `g`, one bucket per group.
pub open spec fn summary_of(g: Seq<Group>, req: UsageSummaryRequest, resp: UsageSummaryResponse) -> bool {
    &&& resp.buckets@.len() == g.len()
    &&& forall|i: int|
        0 <= i < g.len() ==> {
            &&& (#[trigger] resp.buckets@[i]).ts == g[i].key
            &&& resp.buckets@[i].bytes_sent == non_negative(g[i].sent)
            &&& resp.buckets@[i].bytes_recv == non_negative(g[i].recv)
            &&& opt_view(resp.buckets@[i].interface_id) == opt_view(req.interface_id)
        }
    &&& resp.total_sent == bucket_total(resp.buckets@, true)
    &&& resp.total_recv == bucket_total(resp.buckets@, false)
}

/// What a summary reports: one bucket per group of the summary's rows.
pub open spec fn summary_reply(db: &Db, req: UsageSummaryRequest, resp: UsageSummaryResponse) -> bool {
    exists|g: Seq<Group>| is_grouping(db.usage(), summary_tags(db, req), g) && summary_of(g, req, resp)
}

pub fn granularity_to_seconds(granularity: &str) -> (r: i64)
    ensures
        r == granularity_secs(granularity@),
{
    let n = normalize_granularity(granularity);
    if str_is(n, "hour") {
        3600
    } else if str_is(n, "week") {
        604800
    } else if str_is(n, "month") {
        2592000
    } else {
        86400
    }
}

fn bucket_start_exec(ts: i64, b: i64) -> (r: i64)
    requires
        b > 0,
    ensures
        r == bucket_start(ts, b),
{
    let t: i128 = ts as i128;
    let bb: i128 = b as i128;
    if t >= 0 {
        let q = t / bb;
        assert(0 <= q * bb <= t) by (nonlinear_arith)
            requires
                t >= 0,
                bb > 0,
                q == t / bb,
        ;
        (q * bb) as i64
    } else {
        let m: i128 = 0 - t;
        let q = m / bb;
        assert(0 <= q * bb <= m) by (nonlinear_arith)
            requires
                m >= 0,
                bb > 0,
                q == m / bb,
        ;
        (0 - q * bb) as i64
    }
}

pub(crate) fn copy_opt_string(s: &Option<String>) -> (r: Option<String>)
    ensures
        opt_view(r) == opt_view(*s),
{
    match s {
        Some(x) => Some(x.clone()),
        None => None,
    }
}

pub(crate) fn passes_exec(filter: &Option<String>, v: &String) -> (r: bool)
    ensures
        r == passes(*filter, v@),
{
    match filter {
        None => true,
        Some(f) => same_text(f, v),
    }
}

impl Db {
    pub(crate) fn find_interface_by_id(&self, id: i64) -> (r: Option<usize>)
        ensures
            match r {
                Some(i) => i < self.interfaces().len() && i == first_index(self.interfaces(), iface_id_is(id)),
                None => first_index(self.interfaces(), iface_id_is(id)) == -1,
            },
    {
        let mut k: usize = 0;
        while k < self.t.interfaces.len()
            invariant
                k <= self.t.interfaces@.len(),
                forall|j: int| 0 <= j < k ==> !(#[trigger] iface_id_is(id)(self.interfaces()[j])),
            decreases self.t.interfaces@.len() - k,
        {
            if self.t.interfaces[k].id == id {
                proof {
                    lemma_first_found(self.interfaces(), iface_id_is(id), k as int);
                }
                return Some(k);
            }
            k = k + 1;
        }
        proof {
            lemma_first_none(self.interfaces(), iface_id_is(id));
        }
        None
    }

    pub(crate) fn find_app_by_id(&self, id: i64) -> (r: Option<usize>)
        ensures
            match r {
                Some(i) => i < self.apps().len() && i == first_index(self.apps(), app_id_is(id)),
                None => first_index(self.apps(), app_id_is(id)) == -1,
            },
    {
        let mut k: usize = 0;
        while k < self.t.apps.len()
            invariant
                k <= self.t.apps@.len(),
                forall|j: int| 0 <= j < k ==> !(#[trigger] app_id_is(id)(self.apps()[j])),
            decreases self.t.apps@.len() - k,
        {
            if self.t.apps[k].id == id {
                proof {
                    lemma_first_found(self.apps(), app_id_is(id), k as int);
                }
                return Some(k);
            }
            k = k + 1;
        }
        proof {
            lemma_first_none(self.apps(), app_id_is(id));
        }
        None
    }

    /// `MIN(ts)` of the usage rows of the given kind of source.
    pub(crate) fn min_usage_ts(&self, poll: bool) -> (r: Option<i64>)
        ensures
            r == min_ts(
                self.usage(),
                if poll {
                    source_is_poll()
                } else {
                    source_is_helper()
                },
                self.usage().len() as int,
            ),
    {
        let ghost p = if poll {
            source_is_poll()
        } else {
            source_is_helper()
        };
        let mut m: Option<i64> = None;
        let mut k: usize = 0;
        while k < self.t.usage_records.len()
            invariant
                k <= self.t.usage_records@.len(),
                p == (if poll {
                    source_is_poll()
                } else {
                    source_is_helper()
                }),
                m == min_ts(self.usage(), p, k as int),
            decreases self.t.usage_records@.len() - k,
        {
            let row = &self.t.usage_records[k];
            assert(self.usage()[k as int] == row@);
            let hit = if poll {
                str_is(row.source.as_str(), "interface_poll") || str_is(row.source.as_str(), "poll")
            } else {
                str_is(row.source.as_str(), "helper")
            };
            if hit {
                m = match m {
                    None => Some(row.ts),
                    Some(x) => Some(
                        if x <= row.ts {
                            x
                        } else {
                            row.ts
                        },
                    ),
                };
            }
            k = k + 1;
        }
        m
    }

    pub(crate) fn min_polled_interface_seen(&self) -> (r: Option<i64>)
        ensures
            r == min_polled_last_seen(self.interfaces(), self.interfaces().len() as int),
    {
        let mut m: Option<i64> = None;
        let mut k: usize = 0;
        while k < self.t.interfaces.len()
            invariant
                k <= self.t.interfaces@.len(),
                m == min_polled_last_seen(self.interfaces(), k as int),
            decreases self.t.interfaces@.len() - k,
        {
            let row = &self.t.interfaces[k];
            assert(self.interfaces()[k as int] == row@);
            if !str_is(row.guid.as_str(), "{11111111-1111-1111-1111-111111111111}") {
                m = match m {
                    None => Some(row.last_seen),
                    Some(x) => Some(
                        if x <= row.last_seen {
                            x
                        } else {
                            row.last_seen
                        },
                    ),
                };
            }
            k = k + 1;
        }
        m
    }

    /// The timestamp of the newest helper or imported usage record, 0 when there is none.
    pub fn last_helper_ingest_ts(&self) -> (r: i64)
        ensures
            r == match max_ts(self.usage(), source_is_attributed(), self.usage().len() as int) {
                Some(t) => t,
                None => 0,
            },
    {
        let mut m: Option<i64> = None;
        let mut k: usize = 0;
        while k < self.t.usage_records.len()
            invariant
                k <= self.t.usage_records@.len(),
                m == max_ts(self.usage(), source_is_attributed(), k as int),
            decreases self.t.usage_records@.len() - k,
        {
            let row = &self.t.usage_records[k];
            assert(self.usage()[k as int] == row@);
            if str_is(row.source.as_str(), "helper") || str_is(row.source.as_str(), "import") {
                m = match m {
                    None => Some(row.ts),
                    Some(x) => Some(
                        if x < row.ts {
                            row.ts
                        } else {
                            x
                        },
                    ),
                };
            }
            k = k + 1;
        }
        match m {
            Some(t) => t,
            None => 0,
        }
    }

    fn summary_tag_exec(&self, req: &UsageSummaryRequest, cut: Option<i64>, b: i64, k: usize) -> (r: Option<i64>)
        requires
            k < self.usage().len(),
            b == granularity_secs(req.granularity@),
        ensures
            r == summary_tag(self.interfaces(), self.apps(), *req, cut, self.usage()[k as int]),
    {
        let row = &self.t.usage_records[k];
        assert(self.usage()[k as int] == row@);
        let keep = match self.find_interface_by_id(row.interface_id) {
            None => false,
            Some(i) => {
                let iface = &self.t.interfaces[i];
                assert(self.interfaces()[i as int] == iface@);
                if !(req.start_ts <= row.ts && row.ts < req.end_ts) {
                    false
                } else if !passes_exec(&req.interface_id, &iface.guid) {
                    false
                } else if !passes_exec(&req.interface_type, &iface.kind) {
                    false
                } else {
                    let before = match cut {
                        None => true,
                        Some(c) => row.ts < c,
                    };
                    let imported = str_is(row.source.as_str(), "import") && before;
                    match &req.app_filter {
                        None => str_is(row.source.as_str(), "interface_poll") || str_is(
                            row.source.as_str(),
                            "poll",
                        ) || imported,
                        Some(f) => match self.find_app_by_id(row.app_id) {
                            None => false,
                            Some(a) => {
                                assert(self.apps()[a as int] == self.t.apps@[a as int]@);
                                same_text(&self.t.apps[a].process_name, f) && (str_is(
                                    row.source.as_str(),
                                    "helper",
                                ) || imported)
                            },
                        },
                    }
                }
            },
        };
        if keep {
            Some(bucket_start_exec(row.ts, b))
        } else {
            None
        }
    }

    /// Usage per time bucket over a range, with the totals. Filtered by app, helper records
    /// count, and imported ones before the first helper record; otherwise polled records
    /// count, and imported ones before polling began. Fails when a bucket's sum overflows.
    pub fn query_usage_summary(&self, req: &UsageSummaryRequest) -> (r: Result<UsageSummaryResponse, DbError>)
        ensures
            r is Err <==> group_overflows(self.usage(), summary_tags(self, *req)),
            r is Err ==> r == Err::<UsageSummaryResponse, DbError>(DbError::IntegerOverflow),
            r matches Ok(resp) ==> summary_reply(self, *req, resp),
    {
        let cut = match &req.app_filter {
            Some(_) => self.min_usage_ts(false),
            None => {
                let a = self.min_usage_ts(true);
                let b = self.min_polled_interface_seen();
                match (a, b) {
                    (None, y) => y,
                    (x, None) => x,
                    (Some(x), Some(y)) => Some(
                        if x <= y {
                            x
                        } else {
                            y
                        },
                    ),
                }
            },
        };
        assert(cut == summary_cutover(self, *req));
        let b = granularity_to_seconds(req.granularity.as_str());
        let mut tags: Vec<Option<i64>> = Vec::new();
        let mut k: usize = 0;
        while k < self.t.usage_records.len()
            invariant
                k <= self.usage().len(),
                self.usage().len() == self.t.usage_records@.len(),
                b == granularity_secs(req.granularity@),
                cut == summary_cutover(self, *req),
                tags@.len() == k,
                forall|j: int| 0 <= j < k ==> #[trigger] tags@[j] == summary_tags(self, *req)[j],
            decreases self.usage().len() - k,
        {
            let t = self.summary_tag_exec(req, cut, b, k);
            tags.push(t);
            k = k + 1;
        }
        assert(tags@ =~= summary_tags(self, *req));
        let groups = match group_rows(&self.t.usage_records, &tags) {
            Ok(g) => g,
            Err(e) => {
                return Err(e);
            },
        };
        let mut buckets: Vec<UsageBucket> = Vec::new();
        let mut total_sent: u64 = 0;
        let mut total_recv: u64 = 0;
        let mut i: usize = 0;
        while i < groups.len()
            invariant
                i <= groups@.len(),
                buckets@.len() == i,
                forall|j: int|
                    0 <= j < i ==> {
                        &&& (#[trigger] buckets@[j]).ts == groups@[j].key
                        &&& buckets@[j].bytes_sent == non_negative(groups@[j].sent)
                        &&& buckets@[j].bytes_recv == non_negative(groups@[j].recv)
                        &&& opt_view(buckets@[j].interface_id) == opt_view(req.interface_id)
                    },
                total_sent == bucket_total(buckets@, true),
                total_recv == bucket_total(buckets@, false),
            decreases groups@.len() - i,
        {
            let g = groups[i];
            let s: u64 = if g.sent < 0 {
                0
            } else {
                g.sent as u64
            };
            let rv: u64 = if g.recv < 0 {
                0
            } else {
                g.recv as u64
            };
            let ghost before = buckets@;
            buckets.push(UsageBucket { ts: g.key, bytes_sent: s, bytes_recv: rv, interface_id: copy_opt_string(&req.interface_id) });
            assert(buckets@.drop_last() =~= before);
            total_sent = total_sent.saturating_add(s);
            total_recv = total_recv.saturating_add(rv);
            i = i + 1;
        }
        let resp = UsageSummaryResponse { buckets, total_sent, total_recv };
        assert(summary_of(groups@, *req, resp));
        assert(is_grouping(self.usage(), summary_tags(self, *req), groups@));
        assert(!group_overflows(self.usage(), summary_tags(self, *req)));
        let r: Result<UsageSummaryResponse, DbError> = Ok(resp);
        assert(r matches Ok(resp2) ==> summary_reply(self, *req, resp2)) by {
            assert(is_grouping(self.usage(), summary_tags(self, *req), groups@) && summary_of(groups@, *req, r->Ok_0));
        }
        r
    }
}

} // verus!
