use vstd::prelude::*;
use super::{Db, DbError, InterfaceV, AppV, UsageV, view_seq};
use super::group::{Group, group_rows, group_overflows, is_grouping, tagged, ts_of, lemma_tagged_witness};
use super::query::{iface_by_id, app_by_id, passes, before_cutover, helper_cutover, non_negative, is_poll_source};
use super::sort::{SortKey, KeyV, sort_keys, sorted_from, distinct_ids};
use crate::seqs::lemma_first_index_props;
use crate::text::{chars_of, lower_vec, lower_seq, keyword, keyword_seq, chars_eq_str};
use crate::contracts::{
    AppBreakdownRequest, AppUsageRow, AppBreakdownResponse, InterfaceInfo, GetInterfacesResponse,
    InterfaceBreakdownRequest, InterfaceUsageRow, InterfaceBreakdownResponse,
};

verus! {

/// How an app breakdown is ordered.
#[derive(Debug, Clone, Copy, PartialEq, Eq)]
pub enum AppSort {
    /// By display name, then process name (case-insensitive), then the larger totals.
    Name,
    /// By bytes sent, then received, then total, largest first.
    Upload,
    /// By bytes received, then sent, then total, largest first.
    Download,
    /// By total bytes, then sent, then received, largest first.
    Total,
}

/// The order a `sort_by` value asks for (trimmed, case-insensitive); total bytes otherwise.
pub open spec fn app_sort_of(sort_by: Option<String>) -> AppSort {
    match sort_by {
        None => AppSort::Total,
        Some(s) => {
            let k = keyword_seq(s@);
            if k == "name_asc"@ || k == "display_name_asc"@ {
                AppSort::Name
            } else if k == "upload_desc"@ || k == "bytes_sent_desc"@ {
                AppSort::Upload
            } else if k == "download_desc"@ || k == "bytes_recv_desc"@ {
                AppSort::Download
            } else {
                AppSort::Total
            }
        },
    }
}

pub fn resolve_app_sort(sort_by: &Option<String>) -> (r: AppSort)
    ensures
        r == app_sort_of(*sort_by),
{
    match sort_by {
        None => AppSort::Total,
        Some(s) => {
            let k = keyword(s.as_str());
            if chars_eq_str(&k, "name_asc") || chars_eq_str(&k, "display_name_asc") {
                AppSort::Name
            } else if chars_eq_str(&k, "upload_desc") || chars_eq_str(&k, "bytes_sent_desc") {
                AppSort::Upload
            } else if chars_eq_str(&k, "download_desc") || chars_eq_str(&k, "bytes_recv_desc") {
                AppSort::Download
            } else {
                AppSort::Total
            }
        },
    }
}

/// The app a usage row is counted for in a breakdown, `None` when it is left out.
pub open spec fn app_tag(
    ifaces: Seq<InterfaceV>,
    apps: Seq<AppV>,
    req: AppBreakdownRequest,
    cut: Option<i64>,
    r: UsageV,
) -> Option<i64> {
    let keep = match iface_by_id(ifaces, r.interface_id) {
        None => false,
        Some(i) => {
            &&& req.start_ts <= r.ts < req.end_ts
            &&& passes(req.interface_id, i.guid)
            &&& passes(req.interface_type, i.kind)
            &&& app_by_id(apps, r.app_id) is Some
            &&& (r.source == "helper"@ || (r.source == "import"@ && before_cutover(r.ts, cut)))
        },
    };
    if keep {
        Some(r.app_id)
    } else {
        None
    }
}

pub open spec fn app_tags(db: &Db, req: AppBreakdownRequest) -> Seq<Option<i64>> {
    Seq::new(
        db.usage().len(),
        |j: int| app_tag(db.interfaces(), db.apps(), req, helper_cutover(db), db.usage()[j]),
    )
}

/// The name an app is shown under: its display name, or its process name when it has none.
pub open spec fn shown_name(a: AppV) -> Seq<char> {
    match a.display_name {
        Some(d) => d,
        None => a.process_name,
    }
}

/// The ordering key of an app group in a breakdown.
pub open spec fn app_key(mode: AppSort, a: AppV, g: Group, pos: int) -> KeyV {
    let t = g.sent + g.recv;
    let e = Seq::<char>::empty();
    let ld = lower_seq(shown_name(a));
    let lp = lower_seq(a.process_name);
    match mode {
        AppSort::Name => KeyV { s0: ld, s1: lp, n1: -t, n2: -g.sent, n3: -g.recv, s2: e, s3: e, id: g.key as int, pos },
        AppSort::Total => KeyV { s0: e, s1: e, n1: -t, n2: -g.sent, n3: -g.recv, s2: ld, s3: lp, id: g.key as int, pos },
        AppSort::Upload => KeyV { s0: e, s1: e, n1: -g.sent, n2: -g.recv, n3: -t, s2: ld, s3: lp, id: g.key as int, pos },
        AppSort::Download => KeyV { s0: e, s1: e, n1: -g.recv, n2: -g.sent, n3: -t, s2: ld, s3: lp, id: g.key as int, pos },
    }
}

pub open spec fn app_keys(mode: AppSort, apps: Seq<AppV>, gs: Seq<Group>) -> Seq<KeyV> {
    Seq::new(gs.len(), |i: int| app_key(mode, app_by_id(apps, gs[i].key)->0, gs[i], i))
}

/// How many rows a breakdown returns at most: the asked limit (50 by default), at most 500.
pub open spec fn app_limit(limit: Option<u32>) -> int {
    let l = match limit {
        None => 50,
        Some(x) => x as int,
    };
    if l > 500 {
        500
    } else {
        l
    }
}

/// The breakdown row of an app group.
pub open spec fn app_row_is(row: AppUsageRow, a: AppV, g: Group) -> bool {
    &&& row.process_name@ == a.process_name
    &&& row.display_name@ == shown_name(a)
    &&& row.bytes_sent == non_negative(g.sent)
    &&& row.bytes_recv == non_negative(g.recv)
    &&& row.last_seen_ts == g.last_ts
}

/// The response lists the first rows of the ordered groups.
pub open spec fn app_breakdown_of(
    apps: Seq<AppV>,
    req: AppBreakdownRequest,
    gs: Seq<Group>,
    s: Seq<KeyV>,
    resp: AppBreakdownResponse,
) -> bool {
    let n = if s.len() < app_limit(req.limit) {
        s.len() as int
    } else {
        app_limit(req.limit)
    };
    &&& resp.apps@.len() == n
    &&& resp.total_apps == n
    &&& forall|i: int|
        0 <= i < n ==> app_row_is(
            #[trigger] resp.apps@[i],
            app_by_id(apps, gs[s[i].pos].key)->0,
            gs[s[i].pos],
        )
}

/// The order of groups by total: the larger total first, then the group key.
pub open spec fn total_key(g: Group, pos: int) -> KeyV {
    let e = Seq::<char>::empty();
    KeyV { s0: e, s1: e, n1: -(g.sent + g.recv), n2: 0, n3: 0, s2: e, s3: e, id: g.key as int, pos }
}

pub open spec fn total_keys(gs: Seq<Group>) -> Seq<KeyV> {
    Seq::new(gs.len(), |i: int| total_key(gs[i], i))
}

/// The interface a usage row is counted for in an interface breakdown.
pub open spec fn iface_tag(ifaces: Seq<InterfaceV>, req: InterfaceBreakdownRequest, r: UsageV) -> Option<i64> {
    let keep = match iface_by_id(ifaces, r.interface_id) {
        None => false,
        Some(i) => {
            &&& req.start_ts <= r.ts < req.end_ts
            &&& is_poll_source(r.source)
            &&& passes(req.interface_id, i.guid)
            &&& passes(req.interface_type, i.kind)
        },
    };
    if keep {
        Some(r.interface_id)
    } else {
        None
    }
}

pub open spec fn iface_tags(db: &Db, req: InterfaceBreakdownRequest) -> Seq<Option<i64>> {
    Seq::new(db.usage().len(), |j: int| iface_tag(db.interfaces(), req, db.usage()[j]))
}

pub open spec fn iface_row_is(row: InterfaceUsageRow, i: InterfaceV, g: Group) -> bool {
    &&& row.interface_id@ == i.guid
    &&& row.interface_name@ == i.name
    &&& row.interface_type@ == i.kind
    &&& row.is_metered == i.is_metered
    &&& row.bytes_sent == non_negative(g.sent)
    &&& row.bytes_recv == non_negative(g.recv)
}

/// The ordering key of an interface in the interface list: its name, case-insensitive,
/// then its place in the table.
pub open spec fn name_key(i: InterfaceV, pos: int) -> KeyV {
    let e = Seq::<char>::empty();
    KeyV { s0: lower_seq(i.name), s1: e, n1: 0, n2: 0, n3: 0, s2: e, s3: e, id: pos, pos }
}

pub open spec fn name_keys(ifaces: Seq<InterfaceV>) -> Seq<KeyV> {
    Seq::new(ifaces.len(), |i: int| name_key(ifaces[i], i))
}

pub open spec fn info_is(row: InterfaceInfo, i: InterfaceV) -> bool {
    &&& row.guid@ == i.guid
    &&& row.name@ == i.name
    &&& row.interface_type@ == i.kind
    &&& row.is_metered == i.is_metered
}

/// What an app breakdown reports: the groups of its rows, ordered as asked, cut to the limit.
pub open spec fn app_breakdown_reply(db: &Db, req: AppBreakdownRequest, resp: AppBreakdownResponse) -> bool {
    exists|gs: Seq<Group>, s: Seq<KeyV>|
        is_grouping(db.usage(), app_tags(db, req), gs) && sorted_from(app_keys(app_sort_of(req.sort_by), db.apps(), gs), s)
            && app_breakdown_of(db.apps(), req, gs, s, resp)
}

/// What an interface breakdown reports: the groups of its rows, the largest total first.
pub open spec fn iface_breakdown_reply(db: &Db, req: InterfaceBreakdownRequest, resp: InterfaceBreakdownResponse) -> bool {
    exists|gs: Seq<Group>, s: Seq<KeyV>|
        is_grouping(db.usage(), iface_tags(db, req), gs) && sorted_from(total_keys(gs), s) && resp.interfaces@.len()
            == gs.len() && resp.total_interfaces == gs.len() as u32 && forall|i: int|
            0 <= i < gs.len() ==> iface_row_is(
                #[trigger] resp.interfaces@[i],
                iface_by_id(db.interfaces(), gs[s[i].pos].key)->0,
                gs[s[i].pos],
            )
}

/// What the interface list reports: every interface, by name.
pub open spec fn interfaces_reply(db: &Db, r: GetInterfacesResponse) -> bool {
    exists|s: Seq<KeyV>|
        sorted_from(name_keys(db.interfaces()), s) && r.interfaces@.len() == s.len() && forall|i: int|
            0 <= i < s.len() ==> info_is(#[trigger] r.interfaces@[i], db.interfaces()[s[i].pos])
}

/// Group keys that rise strictly are distinct ids.
pub(crate) proof fn lemma_distinct_keys(gs: Seq<Group>, ks: Seq<KeyV>)
    requires
        forall|i: int, j: int| 0 <= i < j < gs.len() ==> #[trigger] gs[i].key < #[trigger] gs[j].key,
        ks.len() == gs.len(),
        forall|i: int| 0 <= i < ks.len() ==> (#[trigger] ks[i]).id == gs[i].key,
    ensures
        distinct_ids(ks),
{
    assert forall|i: int, j: int| 0 <= i < j < ks.len() implies (#[trigger] ks[i]).id != (#[trigger] ks[j]).id by {
        assert(gs[i].key < gs[j].key);
    }
}

/// A key of the sorted sequence is one of the source keys.
pub(crate) proof fn lemma_sorted_member(src: Seq<KeyV>, s: Seq<KeyV>, i: int)
    requires
        sorted_from(src, s),
        0 <= i < s.len(),
    ensures
        exists|j: int| 0 <= j < src.len() && src[j] == s[i],
{
    assert(s.contains(s[i]));
}

fn lower_string(s: &String) -> (r: Vec<char>)
    ensures
        r@ == lower_seq(s@),
{
    lower_vec(&chars_of(s.as_str()))
}

impl Db {
    /// Usage per app over a range, ordered as asked and cut to the limit. Helper records
    /// count, and imported ones before the first helper record.
    pub fn query_app_breakdown(&self, req: &AppBreakdownRequest) -> (r: Result<AppBreakdownResponse, DbError>)
        ensures
            r is Err <==> group_overflows(self.usage(), app_tags(self, *req)),
            r is Err ==> r == Err::<AppBreakdownResponse, DbError>(DbError::IntegerOverflow),
            r matches Ok(resp) ==> app_breakdown_reply(self, *req, resp),
    {
        let cut = self.min_usage_ts(false);
        let mut tags: Vec<Option<i64>> = Vec::new();
        let mut k: usize = 0;
        while k < self.t.usage_records.len()
            invariant
                k <= self.usage().len(),
                self.usage().len() == self.t.usage_records@.len(),
                cut == helper_cutover(self),
                tags@.len() == k,
                forall|j: int| 0 <= j < k ==> #[trigger] tags@[j] == app_tags(self, *req)[j],
            decreases self.usage().len() - k,
        {
            let row = &self.t.usage_records[k];
            assert(self.usage()[k as int] == row@);
            let keep = match self.find_interface_by_id(row.interface_id) {
                None => false,
                Some(i) => {
                    let iface = &self.t.interfaces[i];
                    assert(self.interfaces()[i as int] == iface@);
                    let before = match cut {
                        None => true,
                        Some(c) => row.ts < c,
                    };
                    req.start_ts <= row.ts && row.ts < req.end_ts && super::query::passes_exec(
                        &req.interface_id,
                        &iface.guid,
                    ) && super::query::passes_exec(&req.interface_type, &iface.kind)
                        && self.find_app_by_id(row.app_id).is_some() && (crate::text::str_is(
                        row.source.as_str(),
                        "helper",
                    ) || (crate::text::str_is(row.source.as_str(), "import") && before))
                },
            };
            tags.push(
                if keep {
                    Some(row.app_id)
                } else {
                    None
                },
            );
            k = k + 1;
        }
        assert(tags@ =~= app_tags(self, *req));
        let groups = match group_rows(&self.t.usage_records, &tags) {
            Ok(g) => g,
            Err(e) => {
                return Err(e);
            },
        };
        let ghost gs = groups@;
        let ghost tg = app_tags(self, *req);
        let mode = resolve_app_sort(&req.sort_by);
        let mut keys: Vec<SortKey> = Vec::new();
        let mut names: Vec<(String, String)> = Vec::new();
        let mut i: usize = 0;
        while i < groups.len()
            invariant
                gs == groups@,
                is_grouping(self.usage(), tg, gs),
                tg == app_tags(self, *req),
                mode == app_sort_of(req.sort_by),
                i <= gs.len(),
                keys@.len() == i,
                names@.len() == i,
                forall|j: int| 0 <= j < i ==> (#[trigger] keys@[j])@ == app_keys(mode, self.apps(), gs)[j],
                forall|j: int|
                    0 <= j < i ==> (#[trigger] names@[j]).0@ == app_by_id(self.apps(), gs[j].key)->0.process_name
                        && names@[j].1@ == shown_name(app_by_id(self.apps(), gs[j].key)->0),
            decreases gs.len() - i,
        {
            let g = groups[i];
            proof {
                lemma_tagged_witness(self.usage(), tg, g.key, ts_of(), self.usage().len() as int);
                let j = choose|j: int| 0 <= j < self.usage().len() && tg[j] == Some(g.key);
                assert(tg[j] == app_tag(self.interfaces(), self.apps(), *req, helper_cutover(self), self.usage()[j]));
                lemma_first_index_props(self.apps(), super::query::app_id_is(g.key));
            }
            let a = match self.find_app_by_id(g.key) {
                Some(a) => a,
                None => {
                    proof {
                        assert(false);
                    }
                    0
                },
            };
            let app = &self.t.apps[a];
            assert(self.apps()[a as int] == app@);
            let pn = app.process_name.clone();
            let dn = match &app.display_name {
                Some(d) => d.clone(),
                None => app.process_name.clone(),
            };
            let ld = lower_string(&dn);
            let lp = lower_string(&pn);
            let t: i128 = (g.sent as i128) + (g.recv as i128);
            let key = match mode {
                AppSort::Name => SortKey { s0: ld, s1: lp, n1: 0 - t, n2: 0 - (g.sent as i128), n3: 0 - (g.recv as i128), s2: Vec::new(), s3: Vec::new(), id: g.key as i128, pos: i },
                AppSort::Total => SortKey { s0: Vec::new(), s1: Vec::new(), n1: 0 - t, n2: 0 - (g.sent as i128), n3: 0 - (g.recv as i128), s2: ld, s3: lp, id: g.key as i128, pos: i },
                AppSort::Upload => SortKey { s0: Vec::new(), s1: Vec::new(), n1: 0 - (g.sent as i128), n2: 0 - (g.recv as i128), n3: 0 - t, s2: ld, s3: lp, id: g.key as i128, pos: i },
                AppSort::Download => SortKey { s0: Vec::new(), s1: Vec::new(), n1: 0 - (g.recv as i128), n2: 0 - (g.sent as i128), n3: 0 - t, s2: ld, s3: lp, id: g.key as i128, pos: i },
            };
            assert(key@ =~= app_keys(mode, self.apps(), gs)[i as int]);
            keys.push(key);
            names.push((pn, dn));
            i = i + 1;
        }
        proof {
            assert(view_seq(keys@) =~= app_keys(mode, self.apps(), gs));
            lemma_distinct_keys(gs, view_seq(keys@));
        }
        let sorted = sort_keys(keys);
        let limit: usize = match req.limit {
            None => 50,
            Some(l) => if l > 500 {
                500
            } else {
                l as usize
            },
        };
        let mut apps_out: Vec<AppUsageRow> = Vec::new();
        let mut k: usize = 0;
        let ghost s = view_seq(sorted@);
        while k < sorted.len() && k < limit
            invariant
                s == view_seq(sorted@),
                gs == groups@,
                sorted_from(app_keys(mode, self.apps(), gs), s),
                limit == app_limit(req.limit),
                limit <= 500,
                k <= s.len(),
                k <= limit,
                apps_out@.len() == k,
                names@.len() == gs.len(),
                forall|j: int|
                    0 <= j < gs.len() ==> (#[trigger] names@[j]).0@ == app_by_id(self.apps(), gs[j].key)->0.process_name
                        && names@[j].1@ == shown_name(app_by_id(self.apps(), gs[j].key)->0),
                forall|j: int|
                    0 <= j < k ==> app_row_is(
                        #[trigger] apps_out@[j],
                        app_by_id(self.apps(), gs[s[j].pos].key)->0,
                        gs[s[j].pos],
                    ),
            decreases s.len() - k,
        {
            proof {
                lemma_sorted_member(app_keys(mode, self.apps(), gs), s, k as int);
                let j = choose|j: int| 0 <= j < gs.len() && app_keys(mode, self.apps(), gs)[j] == s[k as int];
                assert(app_keys(mode, self.apps(), gs)[j].pos == j);
            }
            let p = sorted[k].pos;
            assert(s[k as int].pos == p);
            assert(p < gs.len());
            let g = groups[p];
            let pn = names[p].0.clone();
            let dn = names[p].1.clone();
            let s_out: u64 = if g.sent < 0 {
                0
            } else {
                g.sent as u64
            };
            let r_out: u64 = if g.recv < 0 {
                0
            } else {
                g.recv as u64
            };
            apps_out.push(AppUsageRow { process_name: pn, display_name: dn, bytes_sent: s_out, bytes_recv: r_out, last_seen_ts: g.last_ts });
            k = k + 1;
        }
        let n = apps_out.len() as u32;
        let resp = AppBreakdownResponse { apps: apps_out, total_apps: n };
        let r: Result<AppBreakdownResponse, DbError> = Ok(resp);
        assert(r matches Ok(resp2) ==> app_breakdown_reply(self, *req, resp2)) by {
            assert(app_breakdown_of(self.apps(), *req, gs, s, r->Ok_0));
        }
        r
    }
}

impl Db {
    /// Polled usage per interface over a range, the largest total first.
    pub fn query_interface_breakdown(&self, req: &InterfaceBreakdownRequest) -> (r: Result<
        InterfaceBreakdownResponse,
        DbError,
    >)
        ensures
            r is Err <==> group_overflows(self.usage(), iface_tags(self, *req)),
            r is Err ==> r == Err::<InterfaceBreakdownResponse, DbError>(DbError::IntegerOverflow),
            r matches Ok(resp) ==> iface_breakdown_reply(self, *req, resp),
    {
        let mut tags: Vec<Option<i64>> = Vec::new();
        let mut k: usize = 0;
        while k < self.t.usage_records.len()
            invariant
                k <= self.usage().len(),
                self.usage().len() == self.t.usage_records@.len(),
                tags@.len() == k,
                forall|j: int| 0 <= j < k ==> #[trigger] tags@[j] == iface_tags(self, *req)[j],
            decreases self.usage().len() - k,
        {
            let row = &self.t.usage_records[k];
            assert(self.usage()[k as int] == row@);
            let keep = match self.find_interface_by_id(row.interface_id) {
                None => false,
                Some(i) => {
                    let iface = &self.t.interfaces[i];
                    assert(self.interfaces()[i as int] == iface@);
                    req.start_ts <= row.ts && row.ts < req.end_ts && (crate::text::str_is(
                        row.source.as_str(),
                        "interface_poll",
                    ) || crate::text::str_is(row.source.as_str(), "poll"))
                        && super::query::passes_exec(&req.interface_id, &iface.guid)
                        && super::query::passes_exec(&req.interface_type, &iface.kind)
                },
            };
            tags.push(
                if keep {
                    Some(row.interface_id)
                } else {
                    None
                },
            );
            k = k + 1;
        }
        assert(tags@ =~= iface_tags(self, *req));
        let groups = match group_rows(&self.t.usage_records, &tags) {
            Ok(g) => g,
            Err(e) => {
                return Err(e);
            },
        };
        let ghost gs = groups@;
        let ghost tg = iface_tags(self, *req);
        let mut keys: Vec<SortKey> = Vec::new();
        let mut rows: Vec<usize> = Vec::new();
        let mut i: usize = 0;
        while i < groups.len()
            invariant
                gs == groups@,
                is_grouping(self.usage(), tg, gs),
                tg == iface_tags(self, *req),
                i <= gs.len(),
                keys@.len() == i,
                rows@.len() == i,
                forall|j: int| 0 <= j < i ==> (#[trigger] keys@[j])@ == total_keys(gs)[j],
                forall|j: int|
                    0 <= j < i ==> (#[trigger] rows@[j]) < self.interfaces().len() && self.interfaces()[rows@[j] as int]
                        == iface_by_id(self.interfaces(), gs[j].key)->0,
            decreases gs.len() - i,
        {
            let g = groups[i];
            proof {
                lemma_tagged_witness(self.usage(), tg, g.key, ts_of(), self.usage().len() as int);
                let j = choose|j: int| 0 <= j < self.usage().len() && tg[j] == Some(g.key);
                assert(tg[j] == iface_tag(self.interfaces(), *req, self.usage()[j]));
            }
            let a = match self.find_interface_by_id(g.key) {
                Some(a) => a,
                None => {
                    proof {
                        assert(false);
                    }
                    0
                },
            };
            let t: i128 = (g.sent as i128) + (g.recv as i128);
            let key = SortKey { s0: Vec::new(), s1: Vec::new(), n1: 0 - t, n2: 0, n3: 0, s2: Vec::new(), s3: Vec::new(), id: g.key as i128, pos: i };
            assert(key@ =~= total_keys(gs)[i as int]);
            keys.push(key);
            rows.push(a);
            i = i + 1;
        }
        proof {
            assert(view_seq(keys@) =~= total_keys(gs));
            lemma_distinct_keys(gs, view_seq(keys@));
        }
        let sorted = sort_keys(keys);
        let ghost s = view_seq(sorted@);
        let mut out: Vec<InterfaceUsageRow> = Vec::new();
        let mut k: usize = 0;
        while k < sorted.len()
            invariant
                s == view_seq(sorted@),
                gs == groups@,
                sorted_from(total_keys(gs), s),
                k <= s.len(),
                out@.len() == k,
                rows@.len() == gs.len(),
                forall|j: int|
                    0 <= j < gs.len() ==> (#[trigger] rows@[j]) < self.interfaces().len() && self.interfaces()[rows@[j] as int]
                        == iface_by_id(self.interfaces(), gs[j].key)->0,
                forall|j: int|
                    0 <= j < k ==> iface_row_is(
                        #[trigger] out@[j],
                        iface_by_id(self.interfaces(), gs[s[j].pos].key)->0,
                        gs[s[j].pos],
                    ),
            decreases s.len() - k,
        {
            proof {
                lemma_sorted_member(total_keys(gs), s, k as int);
                let j = choose|j: int| 0 <= j < gs.len() && total_keys(gs)[j] == s[k as int];
                assert(total_keys(gs)[j].pos == j);
            }
            let p = sorted[k].pos;
            assert(s[k as int].pos == p);
            let g = groups[p];
            let iface = &self.t.interfaces[rows[p]];
            assert(self.interfaces()[rows@[p as int] as int] == iface@);
            let s_out: u64 = if g.sent < 0 {
                0
            } else {
                g.sent as u64
            };
            let r_out: u64 = if g.recv < 0 {
                0
            } else {
                g.recv as u64
            };
            out.push(
                InterfaceUsageRow {
                    interface_id: iface.guid.clone(),
                    interface_name: iface.name.clone(),
                    interface_type: iface.kind.clone(),
                    is_metered: iface.is_metered,
                    bytes_sent: s_out,
                    bytes_recv: r_out,
                },
            );
            k = k + 1;
        }
        assert(out@.len() == gs.len());
        let n: u32 = #[verifier::truncate] (out.len() as u32);
        let resp = InterfaceBreakdownResponse { interfaces: out, total_interfaces: n };
        let r: Result<InterfaceBreakdownResponse, DbError> = Ok(resp);
        assert(r matches Ok(resp2) ==> iface_breakdown_reply(self, *req, resp2)) by {
            let resp2 = r->Ok_0;
            assert(is_grouping(self.usage(), iface_tags(self, *req), gs));
            assert(sorted_from(total_keys(gs), s));
            assert(resp2.interfaces@.len() == gs.len() && resp2.total_interfaces == gs.len() as u32);
            assert(forall|i: int|
                0 <= i < gs.len() ==> iface_row_is(
                    #[trigger] resp2.interfaces@[i],
                    iface_by_id(self.interfaces(), gs[s[i].pos].key)->0,
                    gs[s[i].pos],
                ));
        }
        r
    }

    /// The known interfaces, ordered by name (case-insensitive), ties in table order.
    pub fn query_interfaces(&self) -> (r: GetInterfacesResponse)
        ensures
            interfaces_reply(self, r),
    {
        let ghost ifs = self.interfaces();
        let mut keys: Vec<SortKey> = Vec::new();
        let mut i: usize = 0;
        while i < self.t.interfaces.len()
            invariant
                ifs == self.interfaces(),
                i <= ifs.len(),
                ifs.len() == self.t.interfaces@.len(),
                keys@.len() == i,
                forall|j: int| 0 <= j < i ==> (#[trigger] keys@[j])@ == name_keys(ifs)[j],
            decreases ifs.len() - i,
        {
            let iface = &self.t.interfaces[i];
            assert(ifs[i as int] == iface@);
            let key = SortKey { s0: lower_string(&iface.name), s1: Vec::new(), n1: 0, n2: 0, n3: 0, s2: Vec::new(), s3: Vec::new(), id: i as i128, pos: i };
            assert(key@ =~= name_keys(ifs)[i as int]);
            keys.push(key);
            i = i + 1;
        }
        proof {
            assert(view_seq(keys@) =~= name_keys(ifs));
            assert forall|a: int, b: int| 0 <= a < b < view_seq(keys@).len() implies (#[trigger] view_seq(keys@)[a]).id
                != (#[trigger] view_seq(keys@)[b]).id by {
                assert(view_seq(keys@)[a].id == a);
                assert(view_seq(keys@)[b].id == b);
            }
        }
        let sorted = sort_keys(keys);
        let ghost s = view_seq(sorted@);
        let mut out: Vec<InterfaceInfo> = Vec::new();
        let mut k: usize = 0;
        while k < sorted.len()
            invariant
                s == view_seq(sorted@),
                ifs == self.interfaces(),
                ifs.len() == self.t.interfaces@.len(),
                sorted_from(name_keys(ifs), s),
                k <= s.len(),
                out@.len() == k,
                forall|j: int| 0 <= j < k ==> info_is(#[trigger] out@[j], ifs[s[j].pos]),
            decreases s.len() - k,
        {
            proof {
                lemma_sorted_member(name_keys(ifs), s, k as int);
                let j = choose|j: int| 0 <= j < ifs.len() && name_keys(ifs)[j] == s[k as int];
                assert(name_keys(ifs)[j].pos == j);
            }
            let p = sorted[k].pos;
            assert(s[k as int].pos == p);
            let iface = &self.t.interfaces[p];
            assert(ifs[p as int] == iface@);
            out.push(
                InterfaceInfo {
                    guid: iface.guid.clone(),
                    name: iface.name.clone(),
                    interface_type: iface.kind.clone(),
                    is_metered: iface.is_metered,
                },
            );
            k = k + 1;
        }
        let r = GetInterfacesResponse { interfaces: out };
        assert(sorted_from(name_keys(self.interfaces()), s) && r.interfaces@.len() == s.len());
        r
    }
}

} // verus!
