use vstd::prelude::*;
use super::{Db, DbError, CapRow, CapV, CapEventRow, EventV, view_seq, opt_view, ids_at_most, lemma_ids_push, lemma_ids_update};
use super::query::non_negative;
use super::sort::{SortKey, KeyV, sort_keys, sorted_from};
use super::breakdown::lemma_sorted_member;
use crate::seqs::{first_index, lemma_first_found, lemma_first_none, lemma_first_index_props, keep, lemma_keep_step, lemma_keep_len};
use crate::text::{chars_of, trim_vec, trim_seq, string_of, keyword, keyword_seq, chars_eq_str, same_text};
use crate::contracts::{
    CapDefinition, ListCapDefinitionsResponse, UpsertCapDefinitionRequest, UpsertCapDefinitionResponse,
    DeleteCapDefinitionRequest, DeleteCapDefinitionResponse,
};

verus! {

pub open spec fn sat_mul_u64(a: u64, b: u64) -> u64 {
    if a * b > u64::MAX {
        u64::MAX
    } else {
        (a * b) as u64
    }
}

pub open spec fn sat_add_u64(a: u64, b: u64) -> u64 {
    if a + b > u64::MAX {
        u64::MAX
    } else {
        (a + b) as u64
    }
}

/// The usage at which `percent` of a cap is reached, rounded up (0 for an empty cap).
pub open spec fn threshold_bytes(cap_bytes: u64, percent: u64) -> u64 {
    if cap_bytes == 0 || percent == 0 {
        0
    } else {
        (sat_add_u64(sat_mul_u64(cap_bytes, percent), 99) / 100) as u64
    }
}

/// A thirtieth of a monthly cap, rounded up: `ceil(monthly_cap_bytes / 30)`.
pub open spec fn daily_cap(monthly_cap_bytes: u64) -> u64 {
    (monthly_cap_bytes / 30 + if monthly_cap_bytes % 30 != 0 { 1u64 } else { 0u64 }) as u64
}

/// A count as a stored integer, at most `i64::MAX`.
pub open spec fn clamped(v: u64) -> i64 {
    if v > i64::MAX {
        i64::MAX
    } else {
        v as i64
    }
}

pub fn threshold_bytes_for_percent(cap_bytes: u64, percent: u64) -> (r: u64)
    ensures
        r == threshold_bytes(cap_bytes, percent),
{
    if cap_bytes == 0 || percent == 0 {
        return 0;
    }
    let m = match cap_bytes.checked_mul(percent) {
        Some(v) => v,
        None => u64::MAX,
    };
    let a = match m.checked_add(99) {
        Some(v) => v,
        None => u64::MAX,
    };
    a / 100
}

pub fn derive_daily_cap_bytes(monthly_cap_bytes: u64) -> (r: u64)
    ensures
        r == daily_cap(monthly_cap_bytes),
{
    let whole = monthly_cap_bytes / 30;
    if monthly_cap_bytes % 30 != 0 {
        whole + 1
    } else {
        whole
    }
}

pub fn as_i64_clamped(value: u64) -> (r: i64)
    ensures
        r == clamped(value),
{
    if value > 9223372036854775807u64 {
        i64::MAX
    } else {
        value as i64
    }
}

/// The scope a cap request names (trimmed, case-insensitive), if it is a known one.
pub open spec fn cap_scope(s: Seq<char>) -> Option<Seq<char>> {
    let k = keyword_seq(s);
    if k == "global"@ || k == "interface"@ {
        Some(k)
    } else {
        None
    }
}

/// The interface guid a cap of the scope stores: none for a global cap, the trimmed guid
/// for an interface cap, which must have one.
pub open spec fn cap_guid(scope: Seq<char>, guid: Option<String>) -> Result<Option<Seq<char>>, DbError> {
    if scope == "global"@ {
        Ok(None)
    } else if scope == "interface"@ {
        match guid {
            Some(g) => if trim_seq(g@).len() > 0 {
                Ok(Some(trim_seq(g@)))
            } else {
                Err(DbError::MissingInterfaceGuid)
            },
            None => Err(DbError::MissingInterfaceGuid),
        }
    } else {
        Err(DbError::InvalidScope)
    }
}

pub fn normalize_cap_interface_guid(scope: &str, interface_guid: &Option<String>) -> (r: Result<Option<String>, DbError>)
    ensures
        match r {
            Ok(g) => cap_guid(scope@, *interface_guid) == Ok::<Option<Seq<char>>, DbError>(opt_view(g)),
            Err(e) => cap_guid(scope@, *interface_guid) == Err::<Option<Seq<char>>, DbError>(e),
        },
{
    if crate::text::str_is(scope, "global") {
        Ok(None)
    } else if crate::text::str_is(scope, "interface") {
        match interface_guid {
            Some(g) => {
                let t = trim_vec(&chars_of(g.as_str()));
                if t.len() > 0 {
                    Ok(Some(string_of(t.as_slice())))
                } else {
                    Err(DbError::MissingInterfaceGuid)
                }
            },
            None => Err(DbError::MissingInterfaceGuid),
        }
    } else {
        Err(DbError::InvalidScope)
    }
}

/// The cap rows after giving the cap with id `id` (if any) the new scope, guid, size, state
/// and update time.
pub open spec fn caps_updated(
    rows: Seq<CapV>,
    id: i64,
    scope: Seq<char>,
    guid: Option<Seq<char>>,
    bytes: i64,
    active: bool,
    ts: i64,
) -> Seq<CapV> {
    Seq::new(
        rows.len(),
        |i: int|
            if rows[i].id == id {
                CapV {
                    scope,
                    interface_guid: guid,
                    monthly_cap_bytes: bytes,
                    is_active: active,
                    updated_at: ts,
                    ..rows[i]
                }
            } else {
                rows[i]
            },
    )
}

/// An updated row now shares its scope and guid with another row: there is one cap per
/// interface and one global cap.
pub open spec fn update_conflicts(rows: Seq<CapV>, id: i64, scope: Seq<char>, guid: Option<Seq<char>>) -> bool {
    exists|i: int, j: int|
        0 <= i < rows.len() && 0 <= j < rows.len() && i != j && (#[trigger] rows[i]).id == id
            && (#[trigger] rows[j]).scope == scope && rows[j].interface_guid == guid
}

/// A cap row with the given scope and guid (a missing guid matching a missing one).
pub open spec fn cap_key_is(scope: Seq<char>, guid: Option<Seq<char>>) -> spec_fn(CapV) -> bool {
    |c: CapV| c.scope == scope && c.interface_guid == guid
}

/// The cap rows after storing a cap: the existing cap with that scope and guid (the single
/// global cap, for a global one) gets the new size, state and update time; without one, a
/// cap with the next id is added.
pub open spec fn caps_inserted(
    rows: Seq<CapV>,
    last: i64,
    scope: Seq<char>,
    guid: Option<Seq<char>>,
    bytes: i64,
    active: bool,
    ts: i64,
) -> Option<(Seq<CapV>, i64)> {
    let i = first_index(rows, cap_key_is(scope, guid));
    if i >= 0 {
        Some(
            (
                rows.update(
                    i,
                    CapV { monthly_cap_bytes: bytes, is_active: active, updated_at: ts, ..rows[i] },
                ),
                last,
            ),
        )
    } else if last == i64::MAX {
        None
    } else {
        Some(
            (
                rows.push(
                    CapV {
                        id: (last + 1) as i64,
                        scope,
                        interface_guid: guid,
                        monthly_cap_bytes: bytes,
                        is_active: active,
                        created_at: ts,
                        updated_at: ts,
                    },
                ),
                (last + 1) as i64,
            ),
        )
    }
}

/// The cap rows, the last id and the cap reported after an upsert, or why it was refused.
pub open spec fn cap_upsert(rows: Seq<CapV>, last: i64, ts: i64, req: UpsertCapDefinitionRequest) -> Result<
    (Seq<CapV>, i64, CapV),
    DbError,
> {
    match cap_scope(req.scope@) {
        None => Err(DbError::InvalidScope),
        Some(scope) => match cap_guid(scope, req.interface_guid) {
            Err(e) => Err(e),
            Ok(guid) => {
                let bytes = if req.monthly_cap_bytes < 1 {
                    1i64
                } else {
                    clamped(req.monthly_cap_bytes)
                };
                let rows1 = match req.id {
                    None => rows,
                    Some(id) => caps_updated(rows, id, scope, guid, bytes, req.is_active, ts),
                };
                if req.id is Some && update_conflicts(rows1, req.id->0, scope, guid) {
                    Err(DbError::UniqueConstraint)
                } else {
                    match caps_inserted(rows1, last, scope, guid, bytes, req.is_active, ts) {
                        None => Err(DbError::IdSpaceExhausted),
                        Some((rows2, last2)) => Ok(
                            (rows2, last2, rows2[first_index(rows2, cap_key_is(scope, guid))]),
                        ),
                    }
                }
            },
        },
    }
}

/// The reported form of a cap row.
pub open spec fn cap_def_is(d: CapDefinition, c: CapV) -> bool {
    &&& d.id == c.id
    &&& d.scope@ == c.scope
    &&& opt_view(d.interface_guid) == c.interface_guid
    &&& d.monthly_cap_bytes == non_negative(c.monthly_cap_bytes)
    &&& d.is_active == c.is_active
    &&& d.created_at == c.created_at
    &&& d.updated_at == c.updated_at
}

/// The listing order of caps: by scope, then guid (a missing one as empty), then id, then
/// table position.
pub open spec fn cap_keys(rows: Seq<CapV>) -> Seq<KeyV> {
    let e = Seq::<char>::empty();
    Seq::new(
        rows.len(),
        |i: int|
            KeyV {
                s0: rows[i].scope,
                s1: match rows[i].interface_guid {
                    Some(g) => g,
                    None => e,
                },
                n1: rows[i].id as int,
                n2: 0,
                n3: 0,
                s2: e,
                s3: e,
                id: i,
                pos: i,
            },
    )
}

/// What the cap list reports: every cap, by scope, guid and id.
pub open spec fn caps_reply(db: &Db, r: ListCapDefinitionsResponse) -> bool {
    exists|s: Seq<KeyV>|
        sorted_from(cap_keys(db.caps()), s) && r.caps@.len() == s.len() && forall|i: int|
            0 <= i < s.len() ==> cap_def_is(#[trigger] r.caps@[i], db.caps()[s[i].pos])
}

impl CapRow {
    pub fn copy(&self) -> (r: CapRow)
        ensures
            r == *self,
    {
        CapRow {
            id: self.id,
            scope: self.scope.clone(),
            interface_guid: match &self.interface_guid {
                Some(g) => Some(g.clone()),
                None => None,
            },
            monthly_cap_bytes: self.monthly_cap_bytes,
            is_active: self.is_active,
            created_at: self.created_at,
            updated_at: self.updated_at,
        }
    }

    fn definition(&self) -> (d: CapDefinition)
        ensures
            cap_def_is(d, self@),
    {
        CapDefinition {
            id: self.id,
            scope: self.scope.clone(),
            interface_guid: super::query::copy_opt_string(&self.interface_guid),
            monthly_cap_bytes: if self.monthly_cap_bytes < 0 {
                0
            } else {
                self.monthly_cap_bytes as u64
            },
            is_active: self.is_active,
            created_at: self.created_at,
            updated_at: self.updated_at,
        }
    }
}

impl CapEventRow {
    pub fn copy(&self) -> (r: CapEventRow)
        ensures
            r == *self,
    {
        CapEventRow {
            id: self.id,
            cap_definition_id: self.cap_definition_id,
            scope: self.scope.clone(),
            interface_guid: match &self.interface_guid {
                Some(g) => Some(g.clone()),
                None => None,
            },
            window_kind: self.window_kind.clone(),
            window_start_ts: self.window_start_ts,
            window_end_ts: self.window_end_ts,
            threshold_kind: self.threshold_kind.clone(),
            threshold_value: self.threshold_value,
            usage_bytes: self.usage_bytes,
            cap_bytes: self.cap_bytes,
            fired_at: self.fired_at,
            delivery_state: self.delivery_state.clone(),
            delivered_at: self.delivered_at,
        }
    }
}

fn same_opt_text(a: &Option<String>, b: &Option<String>) -> (r: bool)
    ensures
        r == (opt_view(*a) == opt_view(*b)),
{
    match (a, b) {
        (None, None) => true,
        (Some(x), Some(y)) => same_text(x, y),
        _ => false,
    }
}

impl Db {
    /// All caps, by scope, guid and id.
    pub fn list_cap_definitions(&self) -> (r: ListCapDefinitionsResponse)
        ensures
            caps_reply(self, r),
    {
        let ghost cs = self.caps();
        let mut keys: Vec<SortKey> = Vec::new();
        let mut i: usize = 0;
        while i < self.t.caps.len()
            invariant
                cs == self.caps(),
                i <= cs.len(),
                cs.len() == self.t.caps@.len(),
                keys@.len() == i,
                forall|j: int| 0 <= j < i ==> (#[trigger] keys@[j])@ == cap_keys(cs)[j],
            decreases cs.len() - i,
        {
            let c = &self.t.caps[i];
            assert(cs[i as int] == c@);
            let g = match &c.interface_guid {
                Some(x) => chars_of(x.as_str()),
                None => Vec::new(),
            };
            let key = SortKey { s0: chars_of(c.scope.as_str()), s1: g, n1: c.id as i128, n2: 0, n3: 0, s2: Vec::new(), s3: Vec::new(), id: i as i128, pos: i };
            assert(key@ =~= cap_keys(cs)[i as int]);
            keys.push(key);
            i = i + 1;
        }
        proof {
            assert(view_seq(keys@) =~= cap_keys(cs));
            assert forall|a: int, b: int| 0 <= a < b < view_seq(keys@).len() implies (#[trigger] view_seq(keys@)[a]).id
                != (#[trigger] view_seq(keys@)[b]).id by {
                assert(view_seq(keys@)[a].id == a);
                assert(view_seq(keys@)[b].id == b);
            }
        }
        let sorted = sort_keys(keys);
        let ghost s = view_seq(sorted@);
        let mut out: Vec<CapDefinition> = Vec::new();
        let mut k: usize = 0;
        while k < sorted.len()
            invariant
                s == view_seq(sorted@),
                cs == self.caps(),
                cs.len() == self.t.caps@.len(),
                sorted_from(cap_keys(cs), s),
                k <= s.len(),
                out@.len() == k,
                forall|j: int| 0 <= j < k ==> cap_def_is(#[trigger] out@[j], cs[s[j].pos]),
            decreases s.len() - k,
        {
            proof {
                lemma_sorted_member(cap_keys(cs), s, k as int);
                let j = choose|j: int| 0 <= j < cs.len() && cap_keys(cs)[j] == s[k as int];
                assert(cap_keys(cs)[j].pos == j);
            }
            let p = sorted[k].pos;
            assert(s[k as int].pos == p);
            assert(cs[p as int] == self.t.caps@[p as int]@);
            out.push(self.t.caps[p].definition());
            k = k + 1;
        }
        let r = ListCapDefinitionsResponse { caps: out };
        assert(sorted_from(cap_keys(self.caps()), s) && r.caps@.len() == s.len());
        r
    }
}

fn find_cap_key(rows: &Vec<CapRow>, scope: &String, guid: &Option<String>) -> (r: Option<usize>)
    ensures
        match r {
            Some(i) => i < rows@.len() && i == first_index(view_seq(rows@), cap_key_is(scope@, opt_view(*guid))),
            None => first_index(view_seq(rows@), cap_key_is(scope@, opt_view(*guid))) == -1,
        },
{
    let ghost vs = view_seq(rows@);
    let ghost p = cap_key_is(scope@, opt_view(*guid));
    let mut k: usize = 0;
    while k < rows.len()
        invariant
            vs == view_seq(rows@),
            p == cap_key_is(scope@, opt_view(*guid)),
            k <= rows@.len(),
            forall|j: int| 0 <= j < k ==> !(#[trigger] p(vs[j])),
        decreases rows@.len() - k,
    {
        assert(vs[k as int] == rows@[k as int]@);
        if same_text(&rows[k].scope, scope) && same_opt_text(&rows[k].interface_guid, guid) {
            proof {
                lemma_first_found(vs, p, k as int);
            }
            return Some(k);
        }
        k = k + 1;
    }
    proof {
        lemma_first_none(vs, p);
    }
    None
}

/// Whether an updated row shares its scope and guid with another row.
fn conflicts_after_update(rows: &Vec<CapRow>, id: i64, scope: &String, guid: &Option<String>) -> (r: bool)
    ensures
        r == update_conflicts(view_seq(rows@), id, scope@, opt_view(*guid)),
{
    let ghost vs = view_seq(rows@);
    let mut i: usize = 0;
    while i < rows.len()
        invariant
            vs == view_seq(rows@),
            i <= rows@.len(),
            forall|a: int, b: int|
                0 <= a < i && 0 <= b < vs.len() && a != b && (#[trigger] vs[a]).id == id ==> !((#[trigger] vs[b]).scope
                    == scope@ && vs[b].interface_guid == opt_view(*guid)),
        decreases rows@.len() - i,
    {
        assert(vs[i as int] == rows@[i as int]@);
        if rows[i].id == id {
            let mut j: usize = 0;
            while j < rows.len()
                invariant
                    vs == view_seq(rows@),
                    i < rows@.len(),
                    vs[i as int].id == id,
                    j <= rows@.len(),
                    forall|b: int|
                        0 <= b < j && b != i ==> !((#[trigger] vs[b]).scope == scope@ && vs[b].interface_guid == opt_view(
                            *guid,
                        )),
                decreases rows@.len() - j,
            {
                assert(vs[j as int] == rows@[j as int]@);
                if j != i && same_text(&rows[j].scope, scope) && same_opt_text(&rows[j].interface_guid, guid) {
                    assert(vs[i as int].id == id && vs[j as int].scope == scope@ && vs[j as int].interface_guid == opt_view(*guid));
                    assert(update_conflicts(vs, id, scope@, opt_view(*guid)));
                    return true;
                }
                j = j + 1;
            }
        }
        i = i + 1;
    }
    false
}

impl Db {
    /// Creates or updates a monthly cap. With an id, that row is first given the request's
    /// values; then the cap with the request's scope and guid (for a global cap, the single
    /// global cap) is updated, or a new cap inserted. Reports that cap. Refused requests
    /// change nothing.
    pub fn upsert_cap_definition(&mut self, ts: i64, payload: &UpsertCapDefinitionRequest) -> (r: Result<
        UpsertCapDefinitionResponse,
        DbError,
    >)
        requires
            old(self).wf(),
        ensures
            final(self).wf(),
            final(self).same_settings(old(self)),
            final(self).same_interfaces(old(self)),
            final(self).same_apps(old(self)),
            final(self).same_usage(old(self)),
            final(self).same_afk(old(self)),
            final(self).same_events(old(self)),
            match cap_upsert(old(self).caps(), old(self).last_cap(), ts, *payload) {
                Err(e) => r == Err::<UpsertCapDefinitionResponse, DbError>(e) && final(self).same_caps(old(self)),
                Ok((rows, last, c)) => r matches Ok(resp) && cap_def_is(resp.cap, c) && final(self).caps() == rows
                    && final(self).last_cap() == last,
            },
    {
        let k = keyword(payload.scope.as_str());
        let scope: String = if chars_eq_str(&k, "global") {
            "global".to_string()
        } else if chars_eq_str(&k, "interface") {
            "interface".to_string()
        } else {
            return Err(DbError::InvalidScope);
        };
        assert(cap_scope(payload.scope@) == Some(scope@));
        let guid = match normalize_cap_interface_guid(scope.as_str(), &payload.interface_guid) {
            Ok(g) => g,
            Err(e) => {
                return Err(e);
            },
        };
        let bytes: i64 = if payload.monthly_cap_bytes < 1 {
            1
        } else {
            as_i64_clamped(payload.monthly_cap_bytes)
        };
        let ghost rows0 = self.caps();
        let ghost g = opt_view(guid);
        let mut rows1: Vec<CapRow> = Vec::new();
        let mut i: usize = 0;
        while i < self.t.caps.len()
            invariant
                rows0 == self.caps(),
                i <= rows0.len(),
                self.wf(),
                ids_at_most(rows1@, |r: CapRow| r.id, self.last_cap_id),
                view_seq(rows1@) == (match payload.id {
                    None => rows0,
                    Some(id) => caps_updated(rows0, id, scope@, g, bytes, payload.is_active, ts),
                }).subrange(0, i as int),
                g == opt_view(guid),
            decreases rows0.len() - i,
        {
            let c = &self.t.caps[i];
            assert(rows0[i as int] == c@);
            let ghost before = rows1@;
            let row = match payload.id {
                Some(id) => if c.id == id {
                    CapRow { id: c.id, scope: scope.clone(), interface_guid: super::query::copy_opt_string(&guid), monthly_cap_bytes: bytes, is_active: payload.is_active, created_at: c.created_at, updated_at: ts }
                } else {
                    c.copy()
                },
                None => c.copy(),
            };
            assert(row.id == c.id);
            rows1.push(row);
            proof {
                assert((|r: CapRow| r.id)(self.t.caps@[i as int]) <= self.last_cap_id);
                lemma_ids_push(before, |r: CapRow| r.id, self.last_cap_id, self.last_cap_id, row);
                assert(view_seq(rows1@) =~= view_seq(before).push(row@));
            }
            assert(view_seq(rows1@) =~= (match payload.id {
                None => rows0,
                Some(id) => caps_updated(rows0, id, scope@, g, bytes, payload.is_active, ts),
            }).subrange(0, i + 1));
            i = i + 1;
        }
        let ghost r1 = match payload.id {
            None => rows0,
            Some(id) => caps_updated(rows0, id, scope@, g, bytes, payload.is_active, ts),
        };
        assert(view_seq(rows1@) =~= r1);
        if let Some(id) = payload.id {
            if conflicts_after_update(&rows1, id, &scope, &guid) {
                return Err(DbError::UniqueConstraint);
            }
        }
        let found = find_cap_key(&rows1, &scope, &guid);
        proof {
            lemma_first_index_props(r1, cap_key_is(scope@, g));
        }
        let mut rows2 = rows1;
        let mut last = self.last_cap_id;
        match found {
            Some(p) => {
                let c = &rows2[p];
                let row = CapRow { id: c.id, scope: c.scope.clone(), interface_guid: super::query::copy_opt_string(&c.interface_guid), monthly_cap_bytes: bytes, is_active: payload.is_active, created_at: c.created_at, updated_at: ts };
                proof {
                    assert((|r: CapRow| r.id)(rows2@[p as int]) <= self.last_cap_id);
                    lemma_ids_update(rows2@, |r: CapRow| r.id, self.last_cap_id, p as int, row);
                }
                let ghost before = rows2@;
                rows2.set(p, row);
                assert(view_seq(rows2@) =~= view_seq(before).update(p as int, row@));
            },
            _ => {
                if self.last_cap_id == i64::MAX {
                    return Err(DbError::IdSpaceExhausted);
                }
                last = self.last_cap_id + 1;
                let row = CapRow { id: last, scope: scope.clone(), interface_guid: super::query::copy_opt_string(&guid), monthly_cap_bytes: bytes, is_active: payload.is_active, created_at: ts, updated_at: ts };
                proof {
                    lemma_ids_push(rows2@, |r: CapRow| r.id, self.last_cap_id, last, row);
                }
                let ghost before = rows2@;
                rows2.push(row);
                assert(view_seq(rows2@) =~= view_seq(before).push(row@));
            },
        }
        let ghost r2 = view_seq(rows2@);
        assert(caps_inserted(r1, self.last_cap_id, scope@, g, bytes, payload.is_active, ts) == Some((r2, last)));
        let fi = find_cap_key(&rows2, &scope, &guid);
        proof {
            lemma_first_index_props(r2, cap_key_is(scope@, g));
            let ps = cap_key_is(scope@, g);
            if first_index(r1, ps) >= 0 {
                assert(ps(r2[first_index(r1, ps)]));
            } else {
                assert(ps(r2[r2.len() - 1]));
            }
        }
        let p = match fi {
            Some(p) => p,
            None => {
                proof {
                    assert(false);
                }
                0
            },
        };
        let def = rows2[p].definition();
        self.t.caps = rows2;
        self.last_cap_id = last;
        Ok(UpsertCapDefinitionResponse { cap: def })
    }

    /// Deletes the cap with the given id and, with it, its alert events; reports whether a
    /// cap was deleted.
    pub fn delete_cap_definition(&mut self, payload: &DeleteCapDefinitionRequest) -> (r: DeleteCapDefinitionResponse)
        requires
            old(self).wf(),
        ensures
            final(self).wf(),
            final(self).same_settings(old(self)),
            final(self).same_interfaces(old(self)),
            final(self).same_apps(old(self)),
            final(self).same_usage(old(self)),
            final(self).same_afk(old(self)),
            final(self).last_cap() == old(self).last_cap(),
            final(self).last_event() == old(self).last_event(),
            final(self).tables().caps@ == keep(old(self).tables().caps@, |c: CapRow| c.id != payload.id),
            final(self).tables().cap_events@ == keep(
                old(self).tables().cap_events@,
                |e: CapEventRow| e.cap_definition_id != payload.id,
            ),
            r.deleted == (final(self).tables().caps@.len() < old(self).tables().caps@.len()),
    {
        let id = payload.id;
        let ghost caps0 = self.t.caps@;
        let ghost pc = |c: CapRow| c.id != id;
        let mut caps: Vec<CapRow> = Vec::new();
        let mut k: usize = 0;
        while k < self.t.caps.len()
            invariant
                caps0 == self.t.caps@,
                pc == (|c: CapRow| c.id != id),
                k <= caps0.len(),
                caps@ == keep(caps0.subrange(0, k as int), pc),
            decreases caps0.len() - k,
        {
            proof {
                lemma_keep_step(caps0, pc, k as int);
            }
            if self.t.caps[k].id != id {
                let c = self.t.caps[k].copy();
                assert(c == self.t.caps@[k as int]);
                caps.push(c);
            }
            k = k + 1;
        }
        assert(caps0.subrange(0, caps0.len() as int) =~= caps0);
        let ghost ev0 = self.t.cap_events@;
        let ghost pe = |e: CapEventRow| e.cap_definition_id != id;
        let mut events: Vec<CapEventRow> = Vec::new();
        let mut k: usize = 0;
        while k < self.t.cap_events.len()
            invariant
                ev0 == self.t.cap_events@,
                pe == (|e: CapEventRow| e.cap_definition_id != id),
                k <= ev0.len(),
                events@ == keep(ev0.subrange(0, k as int), pe),
            decreases ev0.len() - k,
        {
            proof {
                lemma_keep_step(ev0, pe, k as int);
            }
            if self.t.cap_events[k].cap_definition_id != id {
                let e = self.t.cap_events[k].copy();
                events.push(e);
            }
            k = k + 1;
        }
        assert(ev0.subrange(0, ev0.len() as int) =~= ev0);
        proof {
            lemma_keep_len(caps0, pc);
            super::lemma_ids_keep(caps0, |r: CapRow| r.id, self.last_cap_id, pc);
            super::lemma_ids_keep(ev0, |r: CapEventRow| r.id, self.last_event_id, pe);
        }
        let deleted = caps.len() < self.t.caps.len();
        self.t.caps = caps;
        self.t.cap_events = events;
        DeleteCapDefinitionResponse { deleted }
    }
}

} // verus!
