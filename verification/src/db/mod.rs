use vstd::prelude::*;
use crate::seqs::{keep, lemma_keep_step, first_index, upsert_first, lemma_upsert_first_other, lemma_upsert_first_same, lemma_first_found, lemma_first_none, lemma_first_index_props};

pub mod settings;
pub mod laws;
pub mod usage;
pub mod group;
pub mod query;
pub mod sort;
pub mod breakdown;
pub mod retention;
pub mod afk;
pub mod caps;
pub mod events;
pub mod alerts;
pub mod schema;
pub mod selection;

verus! {

/// One row of the `settings` table.
#[derive(Debug, Clone)]
pub struct SettingRow {
    pub key: String,
    pub value: String,
    pub updated_at: i64,
}

/// One row of the `interfaces` table.
#[derive(Debug, Clone)]
pub struct InterfaceRow {
    pub id: i64,
    pub guid: String,
    pub name: String,
    pub kind: String,
    pub is_metered: bool,
    pub first_seen: i64,
    pub last_seen: i64,
}

/// One row of the `apps` table.
#[derive(Debug, Clone)]
pub struct AppRow {
    pub id: i64,
    pub process_name: String,
    pub display_name: Option<String>,
    pub first_seen: i64,
    pub last_seen: i64,
}

/// One row of the `usage_records` table.
#[derive(Debug, Clone)]
pub struct UsageRow {
    pub id: i64,
    pub ts: i64,
    pub app_id: i64,
    pub interface_id: i64,
    pub bytes_sent: i64,
    pub bytes_recv: i64,
    pub interval_secs: i64,
    pub source: String,
}

/// One row of the `afk_windows` table.
#[derive(Debug, Clone)]
pub struct AfkRow {
    pub id: i64,
    pub start_ts: i64,
    pub end_ts: i64,
    pub source: String,
}

/// One row of the `monthly_cap_definitions` table.
#[derive(Debug, Clone)]
pub struct CapRow {
    pub id: i64,
    pub scope: String,
    pub interface_guid: Option<String>,
    pub monthly_cap_bytes: i64,
    pub is_active: bool,
    pub created_at: i64,
    pub updated_at: i64,
}

/// One row of the `cap_alert_events` table.
#[derive(Debug, Clone)]
pub struct CapEventRow {
    pub id: i64,
    pub cap_definition_id: i64,
    pub scope: String,
    pub interface_guid: Option<String>,
    pub window_kind: String,
    pub window_start_ts: i64,
    pub window_end_ts: i64,
    pub threshold_kind: String,
    pub threshold_value: i64,
    pub usage_bytes: i64,
    pub cap_bytes: i64,
    pub fired_at: i64,
    pub delivery_state: String,
    pub delivered_at: Option<i64>,
}

/// The stored tables, as a store file holds them.
#[derive(Debug, Clone)]
pub struct DbTables {
    pub settings: Vec<SettingRow>,
    pub interfaces: Vec<InterfaceRow>,
    pub apps: Vec<AppRow>,
    pub usage_records: Vec<UsageRow>,
    pub afk_windows: Vec<AfkRow>,
    pub caps: Vec<CapRow>,
    pub cap_events: Vec<CapEventRow>,
}

/// The largest id each table has handed out, deleted rows included.
#[derive(Debug, Clone, Copy, PartialEq, Eq)]
pub struct IdFloors {
    pub interfaces: i64,
    pub apps: i64,
    pub usage_records: i64,
    pub afk_windows: i64,
    pub caps: i64,
    pub cap_events: i64,
}

/// Why a store operation was refused; the store is left as it was.
#[derive(Debug, Clone, Copy, PartialEq, Eq)]
pub enum DbError {
    /// A table ran out of row ids.
    IdSpaceExhausted,
    /// A row would repeat the unique key of another row.
    UniqueConstraint,
    /// A sum left the range of a stored integer.
    IntegerOverflow,
    /// A cap scope other than `global` or `interface`.
    InvalidScope,
    /// An interface-scoped cap without an interface guid.
    MissingInterfaceGuid,
}

/// The usage and settings store of the collector.
pub struct Db {
    t: DbTables,
    last_interface_id: i64,
    last_app_id: i64,
    last_usage_id: i64,
    last_afk_id: i64,
    last_cap_id: i64,
    last_event_id: i64,
}

pub open spec fn setting_key_is(k: Seq<char>) -> spec_fn(SettingRow) -> bool {
    |r: SettingRow| r.key@ == k
}

/// The value stored under `k`: that of the first row with that key.
pub open spec fn setting_lookup(rows: Seq<SettingRow>, k: Seq<char>) -> Option<Seq<char>> {
    let i = first_index(rows, setting_key_is(k));
    if i >= 0 {
        Some(rows[i].value@)
    } else {
        None
    }
}

/// When the setting `k` was last written: the update time of the first row with that key.
pub open spec fn stamp_lookup(rows: Seq<SettingRow>, k: Seq<char>) -> Option<i64> {
    let i = first_index(rows, setting_key_is(k));
    if i >= 0 {
        Some(rows[i].updated_at)
    } else {
        None
    }
}

pub open spec fn stamps_map(rows: Seq<SettingRow>) -> Map<Seq<char>, i64> {
    Map::new(
        |k: Seq<char>| stamp_lookup(rows, k) is Some,
        |k: Seq<char>| stamp_lookup(rows, k)->0,
    )
}

pub open spec fn settings_map(rows: Seq<SettingRow>) -> Map<Seq<char>, Seq<char>> {
    Map::new(
        |k: Seq<char>| setting_lookup(rows, k) is Some,
        |k: Seq<char>| setting_lookup(rows, k)->0,
    )
}

/// The value a map holds for `k`, if any.
pub open spec fn map_get<K, V>(m: Map<K, V>, k: K) -> Option<V> {
    if m.dom().contains(k) {
        Some(m[k])
    } else {
        None
    }
}

pub open spec fn ids_at_most<T>(s: Seq<T>, id: spec_fn(T) -> i64, last: i64) -> bool {
    forall|i: int| 0 <= i < s.len() ==> #[trigger] id(s[i]) <= last
}

impl Db {
    pub closed spec fn tables(&self) -> DbTables {
        self.t
    }

    pub closed spec fn last_interface(&self) -> i64 {
        self.last_interface_id
    }

    pub closed spec fn last_app(&self) -> i64 {
        self.last_app_id
    }

    pub closed spec fn last_usage(&self) -> i64 {
        self.last_usage_id
    }

    pub closed spec fn last_afk(&self) -> i64 {
        self.last_afk_id
    }

    pub closed spec fn last_cap(&self) -> i64 {
        self.last_cap_id
    }

    pub closed spec fn last_event(&self) -> i64 {
        self.last_event_id
    }

    /// The settings, key to value.
    pub open spec fn setting_map(&self) -> Map<Seq<char>, Seq<char>> {
        settings_map(self.tables().settings@)
    }

    /// The settings, key to the time it was last written.
    pub open spec fn stamp_map(&self) -> Map<Seq<char>, i64> {
        stamps_map(self.tables().settings@)
    }

    pub open spec fn setting(&self, k: Seq<char>) -> Option<Seq<char>> {
        map_get(self.setting_map(), k)
    }

    /// Row ids are positive and no larger than the last id handed out in their table, so that
    /// ids handed out later are fresh.
    pub open spec fn wf(&self) -> bool {
        &&& 0 <= self.last_interface() && 0 <= self.last_app() && 0 <= self.last_usage()
        &&& 0 <= self.last_afk() && 0 <= self.last_cap() && 0 <= self.last_event()
        &&& ids_at_most(self.tables().interfaces@, |r: InterfaceRow| r.id, self.last_interface())
        &&& ids_at_most(self.tables().apps@, |r: AppRow| r.id, self.last_app())
        &&& ids_at_most(self.tables().usage_records@, |r: UsageRow| r.id, self.last_usage())
        &&& ids_at_most(self.tables().afk_windows@, |r: AfkRow| r.id, self.last_afk())
        &&& ids_at_most(self.tables().caps@, |r: CapRow| r.id, self.last_cap())
        &&& ids_at_most(self.tables().cap_events@, |r: CapEventRow| r.id, self.last_event())
    }

    /// Everything but the settings is as in `other`.
    pub open spec fn same_but_settings(&self, other: &Db) -> bool {
        &&& self.tables().interfaces@ == other.tables().interfaces@
        &&& self.tables().apps@ == other.tables().apps@
        &&& self.tables().usage_records@ == other.tables().usage_records@
        &&& self.tables().afk_windows@ == other.tables().afk_windows@
        &&& self.tables().caps@ == other.tables().caps@
        &&& self.tables().cap_events@ == other.tables().cap_events@
        &&& self.last_interface() == other.last_interface()
        &&& self.last_app() == other.last_app()
        &&& self.last_usage() == other.last_usage()
        &&& self.last_afk() == other.last_afk()
        &&& self.last_cap() == other.last_cap()
        &&& self.last_event() == other.last_event()
    }

    /// The stored tables.
    pub fn tables_snapshot(&self) -> (r: &DbTables)
        ensures
            *r == self.tables(),
    {
        &self.t
    }

    /// The value stored under `key`, if any.
    pub fn read_setting_string(&self, key: &str) -> (r: Option<String>)
        ensures
            r matches Some(v) ==> self.setting(key@) == Some(v@),
            r is None ==> self.setting(key@) is None,
    {
        let mut k: usize = 0;
        let ghost p = setting_key_is(key@);
        let key_s = key.to_string();
        while k < self.t.settings.len()
            invariant
                k <= self.t.settings@.len(),
                key_s@ == key@,
                forall|j: int| 0 <= j < k ==> !(#[trigger] setting_key_is(key@)(self.t.settings@[j])),
            decreases self.t.settings@.len() - k,
        {
            if crate::text::same_text(&self.t.settings[k].key, &key_s) {
                proof {
                    lemma_first_found(self.t.settings@, setting_key_is(key@), k as int);
                }
                return Some(self.t.settings[k].value.clone());
            }
            k = k + 1;
        }
        proof {
            lemma_first_none(self.t.settings@, setting_key_is(key@));
        }
        None
    }

    /// The index of the first settings row with this key.
    fn find_setting(&self, key: &String) -> (r: Option<usize>)
        ensures
            match r {
                Some(i) => i == first_index(self.t.settings@, setting_key_is(key@)),
                None => first_index(self.t.settings@, setting_key_is(key@)) == -1,
            },
    {
        let ghost p = setting_key_is(key@);
        let mut k: usize = 0;
        while k < self.t.settings.len()
            invariant
                k <= self.t.settings@.len(),
                forall|j: int| 0 <= j < k ==> !(#[trigger] setting_key_is(key@)(self.t.settings@[j])),
            decreases self.t.settings@.len() - k,
        {
            if crate::text::same_text(&self.t.settings[k].key, key) {
                proof {
                    lemma_first_found(self.t.settings@, setting_key_is(key@), k as int);
                }
                return Some(k);
            }
            k = k + 1;
        }
        proof {
            lemma_first_none(self.t.settings@, setting_key_is(key@));
        }
        None
    }

    /// Inserts or replaces one setting, stamped with `ts`.
    pub fn upsert_setting(&mut self, key: &str, value: &str, ts: i64)
        ensures
            final(self).setting_map() == old(self).setting_map().insert(key@, value@),
            final(self).stamp_map() == old(self).stamp_map().insert(key@, ts),
            final(self).same_but_settings(old(self)),
            final(self).wf() == old(self).wf(),
    {
        let row = SettingRow { key: key.to_string(), value: value.to_string(), updated_at: ts };
        let ghost old_rows = self.t.settings@;
        proof {
            lemma_settings_upsert(old_rows, row);
            lemma_first_index_props(old_rows, setting_key_is(key@));
        }
        match self.find_setting(&row.key) {
            Some(k) => {
                self.t.settings.set(k, row);
            },
            None => {
                self.t.settings.push(row);
            },
        }
    }
}

/// An upsert by key sets that key (value and update time) and leaves the others.
pub proof fn lemma_settings_upsert(rows: Seq<SettingRow>, row: SettingRow)
    ensures
        settings_map(upsert_first(rows, setting_key_is(row.key@), row)) == settings_map(rows).insert(
            row.key@,
            row.value@,
        ),
        stamps_map(upsert_first(rows, setting_key_is(row.key@), row)) == stamps_map(rows).insert(
            row.key@,
            row.updated_at,
        ),
{
    let p = setting_key_is(row.key@);
    let rows2 = upsert_first(rows, p, row);
    assert forall|k: Seq<char>|
        #![trigger setting_lookup(rows2, k)]
        #![trigger stamp_lookup(rows2, k)]
        setting_lookup(rows2, k) == (if k == row.key@ {
        Some(row.value@)
    } else {
        setting_lookup(rows, k)
    }) && stamp_lookup(rows2, k) == (if k == row.key@ {
        Some(row.updated_at)
    } else {
        stamp_lookup(rows, k)
    }) by {
        if k == row.key@ {
            lemma_upsert_first_same(rows, p, row);
        } else {
            let q = setting_key_is(k);
            assert forall|x: SettingRow| #[trigger] p(x) implies !q(x) by {}
            lemma_upsert_first_other(rows, p, q, row);
        }
    }
    assert(settings_map(rows2) =~= settings_map(rows).insert(row.key@, row.value@));
    assert(stamps_map(rows2) =~= stamps_map(rows).insert(row.key@, row.updated_at));
}


impl UsageRow {
    /// A copy of the row.
    pub fn copy(&self) -> (r: UsageRow)
        ensures
            r == *self,
    {
        UsageRow {
            id: self.id,
            ts: self.ts,
            app_id: self.app_id,
            interface_id: self.interface_id,
            bytes_sent: self.bytes_sent,
            bytes_recv: self.bytes_recv,
            interval_secs: self.interval_secs,
            source: self.source.clone(),
        }
    }
}

/// Two usage rows share the unique key `(ts, app_id, interface_id, source)`.
pub open spec fn usage_key_eq(a: UsageRow, b: UsageRow) -> bool {
    a.ts == b.ts && a.app_id == b.app_id && a.interface_id == b.interface_id && a.source@
        == b.source@
}

/// No row with the same key has a smaller id.
pub open spec fn first_of_key(rows: Seq<UsageRow>, r: UsageRow) -> bool {
    forall|j: int| 0 <= j < rows.len() && usage_key_eq(#[trigger] rows[j], r) ==> rows[j].id >= r.id
}

/// The rows without repeated usage keys: of the rows sharing a key, the one with the
/// smallest id stays.
pub open spec fn dedup_usage(rows: Seq<UsageRow>) -> Seq<UsageRow> {
    keep(rows, |r: UsageRow| first_of_key(rows, r))
}

/// The largest id, 0 for none.
pub open spec fn max_id<T>(s: Seq<T>, id: spec_fn(T) -> i64) -> i64
    decreases s.len(),
{
    if s.len() == 0 {
        0
    } else {
        let m = max_id(s.drop_last(), id);
        if id(s.last()) > m {
            id(s.last())
        } else {
            m
        }
    }
}

pub open spec fn max2(a: i64, b: i64) -> i64 {
    if b > a {
        b
    } else {
        a
    }
}

fn max2_exec(a: i64, b: i64) -> (r: i64)
    ensures
        r == max2(a, b),
{
    if b > a {
        b
    } else {
        a
    }
}

/// Ids at most `a` are at most any `b >= a`.
proof fn lemma_ids_raise<T>(s: Seq<T>, id: spec_fn(T) -> i64, a: i64, b: i64)
    requires
        ids_at_most(s, id, a),
        a <= b,
    ensures
        ids_at_most(s, id, b),
{
}

pub proof fn lemma_max_id<T>(s: Seq<T>, id: spec_fn(T) -> i64)
    ensures
        max_id(s, id) >= 0,
        ids_at_most(s, id, max_id(s, id)),
    decreases s.len(),
{
    if s.len() > 0 {
        lemma_max_id(s.drop_last(), id);
        assert forall|i: int| 0 <= i < s.len() implies #[trigger] id(s[i]) <= max_id(s, id) by {
            if i < s.len() - 1 {
                assert(s[i] == s.drop_last()[i]);
            }
        }
    }
}

fn max_id_usage(rows: &Vec<UsageRow>) -> (r: i64)
    ensures
        r == max_id(rows@, |x: UsageRow| x.id),
{
    let mut m: i64 = 0;
    let mut k: usize = 0;
    while k < rows.len()
        invariant
            k <= rows@.len(),
            m == max_id(rows@.subrange(0, k as int), |x: UsageRow| x.id),
        decreases rows@.len() - k,
    {
        assert(rows@.subrange(0, k + 1).drop_last() =~= rows@.subrange(0, k as int));
        if rows[k].id > m {
            m = rows[k].id;
        }
        k = k + 1;
    }
    assert(rows@.subrange(0, k as int) =~= rows@);
    m
}

fn dedup_usage_rows(rows: &Vec<UsageRow>) -> (r: Vec<UsageRow>)
    ensures
        r@ == dedup_usage(rows@),
{
    let mut out: Vec<UsageRow> = Vec::new();
    let mut i: usize = 0;
    while i < rows.len()
        invariant
            i <= rows@.len(),
            out@ == keep(rows@.subrange(0, i as int), |r: UsageRow| first_of_key(rows@, r)),
        decreases rows@.len() - i,
    {
        let mut first = true;
        let mut j: usize = 0;
        while j < rows.len()
            invariant
                i < rows@.len(),
                j <= rows@.len(),
                first == (forall|q: int| 0 <= q < j && usage_key_eq(#[trigger] rows@[q], rows@[i as int]) ==> rows@[q].id >= rows@[i as int].id),
            decreases rows@.len() - j,
        {
            let a = &rows[j];
            let b = &rows[i];
            if a.ts == b.ts && a.app_id == b.app_id && a.interface_id == b.interface_id
                && crate::text::same_text(&a.source, &b.source) && a.id < b.id {
                first = false;
            }
            j = j + 1;
        }
        proof {
            lemma_keep_step(rows@, |r: UsageRow| first_of_key(rows@, r), i as int);
        }
        if first {
            out.push(rows[i].copy());
        }
        i = i + 1;
    }
    assert(rows@.subrange(0, i as int) =~= rows@);
    out
}


fn max_id_interfaces(rows: &Vec<InterfaceRow>) -> (r: i64)
    ensures
        r == max_id(rows@, |x: InterfaceRow| x.id),
{
    let mut m: i64 = 0;
    let mut k: usize = 0;
    while k < rows.len()
        invariant
            k <= rows@.len(),
            m == max_id(rows@.subrange(0, k as int), |x: InterfaceRow| x.id),
        decreases rows@.len() - k,
    {
        assert(rows@.subrange(0, k + 1).drop_last() =~= rows@.subrange(0, k as int));
        if rows[k].id > m {
            m = rows[k].id;
        }
        k = k + 1;
    }
    assert(rows@.subrange(0, k as int) =~= rows@);
    m
}

fn max_id_apps(rows: &Vec<AppRow>) -> (r: i64)
    ensures
        r == max_id(rows@, |x: AppRow| x.id),
{
    let mut m: i64 = 0;
    let mut k: usize = 0;
    while k < rows.len()
        invariant
            k <= rows@.len(),
            m == max_id(rows@.subrange(0, k as int), |x: AppRow| x.id),
        decreases rows@.len() - k,
    {
        assert(rows@.subrange(0, k + 1).drop_last() =~= rows@.subrange(0, k as int));
        if rows[k].id > m {
            m = rows[k].id;
        }
        k = k + 1;
    }
    assert(rows@.subrange(0, k as int) =~= rows@);
    m
}

fn max_id_afk(rows: &Vec<AfkRow>) -> (r: i64)
    ensures
        r == max_id(rows@, |x: AfkRow| x.id),
{
    let mut m: i64 = 0;
    let mut k: usize = 0;
    while k < rows.len()
        invariant
            k <= rows@.len(),
            m == max_id(rows@.subrange(0, k as int), |x: AfkRow| x.id),
        decreases rows@.len() - k,
    {
        assert(rows@.subrange(0, k + 1).drop_last() =~= rows@.subrange(0, k as int));
        if rows[k].id > m {
            m = rows[k].id;
        }
        k = k + 1;
    }
    assert(rows@.subrange(0, k as int) =~= rows@);
    m
}

fn max_id_caps(rows: &Vec<CapRow>) -> (r: i64)
    ensures
        r == max_id(rows@, |x: CapRow| x.id),
{
    let mut m: i64 = 0;
    let mut k: usize = 0;
    while k < rows.len()
        invariant
            k <= rows@.len(),
            m == max_id(rows@.subrange(0, k as int), |x: CapRow| x.id),
        decreases rows@.len() - k,
    {
        assert(rows@.subrange(0, k + 1).drop_last() =~= rows@.subrange(0, k as int));
        if rows[k].id > m {
            m = rows[k].id;
        }
        k = k + 1;
    }
    assert(rows@.subrange(0, k as int) =~= rows@);
    m
}

fn max_id_events(rows: &Vec<CapEventRow>) -> (r: i64)
    ensures
        r == max_id(rows@, |x: CapEventRow| x.id),
{
    let mut m: i64 = 0;
    let mut k: usize = 0;
    while k < rows.len()
        invariant
            k <= rows@.len(),
            m == max_id(rows@.subrange(0, k as int), |x: CapEventRow| x.id),
        decreases rows@.len() - k,
    {
        assert(rows@.subrange(0, k + 1).drop_last() =~= rows@.subrange(0, k as int));
        if rows[k].id > m {
            m = rows[k].id;
        }
        k = k + 1;
    }
    assert(rows@.subrange(0, k as int) =~= rows@);
    m
}

impl Db {
    /// Opens a store over the given tables: rows that repeat a usage key are dropped (the
    /// one with the smallest id stays), the default settings are applied, and each table's
    /// next id follows the largest id it holds.
    pub fn initialize(tables: DbTables) -> (db: Db)
        ensures
            db.wf(),
            (db.setting_map(), db.stamp_map()) == self::settings::defaults_applied(
                (settings_map(tables.settings@), stamps_map(tables.settings@)),
            ),
            db.last_interface() == max_id(tables.interfaces@, |r: InterfaceRow| r.id),
            db.last_app() == max_id(tables.apps@, |r: AppRow| r.id),
            db.last_usage() == max_id(dedup_usage(tables.usage_records@), |r: UsageRow| r.id),
            db.last_afk() == max_id(tables.afk_windows@, |r: AfkRow| r.id),
            db.last_cap() == max_id(tables.caps@, |r: CapRow| r.id),
            db.last_event() == max_id(tables.cap_events@, |r: CapEventRow| r.id),
            db.tables().usage_records@ == dedup_usage(tables.usage_records@),
            db.tables().interfaces@ == tables.interfaces@,
            db.tables().apps@ == tables.apps@,
            db.tables().afk_windows@ == tables.afk_windows@,
            db.tables().caps@ == tables.caps@,
            db.tables().cap_events@ == tables.cap_events@,
    {
        let none = IdFloors { interfaces: 0, apps: 0, usage_records: 0, afk_windows: 0, caps: 0, cap_events: 0 };
        proof {
            lemma_max_id(dedup_usage(tables.usage_records@), |x: UsageRow| x.id);
            lemma_max_id(tables.interfaces@, |x: InterfaceRow| x.id);
            lemma_max_id(tables.apps@, |x: AppRow| x.id);
            lemma_max_id(tables.afk_windows@, |x: AfkRow| x.id);
            lemma_max_id(tables.caps@, |x: CapRow| x.id);
            lemma_max_id(tables.cap_events@, |x: CapEventRow| x.id);
        }
        Db::open(tables, &none)
    }

    /// Opens a store over the given tables, as `initialize` does, where each table's next id
    /// also follows the largest id the table ever handed out (`floors`), so that the ids of
    /// deleted rows are not handed out again.
    pub fn open(tables: DbTables, floors: &IdFloors) -> (db: Db)
        ensures
            db.wf(),
            (db.setting_map(), db.stamp_map()) == self::settings::defaults_applied(
                (settings_map(tables.settings@), stamps_map(tables.settings@)),
            ),
            db.last_interface() == max2(max_id(tables.interfaces@, |r: InterfaceRow| r.id), floors.interfaces),
            db.last_app() == max2(max_id(tables.apps@, |r: AppRow| r.id), floors.apps),
            db.last_usage() == max2(max_id(dedup_usage(tables.usage_records@), |r: UsageRow| r.id), floors.usage_records),
            db.last_afk() == max2(max_id(tables.afk_windows@, |r: AfkRow| r.id), floors.afk_windows),
            db.last_cap() == max2(max_id(tables.caps@, |r: CapRow| r.id), floors.caps),
            db.last_event() == max2(max_id(tables.cap_events@, |r: CapEventRow| r.id), floors.cap_events),
            db.tables().usage_records@ == dedup_usage(tables.usage_records@),
            db.tables().interfaces@ == tables.interfaces@,
            db.tables().apps@ == tables.apps@,
            db.tables().afk_windows@ == tables.afk_windows@,
            db.tables().caps@ == tables.caps@,
            db.tables().cap_events@ == tables.cap_events@,
    {
        let usage = dedup_usage_rows(&tables.usage_records);
        let last_usage_id = max2_exec(max_id_usage(&usage), floors.usage_records);
        let last_interface_id = max2_exec(max_id_interfaces(&tables.interfaces), floors.interfaces);
        let last_app_id = max2_exec(max_id_apps(&tables.apps), floors.apps);
        let last_afk_id = max2_exec(max_id_afk(&tables.afk_windows), floors.afk_windows);
        let last_cap_id = max2_exec(max_id_caps(&tables.caps), floors.caps);
        let last_event_id = max2_exec(max_id_events(&tables.cap_events), floors.cap_events);
        proof {
            lemma_max_id(usage@, |x: UsageRow| x.id);
            lemma_max_id(tables.interfaces@, |x: InterfaceRow| x.id);
            lemma_max_id(tables.apps@, |x: AppRow| x.id);
            lemma_max_id(tables.afk_windows@, |x: AfkRow| x.id);
            lemma_max_id(tables.caps@, |x: CapRow| x.id);
            lemma_max_id(tables.cap_events@, |x: CapEventRow| x.id);
            lemma_ids_raise(usage@, |x: UsageRow| x.id, max_id(usage@, |x: UsageRow| x.id), last_usage_id);
            lemma_ids_raise(tables.interfaces@, |x: InterfaceRow| x.id, max_id(tables.interfaces@, |x: InterfaceRow| x.id), last_interface_id);
            lemma_ids_raise(tables.apps@, |x: AppRow| x.id, max_id(tables.apps@, |x: AppRow| x.id), last_app_id);
            lemma_ids_raise(tables.afk_windows@, |x: AfkRow| x.id, max_id(tables.afk_windows@, |x: AfkRow| x.id), last_afk_id);
            lemma_ids_raise(tables.caps@, |x: CapRow| x.id, max_id(tables.caps@, |x: CapRow| x.id), last_cap_id);
            lemma_ids_raise(tables.cap_events@, |x: CapEventRow| x.id, max_id(tables.cap_events@, |x: CapEventRow| x.id), last_event_id);
        }
        let DbTables { settings, interfaces, apps, usage_records: _, afk_windows, caps, cap_events } =
            tables;
        let mut db = Db {
            t: DbTables { settings, interfaces, apps, usage_records: usage, afk_windows, caps, cap_events },
            last_interface_id,
            last_app_id,
            last_usage_id,
            last_afk_id,
            last_cap_id,
            last_event_id,
        };
        db.ensure_default_settings();
        db
    }

    /// The largest id each table has handed out so far.
    pub fn id_floors(&self) -> (r: IdFloors)
        ensures
            r.interfaces == self.last_interface(),
            r.apps == self.last_app(),
            r.usage_records == self.last_usage(),
            r.afk_windows == self.last_afk(),
            r.caps == self.last_cap(),
            r.cap_events == self.last_event(),
    {
        IdFloors {
            interfaces: self.last_interface_id,
            apps: self.last_app_id,
            usage_records: self.last_usage_id,
            afk_windows: self.last_afk_id,
            caps: self.last_cap_id,
            cap_events: self.last_event_id,
        }
    }

    /// A new, empty store with the default settings.
    pub fn new() -> (db: Db)
        ensures
            db.wf(),
            (db.setting_map(), db.stamp_map()) == self::settings::defaults_applied(
                (Map::<Seq<char>, Seq<char>>::empty(), Map::<Seq<char>, i64>::empty()),
            ),
            db.last_interface() == 0 && db.last_app() == 0 && db.last_usage() == 0,
            db.last_afk() == 0 && db.last_cap() == 0 && db.last_event() == 0,
            db.tables().usage_records@ == Seq::<UsageRow>::empty(),
            db.tables().interfaces@ == Seq::<InterfaceRow>::empty(),
            db.tables().apps@ == Seq::<AppRow>::empty(),
            db.tables().afk_windows@ == Seq::<AfkRow>::empty(),
            db.tables().caps@ == Seq::<CapRow>::empty(),
            db.tables().cap_events@ == Seq::<CapEventRow>::empty(),
    {
        let db = Db::initialize(
            DbTables {
                settings: Vec::new(),
                interfaces: Vec::new(),
                apps: Vec::new(),
                usage_records: Vec::new(),
                afk_windows: Vec::new(),
                caps: Vec::new(),
                cap_events: Vec::new(),
            },
        );
        assert(dedup_usage(Seq::<UsageRow>::empty()) =~= Seq::<UsageRow>::empty());
        assert(settings_map(Seq::<SettingRow>::empty()) =~= Map::<Seq<char>, Seq<char>>::empty());
        assert(stamps_map(Seq::<SettingRow>::empty()) =~= Map::<Seq<char>, i64>::empty());
        db
    }
}


/// An interface row as values.
pub struct InterfaceV {
    pub id: i64,
    pub guid: Seq<char>,
    pub name: Seq<char>,
    pub kind: Seq<char>,
    pub is_metered: bool,
    pub first_seen: i64,
    pub last_seen: i64,
}

/// An app row as values.
pub struct AppV {
    pub id: i64,
    pub process_name: Seq<char>,
    pub display_name: Option<Seq<char>>,
    pub first_seen: i64,
    pub last_seen: i64,
}

/// A usage row as values.
pub struct UsageV {
    pub id: i64,
    pub ts: i64,
    pub app_id: i64,
    pub interface_id: i64,
    pub bytes_sent: i64,
    pub bytes_recv: i64,
    pub interval_secs: i64,
    pub source: Seq<char>,
}

/// An AFK window row as values.
pub struct AfkV {
    pub id: i64,
    pub start_ts: i64,
    pub end_ts: i64,
    pub source: Seq<char>,
}

/// A cap definition row as values.
pub struct CapV {
    pub id: i64,
    pub scope: Seq<char>,
    pub interface_guid: Option<Seq<char>>,
    pub monthly_cap_bytes: i64,
    pub is_active: bool,
    pub created_at: i64,
    pub updated_at: i64,
}

/// A cap alert event row as values.
pub struct EventV {
    pub id: i64,
    pub cap_definition_id: i64,
    pub scope: Seq<char>,
    pub interface_guid: Option<Seq<char>>,
    pub window_kind: Seq<char>,
    pub window_start_ts: i64,
    pub window_end_ts: i64,
    pub threshold_kind: Seq<char>,
    pub threshold_value: i64,
    pub usage_bytes: i64,
    pub cap_bytes: i64,
    pub fired_at: i64,
    pub delivery_state: Seq<char>,
    pub delivered_at: Option<i64>,
}

pub open spec fn opt_view(o: Option<String>) -> Option<Seq<char>> {
    match o {
        Some(s) => Some(s@),
        None => None,
    }
}

impl View for InterfaceRow {
    type V = InterfaceV;

    open spec fn view(&self) -> InterfaceV {
        InterfaceV {
            id: self.id,
            guid: self.guid@,
            name: self.name@,
            kind: self.kind@,
            is_metered: self.is_metered,
            first_seen: self.first_seen,
            last_seen: self.last_seen,
        }
    }
}

impl View for AppRow {
    type V = AppV;

    open spec fn view(&self) -> AppV {
        AppV {
            id: self.id,
            process_name: self.process_name@,
            display_name: opt_view(self.display_name),
            first_seen: self.first_seen,
            last_seen: self.last_seen,
        }
    }
}

impl View for UsageRow {
    type V = UsageV;

    open spec fn view(&self) -> UsageV {
        UsageV {
            id: self.id,
            ts: self.ts,
            app_id: self.app_id,
            interface_id: self.interface_id,
            bytes_sent: self.bytes_sent,
            bytes_recv: self.bytes_recv,
            interval_secs: self.interval_secs,
            source: self.source@,
        }
    }
}

impl View for AfkRow {
    type V = AfkV;

    open spec fn view(&self) -> AfkV {
        AfkV { id: self.id, start_ts: self.start_ts, end_ts: self.end_ts, source: self.source@ }
    }
}

impl View for CapRow {
    type V = CapV;

    open spec fn view(&self) -> CapV {
        CapV {
            id: self.id,
            scope: self.scope@,
            interface_guid: opt_view(self.interface_guid),
            monthly_cap_bytes: self.monthly_cap_bytes,
            is_active: self.is_active,
            created_at: self.created_at,
            updated_at: self.updated_at,
        }
    }
}

impl View for CapEventRow {
    type V = EventV;

    open spec fn view(&self) -> EventV {
        EventV {
            id: self.id,
            cap_definition_id: self.cap_definition_id,
            scope: self.scope@,
            interface_guid: opt_view(self.interface_guid),
            window_kind: self.window_kind@,
            window_start_ts: self.window_start_ts,
            window_end_ts: self.window_end_ts,
            threshold_kind: self.threshold_kind@,
            threshold_value: self.threshold_value,
            usage_bytes: self.usage_bytes,
            cap_bytes: self.cap_bytes,
            fired_at: self.fired_at,
            delivery_state: self.delivery_state@,
            delivered_at: self.delivered_at,
        }
    }
}

pub open spec fn view_seq<T: View>(s: Seq<T>) -> Seq<T::V> {
    s.map_values(|x: T| x@)
}

impl Db {
    /// The `interfaces` table.
    pub open spec fn interfaces(&self) -> Seq<InterfaceV> {
        view_seq(self.tables().interfaces@)
    }

    /// The `apps` table.
    pub open spec fn apps(&self) -> Seq<AppV> {
        view_seq(self.tables().apps@)
    }

    /// The `usage_records` table.
    pub open spec fn usage(&self) -> Seq<UsageV> {
        view_seq(self.tables().usage_records@)
    }

    /// The `afk_windows` table.
    pub open spec fn afk(&self) -> Seq<AfkV> {
        view_seq(self.tables().afk_windows@)
    }

    /// The `monthly_cap_definitions` table.
    pub open spec fn caps(&self) -> Seq<CapV> {
        view_seq(self.tables().caps@)
    }

    /// The `cap_alert_events` table.
    pub open spec fn events(&self) -> Seq<EventV> {
        view_seq(self.tables().cap_events@)
    }
}


impl Db {
    pub open spec fn same_settings(&self, other: &Db) -> bool {
        self.tables().settings@ == other.tables().settings@
    }

    pub open spec fn same_interfaces(&self, other: &Db) -> bool {
        self.tables().interfaces@ == other.tables().interfaces@ && self.last_interface()
            == other.last_interface()
    }

    pub open spec fn same_apps(&self, other: &Db) -> bool {
        self.tables().apps@ == other.tables().apps@ && self.last_app() == other.last_app()
    }

    pub open spec fn same_usage(&self, other: &Db) -> bool {
        self.tables().usage_records@ == other.tables().usage_records@ && self.last_usage()
            == other.last_usage()
    }

    pub open spec fn same_afk(&self, other: &Db) -> bool {
        self.tables().afk_windows@ == other.tables().afk_windows@ && self.last_afk()
            == other.last_afk()
    }

    pub open spec fn same_caps(&self, other: &Db) -> bool {
        self.tables().caps@ == other.tables().caps@ && self.last_cap() == other.last_cap()
    }

    pub open spec fn same_events(&self, other: &Db) -> bool {
        self.tables().cap_events@ == other.tables().cap_events@ && self.last_event()
            == other.last_event()
    }
}

impl InterfaceRow {
    pub fn copy(&self) -> (r: InterfaceRow)
        ensures
            r == *self,
    {
        InterfaceRow {
            id: self.id,
            guid: self.guid.clone(),
            name: self.name.clone(),
            kind: self.kind.clone(),
            is_metered: self.is_metered,
            first_seen: self.first_seen,
            last_seen: self.last_seen,
        }
    }
}

impl AppRow {
    pub fn copy(&self) -> (r: AppRow)
        ensures
            r == *self,
    {
        AppRow {
            id: self.id,
            process_name: self.process_name.clone(),
            display_name: match &self.display_name {
                Some(d) => Some(d.clone()),
                None => None,
            },
            first_seen: self.first_seen,
            last_seen: self.last_seen,
        }
    }
}

pub fn copy_interfaces(v: &Vec<InterfaceRow>) -> (r: Vec<InterfaceRow>)
    ensures
        r@ == v@,
{
    let mut r: Vec<InterfaceRow> = Vec::new();
    let mut k: usize = 0;
    while k < v.len()
        invariant
            k <= v@.len(),
            r@ == v@.subrange(0, k as int),
        decreases v@.len() - k,
    {
        r.push(v[k].copy());
        k = k + 1;
        assert(r@ =~= v@.subrange(0, k as int));
    }
    assert(v@.subrange(0, k as int) =~= v@);
    r
}

pub fn copy_apps(v: &Vec<AppRow>) -> (r: Vec<AppRow>)
    ensures
        r@ == v@,
{
    let mut r: Vec<AppRow> = Vec::new();
    let mut k: usize = 0;
    while k < v.len()
        invariant
            k <= v@.len(),
            r@ == v@.subrange(0, k as int),
        decreases v@.len() - k,
    {
        r.push(v[k].copy());
        k = k + 1;
        assert(r@ =~= v@.subrange(0, k as int));
    }
    assert(v@.subrange(0, k as int) =~= v@);
    r
}

pub fn copy_usage(v: &Vec<UsageRow>) -> (r: Vec<UsageRow>)
    ensures
        r@ == v@,
{
    let mut r: Vec<UsageRow> = Vec::new();
    let mut k: usize = 0;
    while k < v.len()
        invariant
            k <= v@.len(),
            r@ == v@.subrange(0, k as int),
        decreases v@.len() - k,
    {
        r.push(v[k].copy());
        k = k + 1;
        assert(r@ =~= v@.subrange(0, k as int));
    }
    assert(v@.subrange(0, k as int) =~= v@);
    r
}


pub proof fn lemma_ids_update<T>(s: Seq<T>, id: spec_fn(T) -> i64, last: i64, i: int, x: T)
    requires
        ids_at_most(s, id, last),
        0 <= i < s.len(),
        id(x) <= last,
    ensures
        ids_at_most(s.update(i, x), id, last),
{
    assert forall|j: int| 0 <= j < s.len() implies #[trigger] id(s.update(i, x)[j]) <= last by {
        if j != i {
            assert(s.update(i, x)[j] == s[j]);
        }
    }
}

pub proof fn lemma_ids_push<T>(s: Seq<T>, id: spec_fn(T) -> i64, last: i64, last2: i64, x: T)
    requires
        ids_at_most(s, id, last),
        last <= last2,
        id(x) <= last2,
    ensures
        ids_at_most(s.push(x), id, last2),
{
    assert forall|j: int| 0 <= j < s.len() + 1 implies #[trigger] id(s.push(x)[j]) <= last2 by {
        if j < s.len() {
            assert(s.push(x)[j] == s[j]);
        }
    }
}

pub proof fn lemma_ids_keep<T>(s: Seq<T>, id: spec_fn(T) -> i64, last: i64, p: spec_fn(T) -> bool)
    requires
        ids_at_most(s, id, last),
    ensures
        ids_at_most(crate::seqs::keep(s, p), id, last),
{
    crate::seqs::lemma_keep_members(s, p);
    assert forall|j: int| 0 <= j < crate::seqs::keep(s, p).len() implies #[trigger] id(crate::seqs::keep(s, p)[j]) <= last by {
        let k = choose|k: int| 0 <= k < s.len() && s[k] == crate::seqs::keep(s, p)[j];
        assert(id(s[k]) <= last);
    }
}

} // verus!
