use vstd::prelude::*;
use super::{Db, DbError, InterfaceRow, AppRow, UsageRow, InterfaceV, AppV, UsageV, view_seq, copy_interfaces, copy_apps, copy_usage};
use crate::seqs::{first_index, lemma_first_found, lemma_first_none, lemma_first_index_props};
use super::settings::or_else;
use crate::poller::InterfaceSnapshot;
use crate::delta::InterfaceDelta;
use crate::contracts::{AttributedUsageSample, IngestAttributedUsageRequest, IngestAttributedUsageResponse};
use crate::text::{strip_seq, trim_seq, lower_seq, ends_with_seq, last_segment_seq, strip_vec, trim_vec, chars_of, lower_vec, ends_with_vec, last_segment_vec, string_of, str_is};

verus! {

/// The stored interface type for a system interface type number.
pub open spec fn kind_seq(interface_type: u32) -> Seq<char> {
    if interface_type == 6 {
        "ethernet"@
    } else if interface_type == 71 {
        "wifi"@
    } else if interface_type == 24 {
        "loopback"@
    } else {
        "other"@
    }
}

pub fn interface_kind(interface_type: u32) -> (r: &'static str)
    ensures
        r@ == kind_seq(interface_type),
{
    if interface_type == 6 {
        "ethernet"
    } else if interface_type == 71 {
        "wifi"
    } else if interface_type == 24 {
        "loopback"
    } else {
        "other"
    }
}

pub open spec fn guid_is(g: Seq<char>) -> spec_fn(InterfaceV) -> bool {
    |r: InterfaceV| r.guid == g
}

pub open spec fn process_is(p: Seq<char>) -> spec_fn(AppV) -> bool {
    |r: AppV| r.process_name == p
}

/// Recording an interface by guid: the interface with that guid is refreshed (name, kind,
/// metered flag when known, last seen), or one is added with the next id. Gives the new
/// rows, the last id handed out, and the id of the interface; `None` when a new row is
/// needed and no id is left.
pub open spec fn interface_upsert(
    rows: Seq<InterfaceV>,
    last: i64,
    guid: Seq<char>,
    name: Seq<char>,
    interface_type: u32,
    is_metered: Option<bool>,
    ts: i64,
) -> Option<(Seq<InterfaceV>, i64, i64)> {
    let i = first_index(rows, guid_is(guid));
    if i >= 0 {
        let r = rows[i];
        Some(
            (
                rows.update(
                    i,
                    InterfaceV {
                        name,
                        kind: kind_seq(interface_type),
                        is_metered: or_else(is_metered, r.is_metered),
                        last_seen: ts,
                        ..r
                    },
                ),
                last,
                r.id,
            ),
        )
    } else if last == i64::MAX {
        None
    } else {
        Some(
            (
                rows.push(
                    InterfaceV {
                        id: (last + 1) as i64,
                        guid,
                        name,
                        kind: kind_seq(interface_type),
                        is_metered: or_else(is_metered, false),
                        first_seen: ts,
                        last_seen: ts,
                    },
                ),
                (last + 1) as i64,
                (last + 1) as i64,
            ),
        )
    }
}

/// Recording an app by process name: the app with that name has its last-seen time
/// refreshed, or one is added with the next id. Gives the new rows, the last id handed out
/// and the id of the app; `None` when a new row is needed and no id is left.
pub open spec fn app_upsert(rows: Seq<AppV>, last: i64, process_name: Seq<char>, ts: i64) -> Option<
    (Seq<AppV>, i64, i64),
> {
    let i = first_index(rows, process_is(process_name));
    if i >= 0 {
        let r = rows[i];
        Some(
            (
                rows.update(i, AppV { display_name: Some(process_name), last_seen: ts, ..r }),
                last,
                r.id,
            ),
        )
    } else if last == i64::MAX {
        None
    } else {
        Some(
            (
                rows.push(
                    AppV {
                        id: (last + 1) as i64,
                        process_name,
                        display_name: Some(process_name),
                        first_seen: ts,
                        last_seen: ts,
                    },
                ),
                (last + 1) as i64,
                (last + 1) as i64,
            ),
        )
    }
}

impl Db {
    fn find_interface(&self, guid: &str) -> (r: Option<usize>)
        ensures
            match r {
                Some(i) => i == first_index(self.interfaces(), guid_is(guid@)),
                None => first_index(self.interfaces(), guid_is(guid@)) == -1,
            },
    {
        let g = guid.to_string();
        let mut k: usize = 0;
        while k < self.t.interfaces.len()
            invariant
                k <= self.t.interfaces@.len(),
                g@ == guid@,
                forall|j: int| 0 <= j < k ==> !(#[trigger] guid_is(guid@)(self.interfaces()[j])),
            decreases self.t.interfaces@.len() - k,
        {
            if crate::text::same_text(&self.t.interfaces[k].guid, &g) {
                proof {
                    lemma_first_found(self.interfaces(), guid_is(guid@), k as int);
                }
                return Some(k);
            }
            k = k + 1;
        }
        proof {
            lemma_first_none(self.interfaces(), guid_is(guid@));
        }
        None
    }

    fn find_app(&self, process_name: &str) -> (r: Option<usize>)
        ensures
            match r {
                Some(i) => i == first_index(self.apps(), process_is(process_name@)),
                None => first_index(self.apps(), process_is(process_name@)) == -1,
            },
    {
        let p = process_name.to_string();
        let mut k: usize = 0;
        while k < self.t.apps.len()
            invariant
                k <= self.t.apps@.len(),
                p@ == process_name@,
                forall|j: int| 0 <= j < k ==> !(#[trigger] process_is(process_name@)(self.apps()[j])),
            decreases self.t.apps@.len() - k,
        {
            if crate::text::same_text(&self.t.apps[k].process_name, &p) {
                proof {
                    lemma_first_found(self.apps(), process_is(process_name@), k as int);
                }
                return Some(k);
            }
            k = k + 1;
        }
        proof {
            lemma_first_none(self.apps(), process_is(process_name@));
        }
        None
    }

    /// Records an interface, or refreshes the one with this guid; gives back its id.
    pub fn upsert_interface(
        &mut self,
        guid: &str,
        name: &str,
        interface_type: u32,
        is_metered: Option<bool>,
        ts: i64,
    ) -> (r: Result<i64, DbError>)
        requires
            old(self).wf(),
        ensures
            final(self).wf(),
            final(self).same_settings(old(self)),
            final(self).same_apps(old(self)),
            final(self).same_usage(old(self)),
            final(self).same_afk(old(self)),
            final(self).same_caps(old(self)),
            final(self).same_events(old(self)),
            match interface_upsert(
                old(self).interfaces(),
                old(self).last_interface(),
                guid@,
                name@,
                interface_type,
                is_metered,
                ts,
            ) {
                Some((rows, last, id)) => r == Ok::<i64, DbError>(id) && final(self).interfaces()
                    == rows && final(self).last_interface() == last,
                None => r == Err::<i64, DbError>(DbError::IdSpaceExhausted) && final(self).same_interfaces(old(self)),
            },
    {
        let kind = interface_kind(interface_type);
        let ghost rows0 = self.interfaces();
        let ghost raw0 = self.t.interfaces@;
        match self.find_interface(guid) {
            Some(i) => {
                proof {
                    lemma_first_index_props(rows0, guid_is(guid@));
                }
                let id = self.t.interfaces[i].id;
                let metered = match is_metered {
                    Some(b) => b,
                    None => self.t.interfaces[i].is_metered,
                };
                let first_seen = self.t.interfaces[i].first_seen;
                let row = InterfaceRow {
                    id,
                    guid: self.t.interfaces[i].guid.clone(),
                    name: name.to_string(),
                    kind: kind.to_string(),
                    is_metered: metered,
                    first_seen,
                    last_seen: ts,
                };
                self.t.interfaces.set(i, row);
                proof {
                    assert((|r: InterfaceRow| r.id)(raw0[i as int]) <= self.last_interface_id);
                    super::lemma_ids_update(raw0, |r: InterfaceRow| r.id, self.last_interface_id, i as int, row);
                    lemma_first_index_props(rows0, guid_is(guid@));
                    assert(self.interfaces() =~= rows0.update(i as int, row@));
                }
                Ok(id)
            },
            None => {
                if self.last_interface_id == i64::MAX {
                    return Err(DbError::IdSpaceExhausted);
                }
                let id = self.last_interface_id + 1;
                let row = InterfaceRow {
                    id,
                    guid: guid.to_string(),
                    name: name.to_string(),
                    kind: kind.to_string(),
                    is_metered: match is_metered {
                        Some(b) => b,
                        None => false,
                    },
                    first_seen: ts,
                    last_seen: ts,
                };
                proof {
                    super::lemma_ids_push(raw0, |r: InterfaceRow| r.id, self.last_interface_id, id, row);
                }
                self.t.interfaces.push(row);
                self.last_interface_id = id;
                assert(self.interfaces() =~= rows0.push(row@));
                Ok(id)
            },
        }
    }

    /// Records an app, or refreshes the one with this process name; gives back its id.
    pub fn upsert_app(&mut self, process_name: &str, ts: i64) -> (r: Result<i64, DbError>)
        requires
            old(self).wf(),
        ensures
            final(self).wf(),
            final(self).same_settings(old(self)),
            final(self).same_interfaces(old(self)),
            final(self).same_usage(old(self)),
            final(self).same_afk(old(self)),
            final(self).same_caps(old(self)),
            final(self).same_events(old(self)),
            match app_upsert(old(self).apps(), old(self).last_app(), process_name@, ts) {
                Some((rows, last, id)) => r == Ok::<i64, DbError>(id) && final(self).apps() == rows
                    && final(self).last_app() == last,
                None => r == Err::<i64, DbError>(DbError::IdSpaceExhausted) && final(self).same_apps(old(self)),
            },
    {
        let ghost rows0 = self.apps();
        let ghost raw0 = self.t.apps@;
        match self.find_app(process_name) {
            Some(i) => {
                proof {
                    lemma_first_index_props(rows0, process_is(process_name@));
                }
                let id = self.t.apps[i].id;
                let row = AppRow {
                    id,
                    process_name: self.t.apps[i].process_name.clone(),
                    display_name: Some(process_name.to_string()),
                    first_seen: self.t.apps[i].first_seen,
                    last_seen: ts,
                };
                self.t.apps.set(i, row);
                proof {
                    assert((|r: AppRow| r.id)(raw0[i as int]) <= self.last_app_id);
                    super::lemma_ids_update(raw0, |r: AppRow| r.id, self.last_app_id, i as int, row);
                    lemma_first_index_props(rows0, process_is(process_name@));
                    assert(self.apps() =~= rows0.update(i as int, row@));
                }
                Ok(id)
            },
            None => {
                if self.last_app_id == i64::MAX {
                    return Err(DbError::IdSpaceExhausted);
                }
                let id = self.last_app_id + 1;
                let row = AppRow {
                    id,
                    process_name: process_name.to_string(),
                    display_name: Some(process_name.to_string()),
                    first_seen: ts,
                    last_seen: ts,
                };
                proof {
                    super::lemma_ids_push(raw0, |r: AppRow| r.id, self.last_app_id, id, row);
                }
                self.t.apps.push(row);
                self.last_app_id = id;
                assert(self.apps() =~= rows0.push(row@));
                Ok(id)
            },
        }
    }
}

} // verus!

verus! {

/// The tables that usage ingestion touches, with the last ids handed out in each.
pub struct IngestState {
    pub ifaces: Seq<InterfaceV>,
    pub ilast: i64,
    pub apps: Seq<AppV>,
    pub alast: i64,
    pub usage: Seq<UsageV>,
    pub ulast: i64,
}

pub open spec fn usage_key_is(ts: i64, app_id: i64, interface_id: i64, source: Seq<char>) -> spec_fn(
    UsageV,
) -> bool {
    |r: UsageV| r.ts == ts && r.app_id == app_id && r.interface_id == interface_id && r.source
        == source
}

/// Adding a usage row with the next id: refused when another row already has its key
/// `(ts, app_id, interface_id, source)`.
pub open spec fn usage_insert(
    rows: Seq<UsageV>,
    last: i64,
    ts: i64,
    app_id: i64,
    interface_id: i64,
    bytes_sent: i64,
    bytes_recv: i64,
    interval_secs: i64,
    source: Seq<char>,
) -> Result<(Seq<UsageV>, i64), DbError> {
    if first_index(rows, usage_key_is(ts, app_id, interface_id, source)) >= 0 {
        Err(DbError::UniqueConstraint)
    } else if last == i64::MAX {
        Err(DbError::IdSpaceExhausted)
    } else {
        Ok(
            (
                rows.push(
                    UsageV {
                        id: (last + 1) as i64,
                        ts,
                        app_id,
                        interface_id,
                        bytes_sent,
                        bytes_recv,
                        interval_secs,
                        source,
                    },
                ),
                (last + 1) as i64,
            ),
        )
    }
}

/// Storing a usage row by its key `(ts, app_id, interface_id, source)`: the row with that key
/// gets the new byte counts and interval, or a row with the next id is added.
pub open spec fn usage_upsert(
    rows: Seq<UsageV>,
    last: i64,
    ts: i64,
    app_id: i64,
    interface_id: i64,
    bytes_sent: i64,
    bytes_recv: i64,
    interval_secs: i64,
    source: Seq<char>,
) -> Result<(Seq<UsageV>, i64), DbError> {
    let i = first_index(rows, usage_key_is(ts, app_id, interface_id, source));
    if i >= 0 {
        Ok((rows.update(i, UsageV { bytes_sent, bytes_recv, interval_secs, ..rows[i] }), last))
    } else if last == i64::MAX {
        Err(DbError::IdSpaceExhausted)
    } else {
        Ok(
            (
                rows.push(
                    UsageV {
                        id: (last + 1) as i64,
                        ts,
                        app_id,
                        interface_id,
                        bytes_sent,
                        bytes_recv,
                        interval_secs,
                        source,
                    },
                ),
                (last + 1) as i64,
            ),
        )
    }
}

/// Refreshing every snapshot's interface in turn.
pub open spec fn sync_fold(
    rows: Seq<InterfaceV>,
    last: i64,
    snaps: Seq<InterfaceSnapshot>,
    ts: i64,
) -> Option<(Seq<InterfaceV>, i64)>
    decreases snaps.len(),
{
    if snaps.len() == 0 {
        Some((rows, last))
    } else {
        match sync_fold(rows, last, snaps.drop_last(), ts) {
            Some((r1, l1)) => {
                let s = snaps.last();
                match interface_upsert(
                    r1,
                    l1,
                    s.interface_guid@,
                    s.interface_name@,
                    s.interface_type,
                    s.is_metered,
                    ts,
                ) {
                    Some((r2, l2, _)) => Some((r2, l2)),
                    None => None,
                }
            },
            None => None,
        }
    }
}

/// Storing each delta in turn under the given app: its interface is refreshed and a usage
/// row of source `interface_poll` is inserted.
pub open spec fn deltas_fold(st: IngestState, app_id: i64, deltas: Seq<InterfaceDelta>) -> Result<
    IngestState,
    DbError,
>
    decreases deltas.len(),
{
    if deltas.len() == 0 {
        Ok(st)
    } else {
        match deltas_fold(st, app_id, deltas.drop_last()) {
            Err(e) => Err(e),
            Ok(s1) => {
                let d = deltas.last();
                match interface_upsert(
                    s1.ifaces,
                    s1.ilast,
                    d.interface_guid@,
                    d.interface_name@,
                    d.interface_type,
                    d.is_metered,
                    d.ts,
                ) {
                    None => Err(DbError::IdSpaceExhausted),
                    Some((r, l, iid)) => match usage_insert(
                        s1.usage,
                        s1.ulast,
                        d.ts,
                        app_id,
                        iid,
                        d.bytes_sent as i64,
                        d.bytes_recv as i64,
                        d.interval_secs as i64,
                        "interface_poll"@,
                    ) {
                        Err(e) => Err(e),
                        Ok((u, ul)) => Ok(IngestState { ifaces: r, ilast: l, usage: u, ulast: ul, ..s1 }),
                    },
                }
            },
        }
    }
}

impl Db {
    pub open spec fn ingest_state(&self) -> IngestState {
        IngestState {
            ifaces: self.interfaces(),
            ilast: self.last_interface(),
            apps: self.apps(),
            alast: self.last_app(),
            usage: self.usage(),
            ulast: self.last_usage(),
        }
    }

    fn find_usage(&self, ts: i64, app_id: i64, interface_id: i64, source: &str) -> (r: Option<usize>)
        ensures
            match r {
                Some(i) => i == first_index(self.usage(), usage_key_is(ts, app_id, interface_id, source@)),
                None => first_index(self.usage(), usage_key_is(ts, app_id, interface_id, source@)) == -1,
            },
    {
        let src = source.to_string();
        let mut k: usize = 0;
        while k < self.t.usage_records.len()
            invariant
                k <= self.t.usage_records@.len(),
                src@ == source@,
                forall|j: int|
                    0 <= j < k ==> !(#[trigger] usage_key_is(ts, app_id, interface_id, source@)(
                        self.usage()[j],
                    )),
            decreases self.t.usage_records@.len() - k,
        {
            let r = &self.t.usage_records[k];
            if r.ts == ts && r.app_id == app_id && r.interface_id == interface_id
                && crate::text::same_text(&r.source, &src) {
                proof {
                    lemma_first_found(self.usage(), usage_key_is(ts, app_id, interface_id, source@), k as int);
                }
                return Some(k);
            }
            k = k + 1;
        }
        proof {
            lemma_first_none(self.usage(), usage_key_is(ts, app_id, interface_id, source@));
        }
        None
    }

    fn push_usage(
        &mut self,
        ts: i64,
        app_id: i64,
        interface_id: i64,
        bytes_sent: i64,
        bytes_recv: i64,
        interval_secs: i64,
        source: &str,
    ) -> (r: Result<(), DbError>)
        requires
            old(self).wf(),
            old(self).last_usage() < i64::MAX,
        ensures
            final(self).wf(),
            r is Ok,
            final(self).usage() == old(self).usage().push(
                UsageV {
                    id: (old(self).last_usage() + 1) as i64,
                    ts,
                    app_id,
                    interface_id,
                    bytes_sent,
                    bytes_recv,
                    interval_secs,
                    source: source@,
                },
            ),
            final(self).last_usage() == old(self).last_usage() + 1,
            final(self).same_settings(old(self)),
            final(self).same_interfaces(old(self)),
            final(self).same_apps(old(self)),
            final(self).same_afk(old(self)),
            final(self).same_caps(old(self)),
            final(self).same_events(old(self)),
    {
        let ghost raw0 = self.t.usage_records@;
        let ghost rows0 = self.usage();
        let id = self.last_usage_id + 1;
        let row = UsageRow {
            id,
            ts,
            app_id,
            interface_id,
            bytes_sent,
            bytes_recv,
            interval_secs,
            source: source.to_string(),
        };
        proof {
            super::lemma_ids_push(raw0, |r: UsageRow| r.id, self.last_usage_id, id, row);
        }
        self.t.usage_records.push(row);
        self.last_usage_id = id;
        assert(self.usage() =~= rows0.push(row@));
        Ok(())
    }

    /// A plain insert of one usage row.
    fn insert_usage_row(
        &mut self,
        ts: i64,
        app_id: i64,
        interface_id: i64,
        bytes_sent: i64,
        bytes_recv: i64,
        interval_secs: i64,
        source: &str,
    ) -> (r: Result<(), DbError>)
        requires
            old(self).wf(),
        ensures
            final(self).wf(),
            final(self).same_settings(old(self)),
            final(self).same_interfaces(old(self)),
            final(self).same_apps(old(self)),
            final(self).same_afk(old(self)),
            final(self).same_caps(old(self)),
            final(self).same_events(old(self)),
            match usage_insert(
                old(self).usage(),
                old(self).last_usage(),
                ts,
                app_id,
                interface_id,
                bytes_sent,
                bytes_recv,
                interval_secs,
                source@,
            ) {
                Ok((u, l)) => r is Ok && final(self).usage() == u && final(self).last_usage() == l,
                Err(e) => r == Err::<(), DbError>(e) && final(self).same_usage(old(self)),
            },
    {
        if self.find_usage(ts, app_id, interface_id, source).is_some() {
            return Err(DbError::UniqueConstraint);
        }
        if self.last_usage_id == i64::MAX {
            return Err(DbError::IdSpaceExhausted);
        }
        self.push_usage(ts, app_id, interface_id, bytes_sent, bytes_recv, interval_secs, source)
    }

    /// Insert-or-update of one usage row by its key.
    fn upsert_usage_row(
        &mut self,
        ts: i64,
        app_id: i64,
        interface_id: i64,
        bytes_sent: i64,
        bytes_recv: i64,
        interval_secs: i64,
        source: &str,
    ) -> (r: Result<(), DbError>)
        requires
            old(self).wf(),
        ensures
            final(self).wf(),
            final(self).same_settings(old(self)),
            final(self).same_interfaces(old(self)),
            final(self).same_apps(old(self)),
            final(self).same_afk(old(self)),
            final(self).same_caps(old(self)),
            final(self).same_events(old(self)),
            match usage_upsert(
                old(self).usage(),
                old(self).last_usage(),
                ts,
                app_id,
                interface_id,
                bytes_sent,
                bytes_recv,
                interval_secs,
                source@,
            ) {
                Ok((u, l)) => r is Ok && final(self).usage() == u && final(self).last_usage() == l,
                Err(e) => r == Err::<(), DbError>(e) && final(self).same_usage(old(self)),
            },
    {
        let ghost raw0 = self.t.usage_records@;
        let ghost rows0 = self.usage();
        match self.find_usage(ts, app_id, interface_id, source) {
            Some(i) => {
                proof {
                    lemma_first_index_props(rows0, usage_key_is(ts, app_id, interface_id, source@));
                }
                let old_row = self.t.usage_records[i].copy();
                let row = UsageRow { bytes_sent, bytes_recv, interval_secs, ..old_row };
                proof {
                    assert((|r: UsageRow| r.id)(raw0[i as int]) <= self.last_usage_id);
                    super::lemma_ids_update(raw0, |r: UsageRow| r.id, self.last_usage_id, i as int, row);
                }
                self.t.usage_records.set(i, row);
                assert(self.usage() =~= rows0.update(i as int, row@));
                Ok(())
            },
            None => {
                if self.last_usage_id == i64::MAX {
                    return Err(DbError::IdSpaceExhausted);
                }
                self.push_usage(ts, app_id, interface_id, bytes_sent, bytes_recv, interval_secs, source)
            },
        }
    }

    /// Puts back the ingestion tables.
    fn restore_ingest(
        &mut self,
        ifaces: Vec<InterfaceRow>,
        ilast: i64,
        apps: Vec<AppRow>,
        alast: i64,
        usage: Vec<UsageRow>,
        ulast: i64,
    )
        requires
            super::ids_at_most(ifaces@, |r: InterfaceRow| r.id, ilast),
            super::ids_at_most(apps@, |r: AppRow| r.id, alast),
            super::ids_at_most(usage@, |r: UsageRow| r.id, ulast),
            0 <= ilast && 0 <= alast && 0 <= ulast,
            old(self).wf(),
        ensures
            final(self).wf(),
            final(self).tables().interfaces@ == ifaces@,
            final(self).tables().apps@ == apps@,
            final(self).tables().usage_records@ == usage@,
            final(self).last_interface() == ilast,
            final(self).last_app() == alast,
            final(self).last_usage() == ulast,
            final(self).same_settings(old(self)),
            final(self).same_afk(old(self)),
            final(self).same_caps(old(self)),
            final(self).same_events(old(self)),
    {
        self.t.interfaces = ifaces;
        self.t.apps = apps;
        self.t.usage_records = usage;
        self.last_interface_id = ilast;
        self.last_app_id = alast;
        self.last_usage_id = ulast;
    }

    /// Refreshes the interface of every snapshot; on a failure nothing is changed.
    pub fn sync_interfaces(&mut self, snapshots: &[InterfaceSnapshot], ts: i64) -> (r: Result<(), DbError>)
        requires
            old(self).wf(),
        ensures
            final(self).wf(),
            final(self).same_settings(old(self)),
            final(self).same_apps(old(self)),
            final(self).same_usage(old(self)),
            final(self).same_afk(old(self)),
            final(self).same_caps(old(self)),
            final(self).same_events(old(self)),
            match sync_fold(old(self).interfaces(), old(self).last_interface(), snapshots@, ts) {
                Some((rows, last)) => r is Ok && final(self).interfaces() == rows
                    && final(self).last_interface() == last,
                None => r == Err::<(), DbError>(DbError::IdSpaceExhausted) && final(self).same_interfaces(old(self)),
            },
    {
        if snapshots.len() == 0 {
            return Ok(());
        }
        let saved = copy_interfaces(&self.t.interfaces);
        let saved_last = self.last_interface_id;
        let ghost rows0 = self.interfaces();
        let ghost last0 = self.last_interface();
        let mut k: usize = 0;
        while k < snapshots.len()
            invariant
                k <= snapshots@.len(),
                self.wf(),
                saved@ == old(self).tables().interfaces@,
                saved_last == old(self).last_interface(),
                rows0 == old(self).interfaces(),
                last0 == old(self).last_interface(),
                old(self).wf(),
                self.same_settings(old(self)),
                self.same_apps(old(self)),
                self.same_usage(old(self)),
                self.same_afk(old(self)),
                self.same_caps(old(self)),
                self.same_events(old(self)),
                sync_fold(rows0, last0, snapshots@.subrange(0, k as int), ts) == Some(
                    (self.interfaces(), self.last_interface()),
                ),
            decreases snapshots@.len() - k,
        {
            let s = &snapshots[k];
            assert(snapshots@.subrange(0, k + 1).drop_last() =~= snapshots@.subrange(0, k as int));
            let r = self.upsert_interface(
                s.interface_guid.as_str(),
                s.interface_name.as_str(),
                s.interface_type,
                s.is_metered,
                ts,
            );
            if r.is_err() {
                proof {
                    lemma_sync_fold_fails(rows0, last0, snapshots@, ts, k as int + 1);
                    assert(snapshots@.subrange(0, snapshots@.len() as int) =~= snapshots@);
                }
                self.t.interfaces = saved;
                self.last_interface_id = saved_last;
                return Err(DbError::IdSpaceExhausted);
            }
            k = k + 1;
        }
        assert(snapshots@.subrange(0, k as int) =~= snapshots@);
        Ok(())
    }
}

/// Once a refresh fails, the whole pass fails.
proof fn lemma_sync_fold_fails(
    rows: Seq<InterfaceV>,
    last: i64,
    snaps: Seq<InterfaceSnapshot>,
    ts: i64,
    k: int,
)
    requires
        0 <= k <= snaps.len(),
        sync_fold(rows, last, snaps.subrange(0, k), ts) is None,
    ensures
        sync_fold(rows, last, snaps, ts) is None,
    decreases snaps.len() - k,
{
    if k < snaps.len() {
        assert(snaps.subrange(0, k + 1).drop_last() =~= snaps.subrange(0, k));
        lemma_sync_fold_fails(rows, last, snaps, ts, k + 1);
    } else {
        assert(snaps.subrange(0, k) =~= snaps);
    }
}

} // verus!

verus! {

impl Db {
    /// Stores polled interface deltas under the `System` app; on a failure nothing is changed.
    /// `now_ts` is the time at which the `System` app is refreshed.
    pub fn insert_interface_deltas(&mut self, deltas: &[InterfaceDelta], now_ts: i64) -> (r: Result<
        (),
        DbError,
    >)
        requires
            old(self).wf(),
        ensures
            final(self).wf(),
            final(self).same_settings(old(self)),
            final(self).same_afk(old(self)),
            final(self).same_caps(old(self)),
            final(self).same_events(old(self)),
            deltas@.len() == 0 ==> r is Ok && final(self).ingest_state() == old(self).ingest_state(),
            deltas@.len() > 0 ==> match app_upsert(old(self).apps(), old(self).last_app(), "System"@, now_ts) {
                None => r == Err::<(), DbError>(DbError::IdSpaceExhausted) && final(self).ingest_state()
                    == old(self).ingest_state(),
                Some((a, al, aid)) => match deltas_fold(
                    IngestState { apps: a, alast: al, ..old(self).ingest_state() },
                    aid,
                    deltas@,
                ) {
                    Ok(s) => r is Ok && final(self).ingest_state() == s,
                    Err(e) => r == Err::<(), DbError>(e) && final(self).ingest_state() == old(
                        self,
                    ).ingest_state(),
                },
            },
    {
        if deltas.len() == 0 {
            return Ok(());
        }
        let saved_i = copy_interfaces(&self.t.interfaces);
        let saved_a = copy_apps(&self.t.apps);
        let saved_u = copy_usage(&self.t.usage_records);
        let (li, la, lu) = (self.last_interface_id, self.last_app_id, self.last_usage_id);
        let app = self.upsert_app("System", now_ts);
        let app_id = match app {
            Ok(id) => id,
            Err(e) => {
                return Err(e);
            },
        };
        let ghost st0 = self.ingest_state();
        let mut k: usize = 0;
        while k < deltas.len()
            invariant
                k <= deltas@.len(),
                self.wf(),
                old(self).wf(),
                saved_i@ == old(self).tables().interfaces@,
                saved_a@ == old(self).tables().apps@,
                saved_u@ == old(self).tables().usage_records@,
                li == old(self).last_interface(),
                la == old(self).last_app(),
                lu == old(self).last_usage(),
                self.same_settings(old(self)),
                self.same_afk(old(self)),
                self.same_caps(old(self)),
                self.same_events(old(self)),
                app_upsert(old(self).apps(), old(self).last_app(), "System"@, now_ts) == Some(
                    (st0.apps, st0.alast, app_id),
                ),
                st0 == (IngestState { apps: st0.apps, alast: st0.alast, ..old(self).ingest_state() }),
                deltas_fold(st0, app_id, deltas@.subrange(0, k as int)) == Ok::<IngestState, DbError>(
                    self.ingest_state(),
                ),
            decreases deltas@.len() - k,
        {
            let d = &deltas[k];
            assert(deltas@.subrange(0, k + 1).drop_last() =~= deltas@.subrange(0, k as int));
            let step = match self.upsert_interface(
                d.interface_guid.as_str(),
                d.interface_name.as_str(),
                d.interface_type,
                d.is_metered,
                d.ts,
            ) {
                Ok(iid) => self.insert_usage_row(
                    d.ts,
                    app_id,
                    iid,
                    d.bytes_sent as i64,
                    d.bytes_recv as i64,
                    d.interval_secs as i64,
                    "interface_poll",
                ),
                Err(e) => Err(e),
            };
            match step {
                Ok(()) => {},
                Err(e) => {
                    proof {
                        lemma_deltas_fold_fails(st0, app_id, deltas@, k as int + 1, e);
                    }
                    self.restore_ingest(saved_i, li, saved_a, la, saved_u, lu);
                    return Err(e);
                },
            }
            k = k + 1;
        }
        assert(deltas@.subrange(0, k as int) =~= deltas@);
        Ok(())
    }
}

/// Once a step fails, the whole pass fails with that error.
proof fn lemma_deltas_fold_fails(
    st: IngestState,
    app_id: i64,
    deltas: Seq<InterfaceDelta>,
    k: int,
    e: DbError,
)
    requires
        0 <= k <= deltas.len(),
        deltas_fold(st, app_id, deltas.subrange(0, k)) == Err::<IngestState, DbError>(e),
    ensures
        deltas_fold(st, app_id, deltas) == Err::<IngestState, DbError>(e),
    decreases deltas.len() - k,
{
    if k < deltas.len() {
        assert(deltas.subrange(0, k + 1).drop_last() =~= deltas.subrange(0, k));
        lemma_deltas_fold_fails(st, app_id, deltas, k + 1, e);
    } else {
        assert(deltas.subrange(0, k) =~= deltas);
    }
}

} // verus!

verus! {

/// The process name under which attributed usage is stored: quotes and surrounding
/// whitespace removed, `unattributed` when nothing is left, the file name alone for an
/// executable path.
pub open spec fn process_name_seq(raw: Seq<char>) -> Seq<char> {
    let t = strip_seq(trim_seq(raw), '"');
    if t.len() == 0 {
        "unattributed"@
    } else {
        let l = lower_seq(t);
        if ends_with_seq(l, ".exe"@) || ends_with_seq(l, ".com"@) || ends_with_seq(l, ".bat"@) {
            last_segment_seq(t)
        } else if ends_with_seq(lower_seq(last_segment_seq(t)), ".exe"@) {
            last_segment_seq(t)
        } else {
            t
        }
    }
}

pub fn normalize_process_name(raw: &str) -> (r: String)
    ensures
        r@ == process_name_seq(raw@),
{
    let t = strip_vec(&trim_vec(&chars_of(raw)), '"');
    if t.len() == 0 {
        return "unattributed".to_string();
    }
    let lowered = lower_vec(&t);
    if ends_with_vec(&lowered, ".exe") || ends_with_vec(&lowered, ".com") || ends_with_vec(
        &lowered,
        ".bat",
    ) {
        let seg = last_segment_vec(&t);
        return string_of(seg.as_slice());
    }
    let file = last_segment_vec(&t);
    if ends_with_vec(&lower_vec(&file), ".exe") {
        return string_of(file.as_slice());
    }
    string_of(t.as_slice())
}

/// The name of the interface under which attributed usage is stored.
pub open spec fn attribution_interface_name(profile: Option<String>) -> Seq<char> {
    match profile {
        Some(p) => "Attributed Usage ("@ + p@ + ")"@,
        None => "Attributed Usage"@,
    }
}

/// The source of attributed usage: `import` when asked for exactly, `helper` otherwise.
pub open spec fn attribution_source(source: Option<String>) -> Seq<char> {
    match source {
        Some(s) => if s@ == "import"@ {
            "import"@
        } else {
            "helper"@
        },
        None => "helper"@,
    }
}

/// The interval recorded for attributed usage: the window length, kept within 1..=600.
pub open spec fn attribution_interval(start_ts: i64, end_ts: i64) -> i64 {
    let d = end_ts - start_ts;
    if d < 1 {
        1
    } else if d > 600 {
        600
    } else {
        d as i64
    }
}

/// Ingestion state plus the samples counted so far.
pub struct AttrState {
    pub st: IngestState,
    pub accepted: nat,
    pub dropped: nat,
}

/// Storing each sample in turn: empty samples are dropped, the others upsert their app and
/// their usage row.
pub open spec fn samples_fold(
    s0: AttrState,
    interface_id: i64,
    end_ts: i64,
    interval: i64,
    source: Seq<char>,
    samples: Seq<AttributedUsageSample>,
) -> Result<AttrState, DbError>
    decreases samples.len(),
{
    if samples.len() == 0 {
        Ok(s0)
    } else {
        match samples_fold(s0, interface_id, end_ts, interval, source, samples.drop_last()) {
            Err(e) => Err(e),
            Ok(a) => {
                let smp = samples.last();
                if smp.bytes_sent == 0 && smp.bytes_recv == 0 {
                    Ok(AttrState { dropped: a.dropped + 1, ..a })
                } else {
                    match app_upsert(a.st.apps, a.st.alast, process_name_seq(smp.attribution_id@), end_ts) {
                        None => Err(DbError::IdSpaceExhausted),
                        Some((ra, la, aid)) => match usage_upsert(
                            a.st.usage,
                            a.st.ulast,
                            end_ts,
                            aid,
                            interface_id,
                            smp.bytes_sent as i64,
                            smp.bytes_recv as i64,
                            interval,
                            source,
                        ) {
                            Err(e) => Err(e),
                            Ok((u, ul)) => Ok(
                                AttrState {
                                    st: IngestState { apps: ra, alast: la, usage: u, ulast: ul, ..a.st },
                                    accepted: a.accepted + 1,
                                    dropped: a.dropped,
                                },
                            ),
                        },
                    }
                }
            },
        }
    }
}

pub open spec fn cap_u32(n: nat) -> u32 {
    if n > u32::MAX {
        u32::MAX
    } else {
        n as u32
    }
}

/// What storing attributed usage does: nothing for an empty payload; otherwise the
/// attribution interface is upserted and each sample stored in turn, the whole left undone
/// on a failure.
pub open spec fn attributed_outcome(
    before: &Db,
    after: &Db,
    payload: IngestAttributedUsageRequest,
    r: Result<IngestAttributedUsageResponse, DbError>,
) -> bool {
    &&& (payload.samples@.len() == 0 ==> r == Ok::<IngestAttributedUsageResponse, DbError>(
                IngestAttributedUsageResponse { accepted: 0, dropped: 0 },
            ) && after.ingest_state() == before.ingest_state()
    )
    &&& (payload.samples@.len() > 0 ==> match interface_upsert(
                before.interfaces(),
                before.last_interface(),
                "{11111111-1111-1111-1111-111111111111}"@,
                attribution_interface_name(payload.profile_name),
                0,
                None,
                payload.end_ts,
            ) {
                None => r == Err::<IngestAttributedUsageResponse, DbError>(DbError::IdSpaceExhausted)
                    && after.ingest_state() == before.ingest_state(),
                Some((ri, li, iid)) => match samples_fold(
                    AttrState {
                        st: IngestState { ifaces: ri, ilast: li, ..before.ingest_state() },
                        accepted: 0,
                        dropped: 0,
                    },
                    iid,
                    payload.end_ts,
                    attribution_interval(payload.start_ts, payload.end_ts),
                    attribution_source(payload.source),
                    payload.samples@,
                ) {
                    Ok(a) => r == Ok::<IngestAttributedUsageResponse, DbError>(
                        IngestAttributedUsageResponse {
                            accepted: cap_u32(a.accepted),
                            dropped: cap_u32(a.dropped),
                        },
                    ) && after.ingest_state() == a.st,
                    Err(e) => r == Err::<IngestAttributedUsageResponse, DbError>(e) && after.ingest_state() == before.ingest_state(),
                },
            }
    )
}

impl Db {
    /// Stores attributed usage samples; on a failure nothing is changed.
    pub fn insert_attributed_usage(&mut self, payload: &IngestAttributedUsageRequest) -> (r: Result<
        IngestAttributedUsageResponse,
        DbError,
    >)
        requires
            old(self).wf(),
            payload.samples@.len() > 0 ==> i64::MIN <= payload.end_ts - payload.start_ts <= i64::MAX,
        ensures
            final(self).wf(),
            final(self).same_settings(old(self)),
            final(self).same_afk(old(self)),
            final(self).same_caps(old(self)),
            final(self).same_events(old(self)),
            attributed_outcome(old(self), final(self), *payload, r),
    {
        if payload.samples.len() == 0 {
            return Ok(IngestAttributedUsageResponse { accepted: 0, dropped: 0 });
        }
        let saved_i = copy_interfaces(&self.t.interfaces);
        let saved_a = copy_apps(&self.t.apps);
        let saved_u = copy_usage(&self.t.usage_records);
        let (li, la, lu) = (self.last_interface_id, self.last_app_id, self.last_usage_id);
        let interface_name = match &payload.profile_name {
            Some(profile) => {
                let mut v = chars_of("Attributed Usage (");
                let p = chars_of(profile.as_str());
                let mut k: usize = 0;
                let ghost v0 = v@;
                while k < p.len()
                    invariant
                        k <= p@.len(),
                        v@ == v0 + p@.subrange(0, k as int),
                    decreases p@.len() - k,
                {
                    v.push(p[k]);
                    k = k + 1;
                    assert(v@ =~= v0 + p@.subrange(0, k as int));
                }
                v.push(')');
                proof {
                    reveal_strlit(")");
                    assert(p@.subrange(0, p@.len() as int) =~= p@);
                    assert(v@ =~= "Attributed Usage ("@ + profile@ + ")"@);
                }
                string_of(v.as_slice())
            },
            None => "Attributed Usage".to_string(),
        };
        let iface = self.upsert_interface(
            "{11111111-1111-1111-1111-111111111111}",
            interface_name.as_str(),
            0,
            None,
            payload.end_ts,
        );
        let interface_id = match iface {
            Ok(id) => id,
            Err(e) => {
                return Err(e);
            },
        };
        let d = payload.end_ts - payload.start_ts;
        let interval: i64 = if d < 1 {
            1
        } else if d > 600 {
            600
        } else {
            d
        };
        let source: &str = match &payload.source {
            Some(s) => if str_is(s.as_str(), "import") {
                "import"
            } else {
                "helper"
            },
            None => "helper",
        };
        assert(interval == attribution_interval(payload.start_ts, payload.end_ts));
        assert(source@ == attribution_source(payload.source));
        assert(interface_name@ == attribution_interface_name(payload.profile_name));
        let ghost a0 = AttrState { st: self.ingest_state(), accepted: 0, dropped: 0 };
        let mut accepted: u32 = 0;
        let mut dropped: u32 = 0;
        let ghost mut acc_n: nat = 0;
        let ghost mut drop_n: nat = 0;
        let mut k: usize = 0;
        while k < payload.samples.len()
            invariant
                k <= payload.samples@.len(),
                self.wf(),
                old(self).wf(),
                saved_i@ == old(self).tables().interfaces@,
                saved_a@ == old(self).tables().apps@,
                saved_u@ == old(self).tables().usage_records@,
                li == old(self).last_interface(),
                la == old(self).last_app(),
                lu == old(self).last_usage(),
                self.same_settings(old(self)),
                self.same_afk(old(self)),
                self.same_caps(old(self)),
                self.same_events(old(self)),
                accepted == cap_u32(acc_n),
                dropped == cap_u32(drop_n),
                interval == attribution_interval(payload.start_ts, payload.end_ts),
                source@ == attribution_source(payload.source),
                a0 == (AttrState {
                    st: IngestState { ifaces: a0.st.ifaces, ilast: a0.st.ilast, ..old(self).ingest_state() },
                    accepted: 0,
                    dropped: 0,
                }),
                interface_upsert(
                    old(self).interfaces(),
                    old(self).last_interface(),
                    "{11111111-1111-1111-1111-111111111111}"@,
                    attribution_interface_name(payload.profile_name),
                    0,
                    None,
                    payload.end_ts,
                ) == Some((a0.st.ifaces, a0.st.ilast, interface_id)),
                samples_fold(
                    a0,
                    interface_id,
                    payload.end_ts,
                    interval,
                    source@,
                    payload.samples@.subrange(0, k as int),
                ) == Ok::<AttrState, DbError>(
                    AttrState { st: self.ingest_state(), accepted: acc_n, dropped: drop_n },
                ),
            decreases payload.samples@.len() - k,
        {
            let smp = &payload.samples[k];
            let ghost pre = self.ingest_state();
            assert(payload.samples@.subrange(0, k + 1).drop_last() =~= payload.samples@.subrange(
                0,
                k as int,
            ));
            if smp.bytes_sent == 0 && smp.bytes_recv == 0 {
                dropped = dropped.saturating_add(1);
                proof {
                    drop_n = drop_n + 1;
                }
            } else {
                let process_name = normalize_process_name(smp.attribution_id.as_str());
                let step = match self.upsert_app(process_name.as_str(), payload.end_ts) {
                    Ok(aid) => self.upsert_usage_row(
                        payload.end_ts,
                        aid,
                        interface_id,
                        smp.bytes_sent as i64,
                        smp.bytes_recv as i64,
                        interval,
                        source,
                    ),
                    Err(e) => Err(e),
                };
                match step {
                    Ok(()) => {},
                    Err(e) => {
                        assert(samples_fold(
                            a0,
                            interface_id,
                            payload.end_ts,
                            interval,
                            source@,
                            payload.samples@.subrange(0, k + 1),
                        ) == Err::<AttrState, DbError>(e));
                        proof {
                            lemma_samples_fold_fails(
                                a0,
                                interface_id,
                                payload.end_ts,
                                interval,
                                source@,
                                payload.samples@,
                                k as int + 1,
                                e,
                            );
                        }
                        self.restore_ingest(saved_i, li, saved_a, la, saved_u, lu);
                        return Err(e);
                    },
                }
                accepted = accepted.saturating_add(1);
                proof {
                    acc_n = acc_n + 1;
                }
            }
            k = k + 1;
        }
        assert(payload.samples@.subrange(0, k as int) =~= payload.samples@);
        Ok(IngestAttributedUsageResponse { accepted, dropped })
    }
}

/// Once a step fails, the whole pass fails with that error.
proof fn lemma_samples_fold_fails(
    s0: AttrState,
    interface_id: i64,
    end_ts: i64,
    interval: i64,
    source: Seq<char>,
    samples: Seq<AttributedUsageSample>,
    k: int,
    e: DbError,
)
    requires
        0 <= k <= samples.len(),
        samples_fold(s0, interface_id, end_ts, interval, source, samples.subrange(0, k)) == Err::<
            AttrState,
            DbError,
        >(e),
    ensures
        samples_fold(s0, interface_id, end_ts, interval, source, samples) == Err::<AttrState, DbError>(
            e,
        ),
    decreases samples.len() - k,
{
    if k < samples.len() {
        assert(samples.subrange(0, k + 1).drop_last() =~= samples.subrange(0, k));
        lemma_samples_fold_fails(s0, interface_id, end_ts, interval, source, samples, k + 1, e);
    } else {
        assert(samples.subrange(0, k) =~= samples);
    }
}

/// Every sample of a successful ingest is counted once, as accepted or as dropped.
pub proof fn lemma_samples_counted(
    s0: AttrState,
    interface_id: i64,
    end_ts: i64,
    interval: i64,
    source: Seq<char>,
    samples: Seq<AttributedUsageSample>,
)
    requires
        samples_fold(s0, interface_id, end_ts, interval, source, samples) is Ok,
    ensures
        ({
            let a = samples_fold(s0, interface_id, end_ts, interval, source, samples)->Ok_0;
            a.accepted + a.dropped == s0.accepted + s0.dropped + samples.len()
        }),
    decreases samples.len(),
{
    if samples.len() > 0 {
        lemma_samples_counted(s0, interface_id, end_ts, interval, source, samples.drop_last());
    }
}

} // verus!
