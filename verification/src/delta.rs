use vstd::prelude::*;
use crate::poller::InterfaceSnapshot;
use crate::seqs::{first_index, lemma_first_found, lemma_first_none};

verus! {

/// The traffic of one interface over one polling interval.
#[derive(Debug, Clone)]
pub struct InterfaceDelta {
    pub ts: i64,
    pub interval_secs: u32,
    pub interface_guid: String,
    pub interface_name: String,
    pub bytes_sent: u64,
    pub bytes_recv: u64,
    pub interface_type: u32,
    pub is_metered: Option<bool>,
}

/// The last counters seen for one interface.
#[derive(Debug, Clone)]
pub struct CounterEntry {
    pub guid: String,
    pub sent: u64,
    pub recv: u64,
}

/// Turns cumulative interface counters into per-interval deltas.
#[derive(Debug)]
pub struct DeltaEngine {
    previous: Vec<CounterEntry>,
    max_delta_bytes: u64,
}

pub open spec fn entry_has_guid(g: Seq<char>) -> spec_fn(CounterEntry) -> bool {
    |e: CounterEntry| e.guid@ == g
}

/// The counters last recorded for `g`, if any.
pub open spec fn lookup_counters(prev: Seq<CounterEntry>, g: Seq<char>) -> Option<(u64, u64)> {
    let i = first_index(prev, entry_has_guid(g));
    if i >= 0 {
        Some((prev[i].sent, prev[i].recv))
    } else {
        None
    }
}

/// The record after storing `(sent, recv)` as the counters of `e.guid`.
pub open spec fn store_counters(prev: Seq<CounterEntry>, e: CounterEntry) -> Seq<CounterEntry> {
    let i = first_index(prev, entry_has_guid(e.guid@));
    if i >= 0 {
        prev.update(i, e)
    } else {
        prev.push(e)
    }
}

/// `a.saturating_add(b)` for `u64`.
pub open spec fn sat_add_u64(a: u64, b: u64) -> u64 {
    if a + b > u64::MAX {
        u64::MAX
    } else {
        (a + b) as u64
    }
}

/// How much a counter grew; a drop to at most `allowed` counts as a reset (the new value is
/// the growth), a larger drop counts as nothing.
pub open spec fn counter_delta(previous: u64, current: u64, allowed: u64) -> u64 {
    if current >= previous {
        (current - previous) as u64
    } else if current <= allowed {
        current
    } else {
        0
    }
}

/// The anomaly budget for an interval: `max_delta` scaled by `interval / nominal`, rounded up,
/// each of them taken as at least 1, capped at `u64::MAX`.
pub open spec fn allowed_delta(max_delta: u64, interval: u32, nominal: u32) -> u64 {
    let i: int = if interval >= 1 { interval as int } else { 1 };
    let n: int = if nominal >= 1 { nominal as int } else { 1 };
    let scaled = (max_delta * i + n - 1) / n;
    if scaled > u64::MAX {
        u64::MAX
    } else {
        scaled as u64
    }
}

/// The delta for snapshot `s` against the recorded counters, if one is emitted.
pub open spec fn delta_for(
    prev: Seq<CounterEntry>,
    s: InterfaceSnapshot,
    ts: i64,
    interval: u32,
    allowed: u64,
) -> Option<InterfaceDelta> {
    match lookup_counters(prev, s.interface_guid@) {
        Some((ps, pr)) => {
            let ds = counter_delta(ps, s.bytes_sent, allowed);
            let dr = counter_delta(pr, s.bytes_recv, allowed);
            let combined = sat_add_u64(ds, dr);
            if combined > 0 && combined <= allowed {
                Some(
                    InterfaceDelta {
                        ts,
                        interval_secs: interval,
                        interface_guid: s.interface_guid,
                        interface_name: s.interface_name,
                        bytes_sent: ds,
                        bytes_recv: dr,
                        interface_type: s.interface_type,
                        is_metered: s.is_metered,
                    },
                )
            } else {
                None
            }
        },
        None => None,
    }
}

/// Processing the snapshots in order: the deltas emitted and the counters recorded after.
pub open spec fn run_snapshots(
    prev: Seq<CounterEntry>,
    snaps: Seq<InterfaceSnapshot>,
    ts: i64,
    interval: u32,
    allowed: u64,
) -> (Seq<InterfaceDelta>, Seq<CounterEntry>)
    decreases snaps.len(),
{
    if snaps.len() == 0 {
        (Seq::empty(), prev)
    } else {
        let (out, p) = run_snapshots(prev, snaps.drop_last(), ts, interval, allowed);
        let s = snaps.last();
        let out2 = match delta_for(p, s, ts, interval, allowed) {
            Some(d) => out.push(d),
            None => out,
        };
        (
            out2,
            store_counters(
                p,
                CounterEntry { guid: s.interface_guid, sent: s.bytes_sent, recv: s.bytes_recv },
            ),
        )
    }
}

/// No two entries are for the same interface.
pub open spec fn one_entry_per_interface(prev: Seq<CounterEntry>) -> bool {
    forall|i: int, j: int| 0 <= i < j < prev.len() ==> (#[trigger] prev[i]).guid@ != (#[trigger] prev[j]).guid@
}

/// Storing counters keeps one entry per interface.
proof fn lemma_store_one_entry(prev: Seq<CounterEntry>, e: CounterEntry)
    requires
        one_entry_per_interface(prev),
    ensures
        one_entry_per_interface(store_counters(prev, e)),
{
    let pe = entry_has_guid(e.guid@);
    crate::seqs::lemma_first_index_props(prev, pe);
    let s2 = store_counters(prev, e);
    let k = first_index(prev, pe);
    assert forall|i: int, j: int| 0 <= i < j < s2.len() implies (#[trigger] s2[i]).guid@ != (#[trigger] s2[j]).guid@ by {
        if k >= 0 {
            assert(pe(prev[k]));
            if i == k {
                assert(s2[j] == prev[j]);
            } else if j == k {
                assert(s2[i] == prev[i]);
            } else {
                assert(s2[i] == prev[i] && s2[j] == prev[j]);
            }
        } else {
            if j == prev.len() {
                assert(s2[i] == prev[i]);
                assert(!pe(prev[i]));
            } else {
                assert(s2[i] == prev[i] && s2[j] == prev[j]);
            }
        }
    }
}

/// Processing snapshots keeps one entry per interface.
proof fn lemma_run_one_entry(prev: Seq<CounterEntry>, snaps: Seq<InterfaceSnapshot>, ts: i64, interval: u32, allowed: u64)
    requires
        one_entry_per_interface(prev),
    ensures
        one_entry_per_interface(run_snapshots(prev, snaps, ts, interval, allowed).1),
    decreases snaps.len(),
{
    if snaps.len() > 0 {
        lemma_run_one_entry(prev, snaps.drop_last(), ts, interval, allowed);
        let p = run_snapshots(prev, snaps.drop_last(), ts, interval, allowed).1;
        let s = snaps.last();
        lemma_store_one_entry(p, CounterEntry { guid: s.interface_guid, sent: s.bytes_sent, recv: s.bytes_recv });
    }
}

impl DeltaEngine {
    /// The engine holds one entry per interface.
    pub open spec fn wf(&self) -> bool {
        one_entry_per_interface(self.recorded())
    }

    /// The counters recorded so far, one entry per interface, in first-seen order.
    pub closed spec fn recorded(&self) -> Seq<CounterEntry> {
        self.previous@
    }

    pub closed spec fn max_delta(&self) -> u64 {
        self.max_delta_bytes
    }

    pub fn new(max_delta_bytes: u64) -> (r: Self)
        ensures
            r.recorded() == Seq::<CounterEntry>::empty(),
            r.max_delta() == max_delta_bytes,
            r.wf(),
    {
        DeltaEngine { previous: Vec::new(), max_delta_bytes }
    }

    fn find_entry(&self, guid: &String) -> (r: Option<usize>)
        ensures
            match r {
                Some(i) => i == first_index(self.previous@, entry_has_guid(guid@)) && i
                    < self.previous@.len(),
                None => first_index(self.previous@, entry_has_guid(guid@)) == -1,
            },
    {
        let mut k: usize = 0;
        while k < self.previous.len()
            invariant
                k <= self.previous@.len(),
                forall|j: int|
                    0 <= j < k ==> !(#[trigger] entry_has_guid(guid@)(self.previous@[j])),
            decreases self.previous@.len() - k,
        {
            if self.previous[k].guid == *guid {
                proof {
                    lemma_first_found(self.previous@, entry_has_guid(guid@), k as int);
                }
                return Some(k);
            }
            k = k + 1;
        }
        proof {
            lemma_first_none(self.previous@, entry_has_guid(guid@));
        }
        None
    }

    pub fn compute(
        &mut self,
        snapshots: &[InterfaceSnapshot],
        ts: i64,
        interval_secs: u32,
        nominal_interval_secs: u32,
    ) -> (deltas: Vec<InterfaceDelta>)
        ensures
            final(self).max_delta() == old(self).max_delta(),
            old(self).wf() ==> final(self).wf(),
            (deltas@, final(self).recorded()) == run_snapshots(
                old(self).recorded(),
                snapshots@,
                ts,
                interval_secs,
                allowed_delta(old(self).max_delta(), interval_secs, nominal_interval_secs),
            ),
    {
        let mut deltas: Vec<InterfaceDelta> = Vec::new();
        let allowed = self.allowed_delta_bytes(interval_secs, nominal_interval_secs);
        let ghost prev0 = self.previous@;
        let mut k: usize = 0;
        while k < snapshots.len()
            invariant
                k <= snapshots@.len(),
                self.max_delta_bytes == old(self).max_delta_bytes,
                prev0 == old(self).previous@,
                allowed == allowed_delta(old(self).max_delta_bytes, interval_secs, nominal_interval_secs),
                (deltas@, self.previous@) == run_snapshots(
                    prev0,
                    snapshots@.subrange(0, k as int),
                    ts,
                    interval_secs,
                    allowed,
                ),
            decreases snapshots@.len() - k,
        {
            let snapshot = &snapshots[k];
            let ghost p = self.previous@;
            assert(snapshots@.subrange(0, k + 1).drop_last() =~= snapshots@.subrange(0, k as int));
            let found = self.find_entry(&snapshot.interface_guid);
            match found {
                Some(i) => {
                    let prev_sent = self.previous[i].sent;
                    let prev_recv = self.previous[i].recv;
                    let delta_sent = compute_counter_delta(prev_sent, snapshot.bytes_sent, allowed);
                    let delta_recv = compute_counter_delta(prev_recv, snapshot.bytes_recv, allowed);
                    let combined = delta_sent.saturating_add(delta_recv);
                    if combined > 0 && combined <= allowed {
                        deltas.push(
                            InterfaceDelta {
                                ts,
                                interval_secs,
                                interface_guid: snapshot.interface_guid.clone(),
                                interface_name: snapshot.interface_name.clone(),
                                bytes_sent: delta_sent,
                                bytes_recv: delta_recv,
                                interface_type: snapshot.interface_type,
                                is_metered: snapshot.is_metered,
                            },
                        );
                    }
                    let entry = CounterEntry {
                        guid: snapshot.interface_guid.clone(),
                        sent: snapshot.bytes_sent,
                        recv: snapshot.bytes_recv,
                    };
                    self.previous.set(i, entry);
                },
                None => {
                    let entry = CounterEntry {
                        guid: snapshot.interface_guid.clone(),
                        sent: snapshot.bytes_sent,
                        recv: snapshot.bytes_recv,
                    };
                    self.previous.push(entry);
                },
            }
            k = k + 1;
        }
        assert(snapshots@.subrange(0, k as int) =~= snapshots@);
        proof {
            if one_entry_per_interface(prev0) {
                lemma_run_one_entry(prev0, snapshots@, ts, interval_secs, allowed);
            }
        }
        deltas
    }

    fn allowed_delta_bytes(&self, interval_secs: u32, nominal_interval_secs: u32) -> (r: u64)
        ensures
            r == allowed_delta(self.max_delta_bytes, interval_secs, nominal_interval_secs),
    {
        let interval: u128 = if interval_secs >= 1 { interval_secs as u128 } else { 1 };
        let nominal: u128 = if nominal_interval_secs >= 1 { nominal_interval_secs as u128 } else { 1 };
        let base: u128 = self.max_delta_bytes as u128;
        assert(base * interval <= 0xffff_ffff_ffff_ffff * 0xffff_ffff) by (nonlinear_arith)
            requires base <= 0xffff_ffff_ffff_ffff, interval <= 0xffff_ffff;
        let scaled: u128 = (base * interval + (nominal - 1)) / nominal;
        if scaled > 0xffff_ffff_ffff_ffff {
            0xffff_ffff_ffff_ffff
        } else {
            scaled as u64
        }
    }
}

/// How much one counter grew since the previous poll.
pub fn compute_counter_delta(previous: u64, current: u64, allowed_delta: u64) -> (r: u64)
    ensures
        r == counter_delta(previous, current, allowed_delta),
{
    if current >= previous {
        current - previous
    } else if current <= allowed_delta {
        current
    } else {
        0
    }
}

} // verus!

verus! {

/// After storing counters for one interface, lookups of that interface give them back and
/// lookups of every other interface are unchanged.
pub proof fn lemma_store_lookup(prev: Seq<CounterEntry>, e: CounterEntry, g: Seq<char>)
    ensures
        lookup_counters(store_counters(prev, e), g) == (if g == e.guid@ {
            Some((e.sent, e.recv))
        } else {
            lookup_counters(prev, g)
        }),
{
    let pe = entry_has_guid(e.guid@);
    let pg = entry_has_guid(g);
    let s2 = store_counters(prev, e);
    crate::seqs::lemma_first_index_props(prev, pe);
    crate::seqs::lemma_first_index_props(prev, pg);
    crate::seqs::lemma_first_index_props(s2, pg);
    let i = first_index(prev, pe);
    if g == e.guid@ {
        if i >= 0 {
            assert forall|j: int| 0 <= j < i implies !pg(#[trigger] s2[j]) by {
                assert(s2[j] == prev[j]);
            }
            lemma_first_found(s2, pg, i);
        } else {
            assert forall|j: int| 0 <= j < prev.len() implies !pg(#[trigger] s2[j]) by {
                assert(s2[j] == prev[j]);
            }
            lemma_first_found(s2, pg, prev.len() as int);
        }
    } else {
        let k = first_index(prev, pg);
        if k >= 0 {
            assert forall|j: int| 0 <= j < k implies !pg(#[trigger] s2[j]) by {
                if j == i {
                } else {
                    assert(s2[j] == prev[j]);
                }
            }
            if k == i {
                assert(false);
            }
            assert(s2[k] == prev[k]);
            lemma_first_found(s2, pg, k);
        } else {
            assert forall|j: int| 0 <= j < s2.len() implies !pg(#[trigger] s2[j]) by {
                if j < prev.len() && j != i {
                    assert(s2[j] == prev[j]);
                }
            }
            lemma_first_none(s2, pg);
        }
    }
}

/// Every interface with recorded counters was seen in the snapshots processed so far, or
/// was recorded before.
proof fn lemma_run_recorded(
    prev: Seq<CounterEntry>,
    snaps: Seq<InterfaceSnapshot>,
    ts: i64,
    interval: u32,
    allowed: u64,
    g: Seq<char>,
)
    ensures
        lookup_counters(run_snapshots(prev, snaps, ts, interval, allowed).1, g) is Some ==> (
        lookup_counters(prev, g) is Some || exists|i: int|
            0 <= i < snaps.len() && (#[trigger] snaps[i]).interface_guid@ == g),
    decreases snaps.len(),
{
    if snaps.len() > 0 {
        let s = snaps.last();
        let (out, p) = run_snapshots(prev, snaps.drop_last(), ts, interval, allowed);
        lemma_run_recorded(prev, snaps.drop_last(), ts, interval, allowed, g);
        lemma_store_lookup(
            p,
            CounterEntry { guid: s.interface_guid, sent: s.bytes_sent, recv: s.bytes_recv },
            g,
        );
        if lookup_counters(p, g) is Some && lookup_counters(prev, g) is None {
            let i = choose|i: int|
                0 <= i < snaps.drop_last().len() && (#[trigger] snaps.drop_last()[i]).interface_guid@
                    == g;
            assert(snaps[i] == snaps.drop_last()[i]);
        }
        if g == s.interface_guid@ {
            assert(snaps[snaps.len() - 1] == s);
        }
    }
}

/// The first observation of an interface yields no delta: a fresh engine given snapshots of
/// distinct interfaces emits nothing.
pub proof fn lemma_first_observation_has_no_delta(
    snaps: Seq<InterfaceSnapshot>,
    ts: i64,
    interval: u32,
    allowed: u64,
)
    requires
        forall|i: int, j: int|
            0 <= i < j < snaps.len() ==> (#[trigger] snaps[i]).interface_guid@ != (
            #[trigger] snaps[j]).interface_guid@,
    ensures
        run_snapshots(Seq::empty(), snaps, ts, interval, allowed).0 == Seq::<InterfaceDelta>::empty(),
    decreases snaps.len(),
{
    if snaps.len() > 0 {
        let init = snaps.drop_last();
        assert forall|i: int, j: int|
            0 <= i < j < init.len() implies (#[trigger] init[i]).interface_guid@ != (
            #[trigger] init[j]).interface_guid@ by {
            assert(init[i] == snaps[i] && init[j] == snaps[j]);
        }
        lemma_first_observation_has_no_delta(init, ts, interval, allowed);
        let s = snaps.last();
        lemma_run_recorded(Seq::empty(), init, ts, interval, allowed, s.interface_guid@);
        crate::seqs::lemma_first_index_props(
            Seq::<CounterEntry>::empty(),
            entry_has_guid(s.interface_guid@),
        );
        if lookup_counters(run_snapshots(Seq::empty(), init, ts, interval, allowed).1, s.interface_guid@) is Some {
            let i = choose|i: int|
                0 <= i < init.len() && (#[trigger] init[i]).interface_guid@ == s.interface_guid@;
            assert(init[i] == snaps[i]);
            assert(snaps[snaps.len() - 1] == s);
        }
    }
}

} // verus!
