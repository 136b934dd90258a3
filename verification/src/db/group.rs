use vstd::prelude::*;
use super::{DbError, UsageRow, UsageV, view_seq};

verus! {

/// The sum of `vals` taken left to right, as a `SUM` over 64-bit integers computes it:
/// `None` once a running total leaves the `i64` range.
pub open spec fn checked_sum(vals: Seq<i64>) -> Option<i64>
    decreases vals.len(),
{
    if vals.len() == 0 {
        Some(0)
    } else {
        match checked_sum(vals.drop_last()) {
            None => None,
            Some(s) => {
                let t = s + vals.last();
                if i64::MIN <= t <= i64::MAX {
                    Some(t as i64)
                } else {
                    None
                }
            },
        }
    }
}

/// The largest of a non-empty sequence.
pub open spec fn seq_max(vals: Seq<i64>) -> i64
    decreases vals.len(),
{
    if vals.len() <= 1 {
        vals[0]
    } else {
        let m = seq_max(vals.drop_last());
        if m < vals.last() {
            vals.last()
        } else {
            m
        }
    }
}

pub open spec fn sent_of() -> spec_fn(UsageV) -> i64 {
    |r: UsageV| r.bytes_sent
}

pub open spec fn recv_of() -> spec_fn(UsageV) -> i64 {
    |r: UsageV| r.bytes_recv
}

pub open spec fn ts_of() -> spec_fn(UsageV) -> i64 {
    |r: UsageV| r.ts
}

/// The values `f` of the first `n` rows whose tag is `k`, in table order.
pub open spec fn tagged(
    rs: Seq<UsageV>,
    tags: Seq<Option<i64>>,
    k: i64,
    f: spec_fn(UsageV) -> i64,
    n: int,
) -> Seq<i64>
    decreases n,
{
    if n <= 0 {
        Seq::empty()
    } else {
        let p = tagged(rs, tags, k, f, n - 1);
        if tags[n - 1] == Some(k) {
            p.push(f(rs[n - 1]))
        } else {
            p
        }
    }
}

/// Rows grouped by tag: the totals of one group.
#[derive(Debug, Clone, Copy)]
pub struct Group {
    pub key: i64,
    pub sent: i64,
    pub recv: i64,
    pub last_ts: i64,
}

/// Some group's sent or received total leaves the `i64` range.
pub open spec fn group_overflows(rs: Seq<UsageV>, tags: Seq<Option<i64>>) -> bool {
    exists|k: i64|
        checked_sum(#[trigger] tagged(rs, tags, k, sent_of(), rs.len() as int)) is None
            || checked_sum(tagged(rs, tags, k, recv_of(), rs.len() as int)) is None
}

/// `g` holds, by ascending tag, one entry per tag that occurs, with its totals and its
/// latest timestamp.
pub open spec fn is_grouping(rs: Seq<UsageV>, tags: Seq<Option<i64>>, g: Seq<Group>) -> bool {
    let n = rs.len() as int;
    &&& forall|i: int, j: int| 0 <= i < j < g.len() ==> #[trigger] g[i].key < #[trigger] g[j].key
    &&& forall|i: int|
        0 <= i < g.len() ==> {
            &&& tagged(rs, tags, #[trigger] g[i].key, ts_of(), n).len() > 0
            &&& checked_sum(tagged(rs, tags, g[i].key, sent_of(), n)) == Some(g[i].sent)
            &&& checked_sum(tagged(rs, tags, g[i].key, recv_of(), n)) == Some(g[i].recv)
            &&& g[i].last_ts == seq_max(tagged(rs, tags, g[i].key, ts_of(), n))
        }
    &&& forall|j: int|
        0 <= j < n && (#[trigger] tags[j]) is Some ==> exists|i: int|
            0 <= i < g.len() && g[i].key == tags[j]->0
}

/// A group is non-empty only where a row carries its tag.
pub proof fn lemma_tagged_witness(
    rs: Seq<UsageV>,
    tags: Seq<Option<i64>>,
    k: i64,
    f: spec_fn(UsageV) -> i64,
    n: int,
)
    requires
        tagged(rs, tags, k, f, n).len() > 0,
    ensures
        exists|j: int| 0 <= j < n && tags[j] == Some(k),
    decreases n,
{
    if n > 0 && tags[n - 1] != Some(k) {
        lemma_tagged_witness(rs, tags, k, f, n - 1);
    }
}

/// A group's length does not depend on which value is taken.
proof fn lemma_tagged_len(
    rs: Seq<UsageV>,
    tags: Seq<Option<i64>>,
    k: i64,
    f: spec_fn(UsageV) -> i64,
    h: spec_fn(UsageV) -> i64,
    n: int,
)
    ensures
        tagged(rs, tags, k, f, n).len() == tagged(rs, tags, k, h, n).len(),
    decreases n,
{
    if n > 0 {
        lemma_tagged_len(rs, tags, k, f, h, n - 1);
    }
}

/// Once a running total overflows, the total over more rows does too.
pub proof fn lemma_overflow_stays(
    rs: Seq<UsageV>,
    tags: Seq<Option<i64>>,
    k: i64,
    f: spec_fn(UsageV) -> i64,
    n: int,
    m: int,
)
    requires
        0 <= n <= m,
        checked_sum(tagged(rs, tags, k, f, n)) is None,
    ensures
        checked_sum(tagged(rs, tags, k, f, m)) is None,
    decreases m - n,
{
    if n < m {
        lemma_overflow_stays(rs, tags, k, f, n, m - 1);
        let p = tagged(rs, tags, k, f, m - 1);
        assert(p.push(f(rs[m - 1])).drop_last() =~= p);
    }
}

/// Groups the rows by tag (rows tagged `None` are left out), ascending by tag.
pub fn group_rows(rows: &Vec<UsageRow>, tags: &Vec<Option<i64>>) -> (r: Result<Vec<Group>, DbError>)
    requires
        rows@.len() == tags@.len(),
    ensures
        match r {
            Ok(g) => !group_overflows(view_seq(rows@), tags@) && is_grouping(view_seq(rows@), tags@, g@),
            Err(e) => e == DbError::IntegerOverflow && group_overflows(view_seq(rows@), tags@),
        },
{
    let ghost rs = view_seq(rows@);
    let mut g: Vec<Group> = Vec::new();
    let mut k: usize = 0;
    while k < rows.len()
        invariant
            rs == view_seq(rows@),
            rows@.len() == tags@.len(),
            k <= rows@.len(),
            forall|i: int, j: int| 0 <= i < j < g@.len() ==> #[trigger] g@[i].key < #[trigger] g@[j].key,
            forall|i: int|
                0 <= i < g@.len() ==> {
                    &&& tagged(rs, tags@, #[trigger] g@[i].key, ts_of(), k as int).len() > 0
                    &&& checked_sum(tagged(rs, tags@, g@[i].key, sent_of(), k as int)) == Some(g@[i].sent)
                    &&& checked_sum(tagged(rs, tags@, g@[i].key, recv_of(), k as int)) == Some(g@[i].recv)
                    &&& g@[i].last_ts == seq_max(tagged(rs, tags@, g@[i].key, ts_of(), k as int))
                },
            forall|j: int|
                0 <= j < k && (#[trigger] tags@[j]) is Some ==> exists|i: int|
                    0 <= i < g@.len() && g@[i].key == tags@[j]->0,
        decreases rows@.len() - k,
    {
        let ghost g0 = g@;
        let ghost kk = k as int;
        match tags[k] {
            None => {
                assert forall|key: i64, f: spec_fn(UsageV) -> i64|
                    tagged(rs, tags@, key, f, kk + 1) == #[trigger] tagged(rs, tags@, key, f, kk) by {}
            },
            Some(t) => {
                let row = &rows[k];
                assert(rs[kk] == row@);
                let mut p: usize = 0;
                while p < g.len() && g[p].key < t
                    invariant
                        p <= g@.len(),
                        forall|i: int| 0 <= i < p ==> (#[trigger] g@[i]).key < t,
                    decreases g@.len() - p,
                {
                    p = p + 1;
                }
                assert forall|key: i64, f: spec_fn(UsageV) -> i64|
                    key != t ==> tagged(rs, tags@, key, f, kk + 1) == #[trigger] tagged(
                        rs,
                        tags@,
                        key,
                        f,
                        kk,
                    ) by {}
                if p < g.len() && g[p].key == t {
                    let cur = g[p];
                    let ghost ps = tagged(rs, tags@, t, sent_of(), kk);
                    let ghost pr = tagged(rs, tags@, t, recv_of(), kk);
                    let ghost pt = tagged(rs, tags@, t, ts_of(), kk);
                    assert(tagged(rs, tags@, t, sent_of(), kk + 1) == ps.push(row.bytes_sent));
                    assert(tagged(rs, tags@, t, recv_of(), kk + 1) == pr.push(row.bytes_recv));
                    assert(tagged(rs, tags@, t, ts_of(), kk + 1) == pt.push(row.ts));
                    assert(ps.push(row.bytes_sent).drop_last() =~= ps);
                    assert(pr.push(row.bytes_recv).drop_last() =~= pr);
                    assert(pt.push(row.ts).drop_last() =~= pt);
                    let s = match cur.sent.checked_add(row.bytes_sent) {
                        Some(v) => v,
                        None => {
                            proof {
                                lemma_overflow_stays(rs, tags@, t, sent_of(), kk + 1, rs.len() as int);
                                assert(checked_sum(tagged(rs, tags@, t, sent_of(), rs.len() as int)) is None);
                            }
                            return Err(DbError::IntegerOverflow);
                        },
                    };
                    let rv = match cur.recv.checked_add(row.bytes_recv) {
                        Some(v) => v,
                        None => {
                            proof {
                                lemma_overflow_stays(rs, tags@, t, recv_of(), kk + 1, rs.len() as int);
                                assert(checked_sum(tagged(rs, tags@, t, recv_of(), rs.len() as int)) is None);
                            }
                            return Err(DbError::IntegerOverflow);
                        },
                    };
                    let lt = if cur.last_ts < row.ts {
                        row.ts
                    } else {
                        cur.last_ts
                    };
                    g.set(p, Group { key: t, sent: s, recv: rv, last_ts: lt });
                    assert forall|j: int| 0 <= j < kk + 1 && (#[trigger] tags@[j]) is Some implies exists|i: int|
                        0 <= i < g@.len() && g@[i].key == tags@[j]->0 by {
                        if j < kk {
                            let i = choose|i: int| 0 <= i < g0.len() && g0[i].key == tags@[j]->0;
                            assert(g@[i].key == g0[i].key);
                        } else {
                            assert(g@[p as int].key == t);
                        }
                    }
                } else {
                    let ghost ps = tagged(rs, tags@, t, sent_of(), kk);
                    proof {
                        if ps.len() > 0 {
                            lemma_tagged_witness(rs, tags@, t, sent_of(), kk);
                            let j = choose|j: int| 0 <= j < kk && tags@[j] == Some(t);
                            assert(tags@[j] is Some);
                            let i = choose|i: int| 0 <= i < g0.len() && g0[i].key == tags@[j]->0;
                            if i < p {
                            } else if i > p {
                                assert(g0[p as int].key < g0[i].key);
                            }
                        }
                        lemma_tagged_len(rs, tags@, t, sent_of(), recv_of(), kk);
                        lemma_tagged_len(rs, tags@, t, sent_of(), ts_of(), kk);
                    }
                    assert(tagged(rs, tags@, t, sent_of(), kk) =~= Seq::<i64>::empty());
                    assert(tagged(rs, tags@, t, recv_of(), kk) =~= Seq::<i64>::empty());
                    assert(tagged(rs, tags@, t, ts_of(), kk) =~= Seq::<i64>::empty());
                    assert(tagged(rs, tags@, t, sent_of(), kk + 1) =~= seq![row.bytes_sent]);
                    assert(tagged(rs, tags@, t, recv_of(), kk + 1) =~= seq![row.bytes_recv]);
                    assert(tagged(rs, tags@, t, ts_of(), kk + 1) =~= seq![row.ts]);
                    assert(seq![row.bytes_sent].drop_last() =~= Seq::<i64>::empty());
                    assert(seq![row.bytes_recv].drop_last() =~= Seq::<i64>::empty());
                    g.insert(p, Group { key: t, sent: row.bytes_sent, recv: row.bytes_recv, last_ts: row.ts });
                    proof {
                        g0.insert_ensures(p as int, Group { key: t, sent: row.bytes_sent, recv: row.bytes_recv, last_ts: row.ts });
                    }
                    assert forall|i: int, j: int| 0 <= i < j < g@.len() implies #[trigger] g@[i].key
                        < #[trigger] g@[j].key by {
                        if j < p {
                        } else if j == p {
                        } else if i < p {
                            assert(g@[j].key == g0[j - 1].key);
                            if j - 1 > p {
                                assert(g0[p as int].key < g0[j - 1].key);
                            }
                        } else if i == p {
                            if j - 1 > p {
                                assert(g0[p as int].key < g0[j - 1].key);
                            }
                        } else {
                            assert(g@[i].key == g0[i - 1].key);
                            assert(g@[j].key == g0[j - 1].key);
                        }
                    }
                    assert forall|i: int| 0 <= i < g@.len() implies {
                        &&& tagged(rs, tags@, #[trigger] g@[i].key, ts_of(), kk + 1).len() > 0
                        &&& checked_sum(tagged(rs, tags@, g@[i].key, sent_of(), kk + 1)) == Some(g@[i].sent)
                        &&& checked_sum(tagged(rs, tags@, g@[i].key, recv_of(), kk + 1)) == Some(g@[i].recv)
                        &&& g@[i].last_ts == seq_max(tagged(rs, tags@, g@[i].key, ts_of(), kk + 1))
                    } by {
                        let gi = g@[i];
                        if i != p {
                            if i < p {
                                assert(gi == g0[i]);
                            } else {
                                assert(gi == g0[i - 1]);
                                assert(g0[p as int].key <= g0[i - 1].key);
                            }
                            assert(gi.key != t);
                            assert(tagged(rs, tags@, gi.key, ts_of(), kk + 1) == tagged(rs, tags@, gi.key, ts_of(), kk));
                            assert(tagged(rs, tags@, gi.key, sent_of(), kk + 1) == tagged(rs, tags@, gi.key, sent_of(), kk));
                            assert(tagged(rs, tags@, gi.key, recv_of(), kk + 1) == tagged(rs, tags@, gi.key, recv_of(), kk));
                        } else {
                            assert(gi.key == t);
                            assert(gi.sent == row.bytes_sent);
                            assert(checked_sum(seq![row.bytes_sent]) == Some(row.bytes_sent));
                            assert(checked_sum(seq![row.bytes_recv]) == Some(row.bytes_recv));
                            assert(seq_max(seq![row.ts]) == row.ts);
                        }
                    }
                    assert forall|j: int| 0 <= j < kk + 1 && (#[trigger] tags@[j]) is Some implies exists|i: int|
                        0 <= i < g@.len() && g@[i].key == tags@[j]->0 by {
                        if j < kk {
                            let i = choose|i: int| 0 <= i < g0.len() && g0[i].key == tags@[j]->0;
                            if i < p {
                                assert(g@[i] == g0[i]);
                            } else {
                                assert(g@[i + 1] == g0[i]);
                            }
                        } else {
                            assert(g@[p as int].key == t);
                        }
                    }
                }
            },
        }
        k = k + 1;
    }
    proof {
        let n = rs.len() as int;
        assert forall|key: i64|
            !(checked_sum(#[trigger] tagged(rs, tags@, key, sent_of(), n)) is None
                || checked_sum(tagged(rs, tags@, key, recv_of(), n)) is None) by {
            if exists|i: int| 0 <= i < g@.len() && g@[i].key == key {
                let i = choose|i: int| 0 <= i < g@.len() && g@[i].key == key;
                assert(g@[i].key == key);
            } else {
                if tagged(rs, tags@, key, sent_of(), n).len() > 0 {
                    lemma_tagged_witness(rs, tags@, key, sent_of(), n);
                    let j = choose|j: int| 0 <= j < n && tags@[j] == Some(key);
                    assert(tags@[j] is Some);
                }
                lemma_tagged_len(rs, tags@, key, sent_of(), recv_of(), n);
                assert(tagged(rs, tags@, key, sent_of(), n) =~= Seq::<i64>::empty());
                assert(tagged(rs, tags@, key, recv_of(), n) =~= Seq::<i64>::empty());
            }
        }
    }
    Ok(g)
}

} // verus!
