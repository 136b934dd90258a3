use vstd::prelude::*;
use super::view_seq;

verus! {

/// Lexicographic comparison of two strings by code point: negative, zero or positive.
pub open spec fn str_order(a: Seq<char>, b: Seq<char>) -> int
    decreases a.len(),
{
    if a.len() == 0 {
        if b.len() == 0 {
            0
        } else {
            -1
        }
    } else if b.len() == 0 {
        1
    } else if a[0] < b[0] {
        -1
    } else if a[0] > b[0] {
        1
    } else {
        str_order(a.drop_first(), b.drop_first())
    }
}

pub open spec fn int_order(a: int, b: int) -> int {
    if a < b {
        -1
    } else if a > b {
        1
    } else {
        0
    }
}

pub open spec fn chain(c: int, rest: int) -> int {
    if c != 0 {
        c
    } else {
        rest
    }
}

/// An ordering key: two strings, three numbers, two more strings, then the id, compared
/// in that order; `pos` says where the keyed item stands.
pub struct SortKey {
    pub s0: Vec<char>,
    pub s1: Vec<char>,
    pub n1: i128,
    pub n2: i128,
    pub n3: i128,
    pub s2: Vec<char>,
    pub s3: Vec<char>,
    pub id: i128,
    pub pos: usize,
}

pub struct KeyV {
    pub s0: Seq<char>,
    pub s1: Seq<char>,
    pub n1: int,
    pub n2: int,
    pub n3: int,
    pub s2: Seq<char>,
    pub s3: Seq<char>,
    pub id: int,
    pub pos: int,
}

impl View for SortKey {
    type V = KeyV;

    open spec fn view(&self) -> KeyV {
        KeyV {
            s0: self.s0@,
            s1: self.s1@,
            n1: self.n1 as int,
            n2: self.n2 as int,
            n3: self.n3 as int,
            s2: self.s2@,
            s3: self.s3@,
            id: self.id as int,
            pos: self.pos as int,
        }
    }
}

/// The order of keys: negative when `a` comes first.
pub open spec fn key_order(a: KeyV, b: KeyV) -> int {
    chain(
        str_order(a.s0, b.s0),
        chain(
            str_order(a.s1, b.s1),
            chain(
                int_order(a.n1, b.n1),
                chain(
                    int_order(a.n2, b.n2),
                    chain(
                        int_order(a.n3, b.n3),
                        chain(
                            str_order(a.s2, b.s2),
                            chain(str_order(a.s3, b.s3), int_order(a.id, b.id)),
                        ),
                    ),
                ),
            ),
        ),
    )
}

/// `s` holds the keys of `src` (whose ids differ) in ascending order.
pub open spec fn sorted_from(src: Seq<KeyV>, s: Seq<KeyV>) -> bool {
    &&& s.len() == src.len()
    &&& forall|i: int, j: int| 0 <= i < j < s.len() ==> key_order(#[trigger] s[i], #[trigger] s[j]) < 0
    &&& forall|x: KeyV| s.contains(x) <==> src.contains(x)
}

pub open spec fn distinct_ids(src: Seq<KeyV>) -> bool {
    forall|i: int, j: int| 0 <= i < j < src.len() ==> (#[trigger] src[i]).id != (#[trigger] src[j]).id
}

proof fn lemma_str_order(a: Seq<char>, b: Seq<char>, c: Seq<char>)
    ensures
        str_order(a, b) == -str_order(b, a),
        -1 <= str_order(a, b) <= 1,
        str_order(a, b) == 0 <==> a == b,
        str_order(a, b) < 0 && str_order(b, c) < 0 ==> str_order(a, c) < 0,
    decreases a.len(),
{
    if a.len() > 0 && b.len() > 0 {
        let c2 = if c.len() > 0 {
            c.drop_first()
        } else {
            c
        };
        lemma_str_order(a.drop_first(), b.drop_first(), c2);
        if a.drop_first() == b.drop_first() && a[0] == b[0] {
            assert(a =~= seq![a[0]] + a.drop_first());
            assert(b =~= seq![b[0]] + b.drop_first());
        }
        if a == b {
            assert(a.drop_first() =~= b.drop_first());
        }
    } else {
        if a.len() == 0 && b.len() == 0 {
            assert(a =~= b);
        }
    }
}

/// The key order is a strict total order on keys with distinct ids.
pub proof fn lemma_key_order(a: KeyV, b: KeyV, c: KeyV)
    ensures
        key_order(a, b) == -key_order(b, a),
        key_order(a, b) == 0 ==> a.id == b.id,
        key_order(a, b) < 0 && key_order(b, c) < 0 ==> key_order(a, c) < 0,
{
    lemma_str_order(a.s0, b.s0, c.s0);
    lemma_str_order(a.s1, b.s1, c.s1);
    lemma_str_order(a.s2, b.s2, c.s2);
    lemma_str_order(a.s3, b.s3, c.s3);
    lemma_str_order(a.s0, c.s0, b.s0);
    lemma_str_order(a.s1, c.s1, b.s1);
    lemma_str_order(a.s2, c.s2, b.s2);
    lemma_str_order(a.s3, c.s3, b.s3);
    lemma_str_order(b.s0, c.s0, a.s0);
    lemma_str_order(b.s1, c.s1, a.s1);
    lemma_str_order(b.s2, c.s2, a.s2);
    lemma_str_order(b.s3, c.s3, a.s3);
}

/// Compares two strings by code point.
pub fn compare_chars(a: &Vec<char>, b: &Vec<char>) -> (r: i8)
    ensures
        r == str_order(a@, b@),
{
    let mut k: usize = 0;
    assert(a@.subrange(0, a@.len() as int) =~= a@);
    assert(b@.subrange(0, b@.len() as int) =~= b@);
    while k < a.len() && k < b.len()
        invariant
            k <= a@.len(),
            k <= b@.len(),
            str_order(a@, b@) == str_order(a@.subrange(k as int, a@.len() as int), b@.subrange(k as int, b@.len() as int)),
        decreases a@.len() - k,
    {
        let x = a[k];
        let y = b[k];
        let ghost sa = a@.subrange(k as int, a@.len() as int);
        let ghost sb = b@.subrange(k as int, b@.len() as int);
        assert(sa[0] == x && sb[0] == y);
        if x < y {
            return -1;
        }
        if x > y {
            return 1;
        }
        assert(sa.drop_first() =~= a@.subrange(k + 1, a@.len() as int));
        assert(sb.drop_first() =~= b@.subrange(k + 1, b@.len() as int));
        k = k + 1;
    }
    if k < a.len() {
        1
    } else if k < b.len() {
        -1
    } else {
        0
    }
}

fn compare_ints(a: i128, b: i128) -> (r: i8)
    ensures
        r == int_order(a as int, b as int),
{
    if a < b {
        -1
    } else if a > b {
        1
    } else {
        0
    }
}

pub fn compare_keys(a: &SortKey, b: &SortKey) -> (r: i8)
    ensures
        r == key_order(a@, b@),
{
    let c = compare_chars(&a.s0, &b.s0);
    if c != 0 {
        return c;
    }
    let c = compare_chars(&a.s1, &b.s1);
    if c != 0 {
        return c;
    }
    let c = compare_ints(a.n1, b.n1);
    if c != 0 {
        return c;
    }
    let c = compare_ints(a.n2, b.n2);
    if c != 0 {
        return c;
    }
    let c = compare_ints(a.n3, b.n3);
    if c != 0 {
        return c;
    }
    let c = compare_chars(&a.s2, &b.s2);
    if c != 0 {
        return c;
    }
    let c = compare_chars(&a.s3, &b.s3);
    if c != 0 {
        return c;
    }
    compare_ints(a.id, b.id)
}

proof fn lemma_insert_sorted(ov: Seq<KeyV>, x: KeyV, p: int, src: Seq<KeyV>, m: int)
    requires
        0 <= m < src.len(),
        0 <= p <= ov.len(),
        distinct_ids(src),
        x == src[m],
        forall|i: int, j: int| 0 <= i < j < ov.len() ==> key_order(#[trigger] ov[i], #[trigger] ov[j]) < 0,
        forall|y: KeyV| ov.contains(y) <==> src.subrange(m + 1, src.len() as int).contains(y),
        forall|i: int| 0 <= i < p ==> key_order(x, #[trigger] ov[i]) > 0,
        p < ov.len() ==> key_order(x, ov[p]) <= 0,
    ensures
        forall|i: int, j: int|
            0 <= i < j < ov.insert(p, x).len() ==> key_order(#[trigger] ov.insert(p, x)[i], #[trigger] ov.insert(p, x)[j]) < 0,
        forall|y: KeyV| ov.insert(p, x).contains(y) <==> src.subrange(m, src.len() as int).contains(y),
{
    let n = src.len() as int;
    let nv = ov.insert(p, x);
    ov.insert_ensures(p, x);
    if p < ov.len() {
        assert(ov.contains(ov[p]));
        let q = choose|q: int| 0 <= q < n - m - 1 && #[trigger] src.subrange(m + 1, n)[q] == ov[p];
        assert(src[m + 1 + q] == ov[p]);
        lemma_key_order(x, ov[p], x);
        assert(key_order(x, ov[p]) < 0);
    }
    assert forall|i: int, j: int| 0 <= i < j < nv.len() implies key_order(#[trigger] nv[i], #[trigger] nv[j]) < 0 by {
        if j < p {
            assert(nv[i] == ov[i] && nv[j] == ov[j]);
        } else if j == p {
            assert(nv[i] == ov[i]);
            lemma_key_order(x, ov[i], x);
        } else if i < p {
            assert(nv[i] == ov[i] && nv[j] == ov[j - 1]);
            lemma_key_order(ov[i], x, ov[j - 1]);
            lemma_key_order(x, ov[i], x);
            if j - 1 > p {
                lemma_key_order(x, ov[p], ov[j - 1]);
            }
        } else if i == p {
            assert(nv[j] == ov[j - 1]);
            if j - 1 > p {
                lemma_key_order(x, ov[p], ov[j - 1]);
            }
        } else {
            assert(nv[i] == ov[i - 1] && nv[j] == ov[j - 1]);
        }
    }
    assert forall|y: KeyV| nv.contains(y) <==> src.subrange(m, n).contains(y) by {
        if nv.contains(y) {
            let i = choose|i: int| 0 <= i < nv.len() && #[trigger] nv[i] == y;
            if i == p {
                assert(src.subrange(m, n)[0] == y);
            } else {
                let i2 = if i < p { i } else { i - 1 };
                assert(ov[i2] == y);
                assert(ov.contains(y));
                let q = choose|q: int| 0 <= q < n - m - 1 && #[trigger] src.subrange(m + 1, n)[q] == y;
                assert(src.subrange(m, n)[q + 1] == y);
            }
        }
        if src.subrange(m, n).contains(y) {
            let q = choose|q: int| 0 <= q < n - m && #[trigger] src.subrange(m, n)[q] == y;
            if q == 0 {
                assert(nv[p] == y);
            } else {
                assert(src.subrange(m + 1, n)[q - 1] == y);
                assert(src.subrange(m + 1, n).contains(y));
                assert(ov.contains(y));
                let i = choose|i: int| 0 <= i < ov.len() && #[trigger] ov[i] == y;
                if i < p {
                    assert(nv[i] == y);
                } else {
                    assert(nv[i + 1] == y);
                }
            }
        }
    }
}

proof fn lemma_view_insert(s: Seq<SortKey>, p: int, x: SortKey)
    requires
        0 <= p <= s.len(),
    ensures
        view_seq(s.insert(p, x)) == view_seq(s).insert(p, x@),
{
    s.insert_ensures(p, x);
    view_seq(s).insert_ensures(p, x@);
    assert(view_seq(s.insert(p, x)) =~= view_seq(s).insert(p, x@));
}

/// Sorts keys with distinct ids into ascending key order.
pub fn sort_keys(keys: Vec<SortKey>) -> (r: Vec<SortKey>)
    requires
        distinct_ids(view_seq(keys@)),
    ensures
        sorted_from(view_seq(keys@), view_seq(r@)),
{
    let ghost src = view_seq(keys@);
    let ghost n = src.len() as int;
    let mut rest = keys;
    let mut out: Vec<SortKey> = Vec::new();
    while rest.len() > 0
        invariant
            view_seq(rest@) == src.subrange(0, rest@.len() as int),
            rest@.len() <= n == src.len(),
            distinct_ids(src),
            view_seq(out@).len() == n - rest@.len(),
            forall|i: int, j: int|
                0 <= i < j < out@.len() ==> key_order(#[trigger] view_seq(out@)[i], #[trigger] view_seq(out@)[j]) < 0,
            forall|y: KeyV| view_seq(out@).contains(y) <==> src.subrange(rest@.len() as int, n).contains(y),
        decreases rest@.len(),
    {
        let ghost m = rest@.len() - 1;
        let ghost before = rest@;
        let x = rest.pop().unwrap();
        let ghost ov = view_seq(out@);
        proof {
            assert(x == before[m]);
            assert(view_seq(before)[m] == before[m]@);
            assert(src.subrange(0, m + 1)[m] == src[m]);
            assert(x@ == src[m]);
            assert(view_seq(rest@) =~= src.subrange(0, m));
        }
        let mut p: usize = 0;
        while p < out.len() && compare_keys(&x, &out[p]) > 0
            invariant
                p <= out@.len(),
                ov == view_seq(out@),
                forall|i: int| 0 <= i < p ==> key_order(x@, #[trigger] ov[i]) > 0,
            decreases out@.len() - p,
        {
            p = p + 1;
        }
        proof {
            lemma_insert_sorted(ov, x@, p as int, src, m);
        }
        let ghost os = out@;
        out.insert(p, x);
        proof {
            lemma_view_insert(os, p as int, x);
        }
    }
    assert(src.subrange(0, n) =~= src);
    out
}

/// Two strictly ordered sequences with the same elements are the same sequence.
pub proof fn lemma_sorted_unique(a: Seq<KeyV>, b: Seq<KeyV>)
    requires
        a.len() == b.len(),
        forall|i: int, j: int| 0 <= i < j < a.len() ==> key_order(#[trigger] a[i], #[trigger] a[j]) < 0,
        forall|i: int, j: int| 0 <= i < j < b.len() ==> key_order(#[trigger] b[i], #[trigger] b[j]) < 0,
        forall|x: KeyV| a.contains(x) <==> b.contains(x),
    ensures
        a == b,
    decreases a.len(),
{
    if a.len() > 0 {
        assert(a.contains(a[0]));
        assert(b.contains(b[0]));
        let j = choose|j: int| 0 <= j < b.len() && b[j] == a[0];
        let k = choose|k: int| 0 <= k < a.len() && a[k] == b[0];
        if a[0] != b[0] {
            assert(j > 0 && k > 0);
            assert(key_order(b[0], b[j]) < 0);
            assert(key_order(a[0], a[k]) < 0);
            lemma_key_order(a[0], b[0], a[0]);
            assert(false);
        }
        let a1 = a.drop_first();
        let b1 = b.drop_first();
        assert forall|x: KeyV| a1.contains(x) <==> b1.contains(x) by {
            if a1.contains(x) {
                let p = choose|p: int| 0 <= p < a1.len() && a1[p] == x;
                assert(a[p + 1] == x);
                assert(key_order(a[0], a[p + 1]) < 0);
                lemma_key_order(a[0], x, a[0]);
                assert(a.contains(x));
                let q = choose|q: int| 0 <= q < b.len() && b[q] == x;
                assert(q != 0);
                assert(b1[q - 1] == x);
            }
            if b1.contains(x) {
                let p = choose|p: int| 0 <= p < b1.len() && b1[p] == x;
                assert(b[p + 1] == x);
                assert(key_order(b[0], b[p + 1]) < 0);
                lemma_key_order(b[0], x, b[0]);
                assert(b.contains(x));
                let q = choose|q: int| 0 <= q < a.len() && a[q] == x;
                assert(q != 0);
                assert(a1[q - 1] == x);
            }
        }
        assert forall|i: int, j: int| 0 <= i < j < a1.len() implies key_order(#[trigger] a1[i], #[trigger] a1[j]) < 0 by {
            assert(a1[i] == a[i + 1] && a1[j] == a[j + 1]);
        }
        assert forall|i: int, j: int| 0 <= i < j < b1.len() implies key_order(#[trigger] b1[i], #[trigger] b1[j]) < 0 by {
            assert(b1[i] == b[i + 1] && b1[j] == b[j + 1]);
        }
        lemma_sorted_unique(a1, b1);
        assert(a =~= seq![a[0]] + a1);
        assert(b =~= seq![b[0]] + b1);
    } else {
        assert(a =~= b);
    }
}

/// The ascending order of a sequence of keys is unique.
pub proof fn lemma_sorted_from_unique(src: Seq<KeyV>, a: Seq<KeyV>, b: Seq<KeyV>)
    requires
        sorted_from(src, a),
        sorted_from(src, b),
    ensures
        a == b,
{
    lemma_sorted_unique(a, b);
}

} // verus!
