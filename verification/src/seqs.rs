use vstd::prelude::*;

verus! {

/// The index of the first element at or after `i` that satisfies `p`, or -1.
pub open spec fn first_from<T>(s: Seq<T>, p: spec_fn(T) -> bool, i: int) -> int
    decreases s.len() - i,
{
    if i < 0 || i >= s.len() {
        -1
    } else if p(s[i]) {
        i
    } else {
        first_from(s, p, i + 1)
    }
}

/// The index of the first element that satisfies `p`, or -1.
pub open spec fn first_index<T>(s: Seq<T>, p: spec_fn(T) -> bool) -> int {
    first_from(s, p, 0)
}

/// A search that saw no match before `k` and a match at `k` found the first match.
pub proof fn lemma_first_found<T>(s: Seq<T>, p: spec_fn(T) -> bool, k: int)
    requires
        0 <= k < s.len(),
        p(s[k]),
        forall|j: int| 0 <= j < k ==> !p(#[trigger] s[j]),
    ensures
        first_index(s, p) == k,
{
    lemma_first_from_skip(s, p, 0, k);
}

/// A search that saw no match at all finds none.
pub proof fn lemma_first_none<T>(s: Seq<T>, p: spec_fn(T) -> bool)
    requires
        forall|j: int| 0 <= j < s.len() ==> !p(#[trigger] s[j]),
    ensures
        first_index(s, p) == -1,
{
    lemma_first_from_skip(s, p, 0, s.len() as int);
}

proof fn lemma_first_from_skip<T>(s: Seq<T>, p: spec_fn(T) -> bool, i: int, k: int)
    requires
        0 <= i <= k <= s.len(),
        forall|j: int| i <= j < k ==> !p(#[trigger] s[j]),
    ensures
        first_from(s, p, i) == first_from(s, p, k),
    decreases k - i,
{
    if i < k {
        lemma_first_from_skip(s, p, i + 1, k);
    }
}

/// The first match is a match, and nothing before it matches.
pub proof fn lemma_first_index_props<T>(s: Seq<T>, p: spec_fn(T) -> bool)
    ensures
        -1 <= first_index(s, p) < s.len(),
        first_index(s, p) >= 0 ==> p(s[first_index(s, p)]),
        first_index(s, p) >= 0 ==> forall|j: int| 0 <= j < first_index(s, p) ==> !p(#[trigger] s[j]),
        first_index(s, p) == -1 ==> forall|j: int| 0 <= j < s.len() ==> !p(#[trigger] s[j]),
{
    lemma_first_from_props(s, p, 0);
}

proof fn lemma_first_from_props<T>(s: Seq<T>, p: spec_fn(T) -> bool, i: int)
    requires
        0 <= i,
    ensures
        first_from(s, p, i) == -1 || (i <= first_from(s, p, i) < s.len()),
        first_from(s, p, i) >= 0 ==> p(s[first_from(s, p, i)]),
        first_from(s, p, i) >= 0 ==> forall|j: int| i <= j < first_from(s, p, i) ==> !p(#[trigger] s[j]),
        first_from(s, p, i) == -1 ==> forall|j: int| i <= j < s.len() ==> !p(#[trigger] s[j]),
    decreases s.len() - i,
{
    if i < s.len() && !p(s[i]) {
        lemma_first_from_props(s, p, i + 1);
    }
}

} // verus!

verus! {

/// Replace the first element that satisfies `p` by `new`, or append `new` when none does:
/// an insert-or-update keyed by `p`.
pub open spec fn upsert_first<T>(s: Seq<T>, p: spec_fn(T) -> bool, new: T) -> Seq<T> {
    let i = first_index(s, p);
    if i >= 0 {
        s.update(i, new)
    } else {
        s.push(new)
    }
}

/// After an upsert, a search by a key that neither the new element nor any element of the
/// upserted key has finds what it found before.
pub proof fn lemma_upsert_first_other<T>(
    s: Seq<T>,
    p: spec_fn(T) -> bool,
    q: spec_fn(T) -> bool,
    new: T,
)
    requires
        !q(new),
        forall|x: T| #[trigger] p(x) ==> !q(x),
    ensures
        first_index(upsert_first(s, p, new), q) == first_index(s, q),
        first_index(s, q) >= 0 ==> upsert_first(s, p, new)[first_index(s, q)] == s[first_index(
            s,
            q,
        )],
{
    let s2 = upsert_first(s, p, new);
    let i = first_index(s, p);
    lemma_first_index_props(s, p);
    lemma_first_index_props(s, q);
    let k = first_index(s, q);
    if k >= 0 {
        assert forall|j: int| 0 <= j < k implies !q(#[trigger] s2[j]) by {
            if j != i {
                assert(s2[j] == s[j]);
            }
        }
        if k == i {
            assert(false);
        }
        assert(s2[k] == s[k]);
        lemma_first_found(s2, q, k);
    } else {
        assert forall|j: int| 0 <= j < s2.len() implies !q(#[trigger] s2[j]) by {
            if j < s.len() && j != i {
                assert(s2[j] == s[j]);
            }
        }
        lemma_first_none(s2, q);
    }
}

/// After an upsert, a search by the upserted key finds the new element.
pub proof fn lemma_upsert_first_same<T>(s: Seq<T>, p: spec_fn(T) -> bool, new: T)
    requires
        p(new),
    ensures
        first_index(upsert_first(s, p, new), p) >= 0,
        upsert_first(s, p, new)[first_index(upsert_first(s, p, new), p)] == new,
{
    let s2 = upsert_first(s, p, new);
    let i = first_index(s, p);
    lemma_first_index_props(s, p);
    if i >= 0 {
        assert forall|j: int| 0 <= j < i implies !p(#[trigger] s2[j]) by {
            assert(s2[j] == s[j]);
        }
        lemma_first_found(s2, p, i);
    } else {
        assert forall|j: int| 0 <= j < s.len() implies !p(#[trigger] s2[j]) by {
            assert(s2[j] == s[j]);
        }
        lemma_first_found(s2, p, s.len() as int);
    }
}

} // verus!

verus! {

/// The elements that satisfy `p`, in order.
pub open spec fn keep<T>(s: Seq<T>, p: spec_fn(T) -> bool) -> Seq<T>
    decreases s.len(),
{
    if s.len() == 0 {
        Seq::empty()
    } else if p(s.last()) {
        keep(s.drop_last(), p).push(s.last())
    } else {
        keep(s.drop_last(), p)
    }
}

/// Extending a prefix by one element extends what is kept by that element when it is kept.
pub proof fn lemma_keep_step<T>(s: Seq<T>, p: spec_fn(T) -> bool, i: int)
    requires
        0 <= i < s.len(),
    ensures
        keep(s.subrange(0, i + 1), p) == (if p(s[i]) {
            keep(s.subrange(0, i), p).push(s[i])
        } else {
            keep(s.subrange(0, i), p)
        }),
{
    assert(s.subrange(0, i + 1).drop_last() =~= s.subrange(0, i));
}

/// What is kept is no longer than the whole.
pub proof fn lemma_keep_len<T>(s: Seq<T>, p: spec_fn(T) -> bool)
    ensures
        keep(s, p).len() <= s.len(),
    decreases s.len(),
{
    if s.len() > 0 {
        lemma_keep_len(s.drop_last(), p);
    }
}

/// Every kept element satisfies `p` and comes from the sequence; every element of the
/// sequence that satisfies `p` is kept.
pub proof fn lemma_keep_members<T>(s: Seq<T>, p: spec_fn(T) -> bool)
    ensures
        forall|i: int| 0 <= i < keep(s, p).len() ==> p(#[trigger] keep(s, p)[i]) && s.contains(
            keep(s, p)[i],
        ),
        forall|i: int| 0 <= i < s.len() && p(#[trigger] s[i]) ==> keep(s, p).contains(s[i]),
    decreases s.len(),
{
    if s.len() > 0 {
        let init = s.drop_last();
        lemma_keep_members(init, p);
        let k0 = keep(init, p);
        let k = keep(s, p);
        assert forall|i: int| 0 <= i < k.len() implies p(#[trigger] k[i]) && s.contains(k[i]) by {
            if i < k0.len() {
                assert(k[i] == k0[i]);
                let j = choose|j: int| 0 <= j < init.len() && init[j] == k0[i];
                assert(s[j] == init[j]);
            } else {
                assert(s[s.len() - 1] == s.last());
            }
        }
        assert forall|i: int| 0 <= i < s.len() && p(#[trigger] s[i]) implies k.contains(s[i]) by {
            if i < s.len() - 1 {
                assert(init[i] == s[i]);
                let j = choose|j: int| 0 <= j < k0.len() && k0[j] == init[i];
                assert(k[j] == k0[j]);
            } else {
                assert(k[k.len() - 1] == s.last());
            }
        }
    }
}

/// Keeping everything keeps the sequence.
pub proof fn lemma_keep_all<T>(s: Seq<T>, p: spec_fn(T) -> bool)
    requires
        forall|i: int| 0 <= i < s.len() ==> p(#[trigger] s[i]),
    ensures
        keep(s, p) == s,
    decreases s.len(),
{
    if s.len() > 0 {
        lemma_keep_all(s.drop_last(), p);
        assert(s.drop_last().push(s.last()) =~= s);
    }
}

} // verus!
