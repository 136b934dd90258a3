use vstd::prelude::*;

verus! {

broadcast use vstd::string::group_string_axioms;

/// Appends one character to a string (std's `String::push`).
#[verifier::external_body]
fn push_char(s: &mut String, c: char)
    ensures
        final(s)@ == old(s)@.push(c),
{
    s.push(c);
}

/// The characters of a string slice, in order.
pub fn chars_of(s: &str) -> (v: Vec<char>)
    ensures
        v@ == s@,
{
    let mut it = s.chars();
    let mut v: Vec<char> = Vec::new();
    loop
        invariant
            v@ + vstd::std_specs::iter::IteratorSpec::remaining(&it) == s@,
        decreases s@.len() - v@.len(),
    {
        match it.next() {
            Some(c) => {
                v.push(c);
            },
            None => {
                return v;
            },
        }
    }
}

/// A string made of the given characters.
pub fn string_of(v: &[char]) -> (s: String)
    ensures
        s@ == v@,
{
    let mut s = String::new();
    let mut i: usize = 0;
    while i < v.len()
        invariant
            i <= v@.len(),
            s@ == v@.subrange(0, i as int),
        decreases v@.len() - i,
    {
        push_char(&mut s, v[i]);
        i = i + 1;
        assert(s@ =~= v@.subrange(0, i as int));
    }
    assert(v@.subrange(0, v@.len() as int) =~= v@);
    s
}

} // verus!

verus! {

/// A character that `str::trim` removes: Unicode `White_Space`.
pub open spec fn is_ws(c: char) -> bool {
    let u = c as u32;
    (0x9 <= u && u <= 0xd) || u == 0x20 || u == 0x85 || u == 0xa0 || u == 0x1680 || (0x2000 <= u
        && u <= 0x200a) || u == 0x2028 || u == 0x2029 || u == 0x202f || u == 0x205f || u == 0x3000
}

pub fn is_ws_exec(c: char) -> (r: bool)
    ensures
        r == is_ws(c),
{
    let u = c as u32;
    (0x9 <= u && u <= 0xd) || u == 0x20 || u == 0x85 || u == 0xa0 || u == 0x1680 || (0x2000 <= u
        && u <= 0x200a) || u == 0x2028 || u == 0x2029 || u == 0x202f || u == 0x205f || u == 0x3000
}

/// The sequence with leading whitespace removed.
pub open spec fn trim_start_seq(s: Seq<char>) -> Seq<char>
    decreases s.len(),
{
    if s.len() > 0 && is_ws(s[0]) {
        trim_start_seq(s.drop_first())
    } else {
        s
    }
}

/// The sequence with trailing whitespace removed.
pub open spec fn trim_end_seq(s: Seq<char>) -> Seq<char>
    decreases s.len(),
{
    if s.len() > 0 && is_ws(s.last()) {
        trim_end_seq(s.drop_last())
    } else {
        s
    }
}

/// What `str::trim` gives back.
pub open spec fn trim_seq(s: Seq<char>) -> Seq<char> {
    trim_end_seq(trim_start_seq(s))
}

/// The sequence with the given character stripped from both ends, as many times as it occurs.
pub open spec fn strip_start_seq(s: Seq<char>, c: char) -> Seq<char>
    decreases s.len(),
{
    if s.len() > 0 && s[0] == c {
        strip_start_seq(s.drop_first(), c)
    } else {
        s
    }
}

pub open spec fn strip_end_seq(s: Seq<char>, c: char) -> Seq<char>
    decreases s.len(),
{
    if s.len() > 0 && s.last() == c {
        strip_end_seq(s.drop_last(), c)
    } else {
        s
    }
}

/// What `str::trim_matches(c)` gives back for a single character `c`.
pub open spec fn strip_seq(s: Seq<char>, c: char) -> Seq<char> {
    strip_end_seq(strip_start_seq(s, c), c)
}

/// ASCII lower-casing of one character.
pub open spec fn lower_char(c: char) -> char {
    if 'A' <= c && c <= 'Z' {
        ((c as u32) + 32) as char
    } else {
        c
    }
}

/// What `str::to_ascii_lowercase` gives back.
pub open spec fn lower_seq(s: Seq<char>) -> Seq<char> {
    s.map_values(|c: char| lower_char(c))
}

/// The trimmed, lower-cased form in which the library compares keywords.
pub open spec fn keyword_seq(s: Seq<char>) -> Seq<char> {
    lower_seq(trim_seq(s))
}

pub open spec fn ends_with_seq(s: Seq<char>, suffix: Seq<char>) -> bool {
    s.len() >= suffix.len() && s.subrange(s.len() - suffix.len(), s.len() as int) == suffix
}

pub open spec fn is_path_sep(c: char) -> bool {
    c == '\\' || c == '/'
}

/// The part after the last `\` or `/` (the whole sequence when there is none):
/// what `s.rsplit(['\\', '/']).next()` gives back.
pub open spec fn last_segment_seq(s: Seq<char>) -> Seq<char>
    decreases s.len(),
{
    if s.len() == 0 {
        s
    } else if is_path_sep(s.last()) {
        Seq::empty()
    } else {
        last_segment_seq(s.drop_last()).push(s.last())
    }
}

proof fn lemma_trim_start_step(s: Seq<char>, i: int)
    requires
        0 <= i < s.len(),
        is_ws(s[i]),
    ensures
        trim_start_seq(s.subrange(i, s.len() as int)) == trim_start_seq(
            s.subrange(i + 1, s.len() as int),
        ),
{
    assert(s.subrange(i, s.len() as int).drop_first() =~= s.subrange(i + 1, s.len() as int));
}

proof fn lemma_trim_end_step(s: Seq<char>, i: int, j: int)
    requires
        0 <= i < j <= s.len(),
        is_ws(s[j - 1]),
    ensures
        trim_end_seq(s.subrange(i, j)) == trim_end_seq(s.subrange(i, j - 1)),
{
    assert(s.subrange(i, j).drop_last() =~= s.subrange(i, j - 1));
}

/// `str::trim` on a character vector.
pub fn trim_vec(v: &Vec<char>) -> (r: Vec<char>)
    ensures
        r@ == trim_seq(v@),
{
    let n = v.len();
    let mut i: usize = 0;
    assert(v@.subrange(0, n as int) =~= v@);
    while i < n && is_ws_exec(v[i])
        invariant
            i <= n == v@.len(),
            trim_start_seq(v@) == trim_start_seq(v@.subrange(i as int, n as int)),
        decreases n - i,
    {
        proof {
            lemma_trim_start_step(v@, i as int);
        }
        i = i + 1;
    }
    let ghost start = v@.subrange(i as int, n as int);
    assert(trim_start_seq(start) == start);
    let mut j: usize = n;
    while j > i && is_ws_exec(v[j - 1])
        invariant
            i <= j <= n == v@.len(),
            start == v@.subrange(i as int, n as int),
            trim_end_seq(start) == trim_end_seq(v@.subrange(i as int, j as int)),
        decreases j - i,
    {
        proof {
            lemma_trim_end_step(v@, i as int, j as int);
        }
        j = j - 1;
    }
    let mut r: Vec<char> = Vec::new();
    let mut k: usize = i;
    while k < j
        invariant
            i <= k <= j <= n == v@.len(),
            r@ == v@.subrange(i as int, k as int),
        decreases j - k,
    {
        r.push(v[k]);
        k = k + 1;
        assert(r@ =~= v@.subrange(i as int, k as int));
    }
    assert(trim_end_seq(v@.subrange(i as int, j as int)) == v@.subrange(i as int, j as int));
    r
}

} // verus!

verus! {

/// `str::trim_matches(c)` for one character, on a character vector.
pub fn strip_vec(v: &Vec<char>, c: char) -> (r: Vec<char>)
    ensures
        r@ == strip_seq(v@, c),
{
    let n = v.len();
    let mut i: usize = 0;
    assert(v@.subrange(0, n as int) =~= v@);
    while i < n && v[i] == c
        invariant
            i <= n == v@.len(),
            strip_start_seq(v@, c) == strip_start_seq(v@.subrange(i as int, n as int), c),
        decreases n - i,
    {
        assert(v@.subrange(i as int, n as int).drop_first() =~= v@.subrange(i + 1, n as int));
        i = i + 1;
    }
    let ghost start = v@.subrange(i as int, n as int);
    let mut j: usize = n;
    while j > i && v[j - 1] == c
        invariant
            i <= j <= n == v@.len(),
            start == v@.subrange(i as int, n as int),
            strip_end_seq(start, c) == strip_end_seq(v@.subrange(i as int, j as int), c),
        decreases j - i,
    {
        assert(v@.subrange(i as int, j as int).drop_last() =~= v@.subrange(i as int, j - 1));
        j = j - 1;
    }
    let mut r: Vec<char> = Vec::new();
    let mut k: usize = i;
    while k < j
        invariant
            i <= k <= j <= n == v@.len(),
            r@ == v@.subrange(i as int, k as int),
        decreases j - k,
    {
        r.push(v[k]);
        k = k + 1;
        assert(r@ =~= v@.subrange(i as int, k as int));
    }
    r
}

pub fn lower_char_exec(c: char) -> (r: char)
    ensures
        r == lower_char(c),
{
    if 'A' <= c && c <= 'Z' {
        let b: u8 = c as u8;
        assert(b as u32 == c as u32);
        ((b + 32) as char)
    } else {
        c
    }
}

/// `to_ascii_lowercase` on a character vector.
pub fn lower_vec(v: &Vec<char>) -> (r: Vec<char>)
    ensures
        r@ == lower_seq(v@),
{
    let mut r: Vec<char> = Vec::new();
    let mut k: usize = 0;
    while k < v.len()
        invariant
            k <= v@.len(),
            r@ == lower_seq(v@.subrange(0, k as int)),
        decreases v@.len() - k,
    {
        r.push(lower_char_exec(v[k]));
        k = k + 1;
        assert(r@ =~= lower_seq(v@.subrange(0, k as int)));
    }
    assert(v@.subrange(0, v@.len() as int) =~= v@);
    r
}

/// The trimmed, lower-cased characters of a string.
pub fn keyword(s: &str) -> (r: Vec<char>)
    ensures
        r@ == keyword_seq(s@),
{
    let v = chars_of(s);
    let t = trim_vec(&v);
    lower_vec(&t)
}

/// Whether two character vectors hold the same characters.
pub fn chars_eq(a: &Vec<char>, b: &Vec<char>) -> (r: bool)
    ensures
        r == (a@ == b@),
{
    if a.len() != b.len() {
        return false;
    }
    let mut k: usize = 0;
    while k < a.len()
        invariant
            k <= a@.len() == b@.len(),
            a@.subrange(0, k as int) == b@.subrange(0, k as int),
        decreases a@.len() - k,
    {
        if a[k] != b[k] {
            return false;
        }
        k = k + 1;
        assert(a@.subrange(0, k as int) =~= b@.subrange(0, k as int));
    }
    assert(a@ =~= a@.subrange(0, k as int));
    assert(b@ =~= b@.subrange(0, k as int));
    true
}

/// Whether the characters equal those of the given string.
pub fn chars_eq_str(a: &Vec<char>, s: &str) -> (r: bool)
    ensures
        r == (a@ == s@),
{
    let b = chars_of(s);
    chars_eq(a, &b)
}

pub fn ends_with_vec(v: &Vec<char>, suffix: &str) -> (r: bool)
    ensures
        r == ends_with_seq(v@, suffix@),
{
    let sfx = chars_of(suffix);
    if v.len() < sfx.len() {
        return false;
    }
    let off = v.len() - sfx.len();
    let mut k: usize = 0;
    while k < sfx.len()
        invariant
            off + sfx@.len() == v@.len(),
            sfx@ == suffix@,
            v@.len() <= usize::MAX,
            k <= sfx@.len(),
            forall|i: int| 0 <= i < k ==> v@[off + i] == sfx@[i],
        decreases sfx@.len() - k,
    {
        if v[off + k] != sfx[k] {
            assert(v@.subrange(off as int, v@.len() as int)[k as int] != sfx@[k as int]);
            assert(v@.subrange(off as int, v@.len() as int) != sfx@);
            return false;
        }
        k = k + 1;
    }
    assert(v@.subrange(off as int, v@.len() as int) =~= sfx@);
    true
}

proof fn lemma_last_segment_no_sep(s: Seq<char>)
    requires
        forall|i: int| 0 <= i < s.len() ==> !is_path_sep(#[trigger] s[i]),
    ensures
        last_segment_seq(s) == s,
    decreases s.len(),
{
    if s.len() > 0 {
        lemma_last_segment_no_sep(s.drop_last());
        assert(s.drop_last().push(s.last()) =~= s);
    }
}

proof fn lemma_last_segment_after(s: Seq<char>, p: int)
    requires
        0 <= p < s.len(),
        is_path_sep(s[p]),
        forall|i: int| p < i < s.len() ==> !is_path_sep(#[trigger] s[i]),
    ensures
        last_segment_seq(s) == s.subrange(p + 1, s.len() as int),
    decreases s.len(),
{
    if p == s.len() - 1 {
        assert(s.subrange(p + 1, s.len() as int) =~= Seq::<char>::empty());
    } else {
        lemma_last_segment_after(s.drop_last(), p);
        assert(s.drop_last().subrange(p + 1, s.len() - 1).push(s.last()) =~= s.subrange(
            p + 1,
            s.len() as int,
        ));
    }
}

/// The part after the last path separator.
pub fn last_segment_vec(v: &Vec<char>) -> (r: Vec<char>)
    ensures
        r@ == last_segment_seq(v@),
{
    let n = v.len();
    let mut j: usize = n;
    while j > 0 && !(v[j - 1] == '\\' || v[j - 1] == '/')
        invariant
            j <= n == v@.len(),
            forall|i: int| j <= i < n ==> !is_path_sep(#[trigger] v@[i]),
        decreases j,
    {
        j = j - 1;
    }
    proof {
        if j == 0 {
            lemma_last_segment_no_sep(v@);
            assert(v@.subrange(0, n as int) =~= v@);
        } else {
            lemma_last_segment_after(v@, j - 1);
        }
    }
    let mut r: Vec<char> = Vec::new();
    let mut k: usize = j;
    while k < n
        invariant
            j <= k <= n == v@.len(),
            r@ == v@.subrange(j as int, k as int),
        decreases n - k,
    {
        r.push(v[k]);
        k = k + 1;
        assert(r@ =~= v@.subrange(j as int, k as int));
    }
    r
}

/// The first `n` characters (all of them when there are fewer).
pub fn take_vec(v: &Vec<char>, n: usize) -> (r: Vec<char>)
    ensures
        r@ == (if v@.len() <= n { v@ } else { v@.subrange(0, n as int) }),
{
    let mut r: Vec<char> = Vec::new();
    let mut k: usize = 0;
    while k < v.len() && k < n
        invariant
            k <= v@.len(),
            k <= n,
            r@ == v@.subrange(0, k as int),
        decreases v@.len() - k,
    {
        r.push(v[k]);
        k = k + 1;
        assert(r@ =~= v@.subrange(0, k as int));
    }
    assert(v@.len() <= n ==> v@.subrange(0, k as int) =~= v@);
    r
}

} // verus!

verus! {

/// Whether two string slices hold the same characters.
pub fn str_is(a: &str, b: &str) -> (r: bool)
    ensures
        r == (a@ == b@),
{
    chars_eq_str(&chars_of(a), b)
}

/// Whether two strings hold the same characters.
pub fn same_text(a: &String, b: &String) -> (r: bool)
    ensures
        r == (a@ == b@),
{
    *a == *b
}

} // verus!
