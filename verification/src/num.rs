use vstd::prelude::*;
use crate::text::{chars_of, string_of, keyword, chars_eq_str, keyword_seq};

verus! {

pub open spec fn is_digit(c: char) -> bool {
    '0' <= c && c <= '9'
}

pub open spec fn digit_value(c: char) -> int {
    (c as int) - ('0' as int)
}

pub open spec fn all_digits(s: Seq<char>) -> bool {
    forall|i: int| 0 <= i < s.len() ==> is_digit(#[trigger] s[i])
}

/// The value of a run of decimal digits, most significant first.
pub open spec fn digits_value(s: Seq<char>) -> int
    decreases s.len(),
{
    if s.len() == 0 {
        0
    } else {
        digits_value(s.drop_last()) * 10 + digit_value(s.last())
    }
}

/// The digits of an unsigned decimal: the text after an optional leading `+`.
pub open spec fn unsigned_body(s: Seq<char>) -> Seq<char> {
    if s.len() > 0 && s[0] == '+' {
        s.drop_first()
    } else {
        s
    }
}

/// What `str::parse` accepts for an unsigned integer, before the range check.
pub open spec fn parse_nat_seq(s: Seq<char>) -> Option<int> {
    let b = unsigned_body(s);
    if b.len() > 0 && all_digits(b) {
        Some(digits_value(b))
    } else {
        None
    }
}

/// What `str::parse` accepts for a signed integer, before the range check.
pub open spec fn parse_int_seq(s: Seq<char>) -> Option<int> {
    if s.len() > 0 && s[0] == '-' {
        let b = s.drop_first();
        if b.len() > 0 && all_digits(b) {
            Some(-digits_value(b))
        } else {
            None
        }
    } else {
        parse_nat_seq(s)
    }
}

/// `s.parse::<u32>().ok()`
pub open spec fn parse_u32_seq(s: Seq<char>) -> Option<u32> {
    match parse_nat_seq(s) {
        Some(v) => if v <= u32::MAX { Some(v as u32) } else { None },
        None => None,
    }
}

/// `s.parse::<u8>().ok()`
pub open spec fn parse_u8_seq(s: Seq<char>) -> Option<u8> {
    match parse_nat_seq(s) {
        Some(v) => if v <= u8::MAX { Some(v as u8) } else { None },
        None => None,
    }
}

/// `s.parse::<u64>().ok()`
pub open spec fn parse_u64_seq(s: Seq<char>) -> Option<u64> {
    match parse_nat_seq(s) {
        Some(v) => if v <= u64::MAX { Some(v as u64) } else { None },
        None => None,
    }
}

/// `s.parse::<i64>().ok()`
pub open spec fn parse_i64_seq(s: Seq<char>) -> Option<i64> {
    match parse_int_seq(s) {
        Some(v) => if i64::MIN <= v <= i64::MAX { Some(v as i64) } else { None },
        None => None,
    }
}

/// The boolean spellings that settings accept, after trimming and lower-casing.
pub open spec fn parse_bool_seq(s: Seq<char>) -> Option<bool> {
    let k = keyword_seq(s);
    if k == "1"@ || k == "true"@ || k == "yes"@ || k == "on"@ {
        Some(true)
    } else if k == "0"@ || k == "false"@ || k == "no"@ || k == "off"@ {
        Some(false)
    } else {
        None
    }
}

pub open spec fn digit_char(d: int) -> char {
    (('0' as int) + d) as char
}

/// The decimal digits of a natural number, with no leading zero.
pub open spec fn dec_seq(n: nat) -> Seq<char>
    decreases n,
{
    if n < 10 {
        seq![digit_char(n as int)]
    } else {
        dec_seq(n / 10).push(digit_char((n % 10) as int))
    }
}

/// What `to_string` gives back for an integer.
pub open spec fn fmt_int_seq(n: int) -> Seq<char> {
    if n < 0 {
        seq!['-'] + dec_seq((-n) as nat)
    } else {
        dec_seq(n as nat)
    }
}

proof fn lemma_digits_value_prefix(s: Seq<char>, k: int)
    requires
        all_digits(s),
        0 <= k <= s.len(),
    ensures
        0 <= digits_value(s.subrange(0, k)) <= digits_value(s),
    decreases s.len(),
{
    if k == s.len() {
        assert(s.subrange(0, k) =~= s);
        lemma_digits_value_nonneg(s);
    } else {
        lemma_digits_value_prefix(s.drop_last(), k);
        assert(s.drop_last().subrange(0, k) =~= s.subrange(0, k));
        lemma_digits_value_nonneg(s.drop_last());
    }
}

proof fn lemma_digits_value_nonneg(s: Seq<char>)
    requires
        all_digits(s),
    ensures
        digits_value(s) >= 0,
    decreases s.len(),
{
    if s.len() > 0 {
        lemma_digits_value_nonneg(s.drop_last());
    }
}

/// Reads the digits of `v` from `start` on, accepting a value up to `limit`.
fn parse_digits_from(v: &Vec<char>, start: usize, limit: u64) -> (r: Option<u64>)
    requires
        start <= v@.len(),
    ensures
        ({
            let b = v@.subrange(start as int, v@.len() as int);
            r == (if b.len() > 0 && all_digits(b) && digits_value(b) <= limit {
                Some(digits_value(b) as u64)
            } else {
                None
            })
        }),
        r matches Some(y) ==> y <= limit && digits_value(v@.subrange(start as int, v@.len() as int)) == y,
{
    let n = v.len();
    if start >= n {
        return None;
    }
    let ghost b = v@.subrange(start as int, n as int);
    let mut acc: u64 = 0;
    let mut k: usize = start;
    while k < n
        invariant
            start <= k <= n == v@.len(),
            b == v@.subrange(start as int, n as int),
            all_digits(v@.subrange(start as int, k as int)),
            acc == digits_value(v@.subrange(start as int, k as int)),
            acc <= limit,
        decreases n - k,
    {
        let c = v[k];
        if !('0' <= c && c <= '9') {
            assert(b[k - start] == c);
            return None;
        }
        let d: u64 = (c as u64) - 48;
        let next: u128 = (acc as u128) * 10 + (d as u128);
        assert(v@.subrange(start as int, k + 1).drop_last() =~= v@.subrange(start as int, k as int));
        if next > limit as u128 {
            proof {
                if all_digits(b) {
                    lemma_digits_value_prefix(b, k + 1 - start);
                    assert(b.subrange(0, k + 1 - start) =~= v@.subrange(start as int, k + 1));
                }
            }
            return None;
        }
        acc = next as u64;
        k = k + 1;
    }
    assert(v@.subrange(start as int, k as int) =~= b);
    Some(acc)
}

pub fn parse_nat_limit(v: &Vec<char>, limit: u64) -> (r: Option<u64>)
    ensures
        r == (match parse_nat_seq(v@) {
            Some(x) => if x <= limit { Some(x as u64) } else { None },
            None => None,
        }),
        r matches Some(y) ==> y <= limit && parse_nat_seq(v@) == Some(y as int),
{
    let ghost body = unsigned_body(v@);
    let r = if v.len() > 0 && v[0] == '+' {
        assert(v@.subrange(1, v@.len() as int) =~= body);
        parse_digits_from(v, 1, limit)
    } else {
        assert(v@.subrange(0, v@.len() as int) =~= body);
        parse_digits_from(v, 0, limit)
    };
    proof {
        if let Some(y) = r {
            assert(body.len() > 0 && all_digits(body));
            assert(digits_value(body) == y);
        }
    }
    r
}

/// `s.parse::<u32>().ok()`
pub fn parse_u32(s: &str) -> (r: Option<u32>)
    ensures
        r == parse_u32_seq(s@),
{
    let v = chars_of(s);
    match parse_nat_limit(&v, 0xffff_ffff) {
        Some(x) => {
            assert(x as u32 == x);
            Some(x as u32)
        },
        None => None,
    }
}

/// `s.parse::<u8>().ok()`
pub fn parse_u8(s: &str) -> (r: Option<u8>)
    ensures
        r == parse_u8_seq(s@),
{
    let v = chars_of(s);
    match parse_nat_limit(&v, 0xff) {
        Some(x) => {
            assert(x as u8 == x);
            Some(x as u8)
        },
        None => None,
    }
}

/// `s.parse::<u64>().ok()`
pub fn parse_u64(s: &str) -> (r: Option<u64>)
    ensures
        r == parse_u64_seq(s@),
{
    let v = chars_of(s);
    parse_nat_limit(&v, 0xffff_ffff_ffff_ffff)
}

/// `s.parse::<i64>().ok()`
pub fn parse_i64(s: &str) -> (r: Option<i64>)
    ensures
        r == parse_i64_seq(s@),
{
    let v = chars_of(s);
    if v.len() > 0 && v[0] == '-' {
        assert(v@.subrange(1, v@.len() as int) =~= v@.drop_first());
        match parse_digits_from(&v, 1, 0x8000_0000_0000_0000) {
            Some(x) => {
                let ghost b = v@.drop_first();
                assert(b.len() > 0 && all_digits(b));
                assert(digits_value(b) == x);
                assert(parse_int_seq(v@) == Some(-(x as int)));
                let r: i128 = -(x as i128);
                assert(r as i64 == r);
                Some(r as i64)
            },
            None => None,
        }
    } else {
        match parse_nat_limit(&v, 0x7fff_ffff_ffff_ffff) {
            Some(x) => {
                assert(x as i64 == x);
                Some(x as i64)
            },
            None => None,
        }
    }
}

/// The setting spellings of a boolean.
pub fn parse_bool(s: &str) -> (r: Option<bool>)
    ensures
        r == parse_bool_seq(s@),
{
    let k = keyword(s);
    if chars_eq_str(&k, "1") || chars_eq_str(&k, "true") || chars_eq_str(&k, "yes")
        || chars_eq_str(&k, "on") {
        Some(true)
    } else if chars_eq_str(&k, "0") || chars_eq_str(&k, "false") || chars_eq_str(&k, "no")
        || chars_eq_str(&k, "off") {
        Some(false)
    } else {
        None
    }
}

fn push_dec(n: u64, out: &mut Vec<char>)
    ensures
        final(out)@ == old(out)@ + dec_seq(n as nat),
    decreases n,
{
    if n >= 10 {
        push_dec(n / 10, out);
    }
    let d: u8 = (n % 10) as u8;
    let c: char = (48u8 + d) as char;
    out.push(c);
    assert(final(out)@ =~= old(out)@ + dec_seq(n as nat));
}

/// `n.to_string()`
pub fn fmt_u64(n: u64) -> (s: String)
    ensures
        s@ == dec_seq(n as nat),
{
    let mut v: Vec<char> = Vec::new();
    push_dec(n, &mut v);
    assert(v@ =~= dec_seq(n as nat));
    string_of(v.as_slice())
}

/// `n.to_string()`
pub fn fmt_i64(n: i64) -> (s: String)
    ensures
        s@ == fmt_int_seq(n as int),
{
    let mut v: Vec<char> = Vec::new();
    if n < 0 {
        v.push('-');
        let m: i128 = -(n as i128);
        push_dec(m as u64, &mut v);
        assert(v@ =~= fmt_int_seq(n as int));
    } else {
        push_dec(n as u64, &mut v);
        assert(v@ =~= fmt_int_seq(n as int));
    }
    string_of(v.as_slice())
}

proof fn lemma_digit_char(d: int)
    requires
        0 <= d < 10,
    ensures
        is_digit(digit_char(d)),
        digit_value(digit_char(d)) == d,
{
    assert((((48 + d) as char) as int) == 48 + d);
}

/// The decimal form of a number reads back as that number.
pub proof fn lemma_dec_digits(n: nat)
    ensures
        dec_seq(n).len() > 0,
        all_digits(dec_seq(n)),
        digits_value(dec_seq(n)) == n,
    decreases n,
{
    if n >= 10 {
        lemma_dec_digits(n / 10);
        lemma_digit_char((n % 10) as int);
        vstd::arithmetic::div_mod::lemma_fundamental_div_mod(n as int, 10);
        assert(dec_seq(n).drop_last() =~= dec_seq(n / 10));
        assert(dec_seq(n).last() == digit_char((n % 10) as int));
        let q = n / 10;
        let m = n % 10;
        assert(digits_value(dec_seq(n)) == digits_value(dec_seq(q)) * 10 + digit_value(digit_char(m as int)));
        assert(q * 10 + m == n) by (nonlinear_arith)
            requires q == n / 10, m == n % 10;
        assert(digits_value(dec_seq(q)) == q);
        assert(digit_value(digit_char(m as int)) == m);
        assert(digits_value(dec_seq(n)) == n);
        assert(all_digits(dec_seq(n))) by {
            assert forall|i: int| 0 <= i < dec_seq(n).len() implies is_digit(#[trigger] dec_seq(n)[i]) by {
                if i < dec_seq(n).len() - 1 {
                    assert(dec_seq(n)[i] == dec_seq(n / 10)[i]);
                }
            }
        }
    } else {
        lemma_digit_char(n as int);
        assert(dec_seq(n).drop_last() =~= Seq::<char>::empty());
        assert(digits_value(Seq::<char>::empty()) == 0);
        assert(dec_seq(n).last() == digit_char(n as int));
        assert(digits_value(dec_seq(n)) == n);
    }
}

/// Formatting then parsing gives the number back: `n.to_string().parse() == Ok(n)`.
pub proof fn lemma_parse_fmt_nat(n: nat)
    ensures
        parse_nat_seq(dec_seq(n)) == Some(n as int),
        parse_int_seq(dec_seq(n)) == Some(n as int),
{
    lemma_dec_digits(n);
    assert(is_digit(dec_seq(n)[0]));
}

/// Formatting then parsing gives the number back, signed case.
pub proof fn lemma_parse_fmt_int(n: int)
    ensures
        parse_int_seq(fmt_int_seq(n)) == Some(n),
{
    if n < 0 {
        lemma_dec_digits((-n) as nat);
        assert(fmt_int_seq(n).drop_first() =~= dec_seq((-n) as nat));
    } else {
        lemma_parse_fmt_nat(n as nat);
    }
}

} // verus!
