use vstd::prelude::*;
use crate::text::{trim_seq, trim_vec, chars_of, string_of};

verus! {

/// One row of the interface table: cumulative counters as the system reports them.
#[derive(Debug, Clone)]
pub struct InterfaceSnapshot {
    pub interface_guid: String,
    pub interface_name: String,
    pub bytes_sent: u64,
    pub bytes_recv: u64,
    pub interface_type: u32,
    pub is_metered: Option<bool>,
}

pub open spec fn is_high_surrogate(u: u16) -> bool {
    0xD800 <= u && u <= 0xDBFF
}

pub open spec fn is_low_surrogate(u: u16) -> bool {
    0xDC00 <= u && u <= 0xDFFF
}

/// UTF-16 decoding where every unpaired surrogate becomes U+FFFD.
pub open spec fn utf16_decode(units: Seq<u16>) -> Seq<char>
    decreases units.len(),
{
    if units.len() == 0 {
        Seq::empty()
    } else if is_high_surrogate(units[0]) && units.len() > 1 && is_low_surrogate(units[1]) {
        seq![(0x10000 + (units[0] - 0xD800) * 0x400 + (units[1] - 0xDC00)) as char] + utf16_decode(
            units.subrange(2, units.len() as int),
        )
    } else if is_high_surrogate(units[0]) || is_low_surrogate(units[0]) {
        seq!['\u{FFFD}'] + utf16_decode(units.drop_first())
    } else {
        seq![units[0] as char] + utf16_decode(units.drop_first())
    }
}

/// std's `String::from_utf16_lossy`: decodes UTF-16, replacing invalid data with U+FFFD.
#[verifier::external_body]
fn from_utf16_lossy(units: &[u16]) -> (r: String)
    ensures
        r@ == utf16_decode(units@),
{
    String::from_utf16_lossy(units)
}

/// The units before the first NUL (all of them when there is none).
pub open spec fn before_nul(units: Seq<u16>) -> Seq<u16>
    decreases units.len(),
{
    if units.len() == 0 {
        Seq::empty()
    } else if units[0] == 0 {
        Seq::empty()
    } else {
        seq![units[0]] + before_nul(units.drop_first())
    }
}

/// The text of a NUL-terminated UTF-16 buffer, trimmed.
pub fn wide_to_string(chars: &[u16]) -> (r: String)
    ensures
        r@ == trim_seq(utf16_decode(before_nul(chars@))),
{
    let mut end: usize = 0;
    assert(chars@.subrange(0, 0) + chars@.subrange(0, chars@.len() as int) =~= chars@);
    assert(chars@.subrange(0, chars@.len() as int) =~= chars@);
    while end < chars.len() && chars[end] != 0
        invariant
            end <= chars@.len(),
            forall|i: int| 0 <= i < end ==> chars@[i] != 0,
            before_nul(chars@) == chars@.subrange(0, end as int) + before_nul(chars@.subrange(end as int, chars@.len() as int)),
        decreases chars@.len() - end,
    {
        let ghost rest = chars@.subrange(end as int, chars@.len() as int);
        assert(rest.drop_first() =~= chars@.subrange(end + 1, chars@.len() as int));
        assert(chars@.subrange(0, end + 1) =~= chars@.subrange(0, end as int) + seq![chars@[end as int]]);
        end = end + 1;
    }
    let mut prefix: Vec<u16> = Vec::new();
    let mut k: usize = 0;
    while k < end
        invariant
            k <= end <= chars@.len(),
            prefix@ == chars@.subrange(0, k as int),
        decreases end - k,
    {
        prefix.push(chars[k]);
        k = k + 1;
        assert(prefix@ =~= chars@.subrange(0, k as int));
    }
    assert(before_nul(chars@.subrange(end as int, chars@.len() as int)) =~= Seq::<u16>::empty());
    assert(before_nul(chars@) =~= prefix@);
    let text = from_utf16_lossy(prefix.as_slice());
    let t = trim_vec(&chars_of(text.as_str()));
    string_of(t.as_slice())
}

/// The lower-case hex digit of `d` (below 16).
pub open spec fn hex_digit(d: int) -> char {
    if d < 10 {
        (('0' as int) + d) as char
    } else {
        (('a' as int) + d - 10) as char
    }
}

/// `n` as exactly `width` lower-case hex digits (its low `4 * width` bits).
pub open spec fn hex_seq(n: nat, width: nat) -> Seq<char>
    decreases width,
{
    if width == 0 {
        Seq::empty()
    } else {
        hex_seq(n / 16, (width - 1) as nat).push(hex_digit((n % 16) as int))
    }
}

fn hex_char(d: u64) -> (c: char)
    requires
        d < 16,
    ensures
        c == hex_digit(d as int),
{
    if d < 10 {
        ((48 + d) as u8) as char
    } else {
        ((87 + d) as u8) as char
    }
}

fn push_hex(out: &mut Vec<char>, n: u64, width: usize)
    requires
        width <= 16,
    ensures
        final(out)@ == old(out)@ + hex_seq(n as nat, width as nat),
    decreases width,
{
    if width == 0 {
        assert(old(out)@ + hex_seq(n as nat, 0) =~= old(out)@);
        return;
    }
    push_hex(out, n / 16, width - 1);
    out.push(hex_char(n % 16));
    assert(hex_seq(n as nat, width as nat) == hex_seq((n / 16) as nat, (width - 1) as nat).push(
        hex_digit((n % 16) as int),
    ));
    assert(final(out)@ =~= old(out)@ + hex_seq(n as nat, width as nat)) by {
        assert(old(out)@ + hex_seq((n / 16) as nat, (width - 1) as nat).push(hex_digit((n % 16) as int)) =~= (old(out)@
            + hex_seq((n / 16) as nat, (width - 1) as nat)).push(hex_digit((n % 16) as int)));
    }
}

/// The braced, lower-case form of an interface GUID.
pub open spec fn guid_text(data1: u32, data2: u16, data3: u16, data4: Seq<u8>) -> Seq<char> {
    seq!['{'] + hex_seq(data1 as nat, 8) + seq!['-'] + hex_seq(data2 as nat, 4) + seq!['-'] + hex_seq(data3 as nat, 4)
        + seq!['-'] + hex_seq(data4[0] as nat, 2) + hex_seq(data4[1] as nat, 2) + seq!['-'] + hex_seq(data4[2] as nat, 2)
        + hex_seq(data4[3] as nat, 2) + hex_seq(data4[4] as nat, 2) + hex_seq(data4[5] as nat, 2) + hex_seq(data4[6] as nat, 2)
        + hex_seq(data4[7] as nat, 2) + seq!['}']
}

pub fn format_guid(data1: u32, data2: u16, data3: u16, data4: [u8; 8]) -> (r: String)
    ensures
        r@ == guid_text(data1, data2, data3, data4@),
{
    let mut v: Vec<char> = Vec::new();
    v.push('{');
    push_hex(&mut v, data1 as u64, 8);
    v.push('-');
    push_hex(&mut v, data2 as u64, 4);
    v.push('-');
    push_hex(&mut v, data3 as u64, 4);
    v.push('-');
    push_hex(&mut v, data4[0] as u64, 2);
    push_hex(&mut v, data4[1] as u64, 2);
    v.push('-');
    push_hex(&mut v, data4[2] as u64, 2);
    push_hex(&mut v, data4[3] as u64, 2);
    push_hex(&mut v, data4[4] as u64, 2);
    push_hex(&mut v, data4[5] as u64, 2);
    push_hex(&mut v, data4[6] as u64, 2);
    push_hex(&mut v, data4[7] as u64, 2);
    v.push('}');
    assert(v@ =~= guid_text(data1, data2, data3, data4@));
    string_of(v.as_slice())
}


/// How a connection profile is charged.
#[derive(Debug, Clone, Copy, PartialEq, Eq)]
pub enum CostKind {
    Unknown,
    Unrestricted,
    Fixed,
    Variable,
}

/// The cost of the connection profile on one adapter.
#[derive(Debug, Clone)]
pub struct ProfileCost {
    pub adapter_guid: String,
    pub cost: CostKind,
}

/// A connection is metered when it is charged by a fixed or variable amount.
pub open spec fn cost_metered(c: CostKind) -> bool {
    c == CostKind::Fixed || c == CostKind::Variable
}

/// Whether the adapter `g` is metered by the last profile recorded for it, if any: later
/// profiles (the active one is recorded last) override earlier ones.
pub open spec fn metered_of(costs: Seq<ProfileCost>, g: Seq<char>) -> Option<bool>
    decreases costs.len(),
{
    if costs.len() == 0 {
        None
    } else if costs.last().adapter_guid@ == g {
        Some(cost_metered(costs.last().cost))
    } else {
        metered_of(costs.drop_last(), g)
    }
}

pub fn is_metered_cost(c: CostKind) -> (r: bool)
    ensures
        r == cost_metered(c),
{
    match c {
        CostKind::Fixed => true,
        CostKind::Variable => true,
        _ => false,
    }
}

/// Whether the adapter `guid` is metered, by the last profile recorded for it.
pub fn metered_for(costs: &Vec<ProfileCost>, guid: &String) -> (r: Option<bool>)
    ensures
        r == metered_of(costs@, guid@),
{
    let mut k: usize = costs.len();
    assert(costs@.subrange(0, k as int) =~= costs@);
    while k > 0
        invariant
            k <= costs@.len(),
            metered_of(costs@, guid@) == metered_of(costs@.subrange(0, k as int), guid@),
        decreases k,
    {
        let ghost pre = costs@.subrange(0, k as int);
        assert(pre.drop_last() =~= costs@.subrange(0, k - 1));
        if costs[k - 1].adapter_guid == *guid {
            return Some(is_metered_cost(costs[k - 1].cost));
        }
        k = k - 1;
    }
    assert(costs@.subrange(0, 0) =~= Seq::<ProfileCost>::empty());
    None
}

/// The name shown for an interface: its alias, or its description when the alias is empty.
pub open spec fn shown_interface_name(alias: Seq<char>, description: Seq<char>) -> Seq<char> {
    if alias.len() == 0 {
        description
    } else {
        alias
    }
}

/// One row of the interface table as the collector records it: the names decoded from
/// their buffers, the GUID in braces, and the cost of the adapter's connection profile.
pub fn interface_snapshot_of(
    alias: &[u16],
    description: &[u16],
    guid_data1: u32,
    guid_data2: u16,
    guid_data3: u16,
    guid_data4: [u8; 8],
    out_octets: u64,
    in_octets: u64,
    interface_type: u32,
    costs: &Vec<ProfileCost>,
) -> (r: InterfaceSnapshot)
    ensures
        r.interface_name@ == shown_interface_name(
            trim_seq(utf16_decode(before_nul(alias@))),
            trim_seq(utf16_decode(before_nul(description@))),
        ),
        r.interface_guid@ == guid_text(guid_data1, guid_data2, guid_data3, guid_data4@),
        r.bytes_sent == out_octets,
        r.bytes_recv == in_octets,
        r.interface_type == interface_type,
        r.is_metered == metered_of(costs@, guid_text(guid_data1, guid_data2, guid_data3, guid_data4@)),
{
    let a = wide_to_string(alias);
    let d = wide_to_string(description);
    let interface_name = if a.as_str().is_empty() {
        d
    } else {
        a
    };
    let interface_guid = format_guid(guid_data1, guid_data2, guid_data3, guid_data4);
    let is_metered = metered_for(costs, &interface_guid);
    InterfaceSnapshot {
        interface_guid,
        interface_name,
        bytes_sent: out_octets,
        bytes_recv: in_octets,
        interface_type,
        is_metered,
    }
}

} // verus!
