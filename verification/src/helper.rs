use vstd::prelude::*;
use crate::num::{parse_u32, parse_u32_seq};
use crate::text::{chars_of, trim_vec, trim_seq, strip_vec, strip_seq, string_of, same_text, str_is};

verus! {

/// What the usage helper is asked to do.
#[derive(Debug, Clone, Copy, PartialEq, Eq)]
pub enum Mode {
    /// Print one window of usage.
    Probe { window_secs: u32 },
    /// Send one window of usage to the collector.
    PushOnce { window_secs: u32 },
    /// Send a window of usage at every interval.
    Loop { window_secs: u32, interval_secs: u32 },
    /// Import past usage in chunks.
    ImportHistory { days: u32, chunk_hours: u32 },
}

pub open spec fn texts(args: Seq<String>) -> Seq<Seq<char>> {
    args.map_values(|a: String| a@)
}

/// The first position of `flag` that has a value after it, -1 when there is none.
pub open spec fn flag_at(args: Seq<Seq<char>>, flag: Seq<char>, from: int) -> int
    decreases args.len() - from,
{
    if from < 0 || from + 1 >= args.len() {
        -1
    } else if args[from] == flag {
        from
    } else {
        flag_at(args, flag, from + 1)
    }
}

/// The number after the first `flag` that has a value (`None` when that value is no `u32`).
pub open spec fn u32_flag(args: Seq<Seq<char>>, flag: Seq<char>) -> Option<u32> {
    let i = flag_at(args, flag, 0);
    if i < 0 {
        None
    } else {
        parse_u32_seq(args[i + 1])
    }
}

pub fn parse_u32_flag(args: &Vec<String>, flag: &str) -> (r: Option<u32>)
    ensures
        r == u32_flag(texts(args@), flag@),
{
    let ghost a = texts(args@);
    let mut i: usize = 0;
    while i < args.len() && i + 1 < args.len()
        invariant
            a == texts(args@),
            i <= args@.len(),
            flag_at(a, flag@, 0) == flag_at(a, flag@, i as int),
        decreases args@.len() - i,
    {
        assert(a[i as int] == args@[i as int]@);
        if str_is(args[i].as_str(), flag) {
            assert(a[i + 1] == args@[i + 1]@);
            return parse_u32(args[i + 1].as_str());
        }
        i = i + 1;
    }
    None
}

pub open spec fn has_arg(args: Seq<Seq<char>>, a: Seq<char>) -> bool {
    exists|i: int| 0 <= i < args.len() && args[i] == a
}

fn has_arg_exec(args: &Vec<String>, a: &str) -> (r: bool)
    ensures
        r == has_arg(texts(args@), a@),
{
    let ghost t = texts(args@);
    let mut i: usize = 0;
    while i < args.len()
        invariant
            t == texts(args@),
            i <= args@.len(),
            forall|j: int| 0 <= j < i ==> t[j] != a@,
        decreases args@.len() - i,
    {
        assert(t[i as int] == args@[i as int]@);
        if str_is(args[i].as_str(), a) {
            return true;
        }
        i = i + 1;
    }
    false
}

pub open spec fn at_least(v: Option<u32>, default: u32, floor: u32) -> u32 {
    let x = match v {
        Some(x) => x,
        None => default,
    };
    if x < floor {
        floor
    } else {
        x
    }
}

/// The mode the helper's arguments ask for; `None` for an unknown one.
pub open spec fn mode_of(args: Seq<Seq<char>>) -> Option<Mode> {
    let window = match u32_flag(args, "--window-secs"@) {
        Some(x) => x,
        None => 300u32,
    };
    if has_arg(args, "--import-history"@) {
        Some(
            Mode::ImportHistory {
                days: at_least(u32_flag(args, "--days"@), 60, 1),
                chunk_hours: at_least(u32_flag(args, "--chunk-hours"@), 6, 1),
            },
        )
    } else if has_arg(args, "--push-once"@) {
        Some(Mode::PushOnce { window_secs: window })
    } else if has_arg(args, "--loop"@) {
        Some(Mode::Loop { window_secs: window, interval_secs: at_least(u32_flag(args, "--interval-secs"@), 60, 15) })
    } else if has_arg(args, "--probe"@) || args.len() == 0 {
        Some(Mode::Probe { window_secs: window })
    } else {
        None
    }
}

fn at_least_exec(v: Option<u32>, default: u32, floor: u32) -> (r: u32)
    ensures
        r == at_least(v, default, floor),
{
    let x = match v {
        Some(x) => x,
        None => default,
    };
    if x < floor {
        floor
    } else {
        x
    }
}

/// Reads the helper's mode from its arguments.
pub fn parse_mode(args: &Vec<String>) -> (r: Result<Mode, String>)
    ensures
        match r {
            Ok(m) => mode_of(texts(args@)) == Some(m),
            Err(msg) => mode_of(texts(args@)) is None && msg@
                == "unsupported helper mode. use --probe, --push-once, --loop, or --import-history"@,
        },
{
    if has_arg_exec(args, "--import-history") {
        let days = at_least_exec(parse_u32_flag(args, "--days"), 60, 1);
        let chunk_hours = at_least_exec(parse_u32_flag(args, "--chunk-hours"), 6, 1);
        return Ok(Mode::ImportHistory { days, chunk_hours });
    }
    let window_secs = match parse_u32_flag(args, "--window-secs") {
        Some(x) => x,
        None => 300,
    };
    if has_arg_exec(args, "--push-once") {
        return Ok(Mode::PushOnce { window_secs });
    }
    if has_arg_exec(args, "--loop") {
        let interval_secs = at_least_exec(parse_u32_flag(args, "--interval-secs"), 60, 15);
        return Ok(Mode::Loop { window_secs, interval_secs });
    }
    if has_arg_exec(args, "--probe") || args.len() == 0 {
        return Ok(Mode::Probe { window_secs });
    }
    Err("unsupported helper mode. use --probe, --push-once, --loop, or --import-history".to_string())
}

/// An attribution id as the system gives it, trimmed and without surrounding quotes.
pub fn normalize_attribution_id(raw: &str) -> (r: String)
    ensures
        r@ == strip_seq(trim_seq(raw@), '"'),
{
    let t = trim_vec(&chars_of(raw));
    let s = strip_vec(&t, '"');
    string_of(s.as_slice())
}

/// Seconds between 1601-01-01 and 1970-01-01.
pub const SECS_BETWEEN_EPOCHS: i64 = 11644473600;

/// Ticks of 100 ns per second.
pub const TICKS_PER_SECOND: i64 = 10000000;

/// A Unix time as the 100-ns ticks since 1601 that WinRT dates count.
pub fn unix_to_winrt(unix_ts: i64) -> (r: i64)
    requires
        i64::MIN <= (unix_ts + SECS_BETWEEN_EPOCHS) * TICKS_PER_SECOND <= i64::MAX,
    ensures
        r == (unix_ts + SECS_BETWEEN_EPOCHS) * TICKS_PER_SECOND,
{
    assert(i64::MIN <= unix_ts + SECS_BETWEEN_EPOCHS <= i64::MAX) by (nonlinear_arith)
        requires
            i64::MIN <= (unix_ts + SECS_BETWEEN_EPOCHS) * TICKS_PER_SECOND <= i64::MAX,
            SECS_BETWEEN_EPOCHS == 11644473600,
            TICKS_PER_SECOND == 10000000,
            unix_ts <= i64::MAX,
    ;
    (unix_ts + SECS_BETWEEN_EPOCHS) * TICKS_PER_SECOND
}

pub open spec fn sat_sub_i64(a: i64, b: int) -> i64 {
    if a - b < i64::MIN {
        i64::MIN
    } else {
        (a - b) as i64
    }
}

/// The window a snapshot covers: `window_secs` (at least 1) seconds up to `end_ts`.
pub fn snapshot_range(end_ts: i64, window_secs: u32) -> (r: (i64, i64))
    ensures
        r == (sat_sub_i64(end_ts, if window_secs < 1 { 1 } else { window_secs as int }), end_ts),
{
    let w: i64 = if window_secs < 1 {
        1
    } else {
        window_secs as i64
    };
    let start = if end_ts < i64::MIN + w {
        i64::MIN
    } else {
        end_ts - w
    };
    (start, end_ts)
}

/// Where a history import starts (`days`, at least 1, before `end_ts`) and how long its
/// chunks are (`chunk_hours`, at least 1).
pub fn import_window(end_ts: i64, days: u32, chunk_hours: u32) -> (r: (i64, i64))
    ensures
        r.0 == sat_sub_i64(end_ts, (if days < 1 { 1 } else { days as int }) * 86400),
        r.1 == (if chunk_hours < 1 { 1 } else { chunk_hours as int }) * 3600,
{
    let d: i64 = if days < 1 {
        1
    } else {
        days as i64
    };
    let span: i64 = d * 86400;
    let start = if end_ts < i64::MIN + span {
        i64::MIN
    } else {
        end_ts - span
    };
    let h: i64 = if chunk_hours < 1 {
        1
    } else {
        chunk_hours as i64
    };
    (start, h * 3600)
}

/// The next chunk of a history import: from `cursor` up to `chunk_secs` later, cut at
/// `end_ts`; none once the cursor has reached the end.
pub fn import_chunk(cursor: i64, end_ts: i64, chunk_secs: i64) -> (r: Option<(i64, i64)>)
    requires
        cursor < end_ts ==> i64::MIN <= cursor + chunk_secs <= i64::MAX,
    ensures
        r == (if cursor < end_ts {
            Some((cursor, if cursor + chunk_secs < end_ts { (cursor + chunk_secs) as i64 } else { end_ts }))
        } else {
            None::<(i64, i64)>
        }),
        chunk_secs >= 1 && cursor < end_ts ==> (r matches Some((a, b)) && (a as int, b as int) == import_chunks(
            cursor as int,
            end_ts as int,
            chunk_secs as int,
        )[0]),
{
    if cursor < end_ts {
        let next = cursor + chunk_secs;
        Some((cursor, if next < end_ts { next } else { end_ts }))
    } else {
        None
    }
}

/// The chunks a history import visits from `cursor` to `end`, `k` seconds at a time, in
/// order; the chunk `import_chunk` gives is the first of them.
pub open spec fn import_chunks(cursor: int, end: int, k: int) -> Seq<(int, int)>
    decreases end - cursor,
{
    if cursor >= end || k < 1 {
        Seq::empty()
    } else {
        let n = if cursor + k < end { cursor + k } else { end };
        seq![(cursor, n)] + import_chunks(n, end, k)
    }
}

/// A history import covers its range in order: the chunks start at the cursor, end at the
/// end, are each non-empty and at most `k` long, and each starts where the one before ended,
/// so the progress only grows.
pub proof fn lemma_import_chunks_partition(cursor: int, end: int, k: int)
    requires
        k >= 1,
        cursor < end,
    ensures
        import_chunks(cursor, end, k).len() > 0,
        import_chunks(cursor, end, k)[0].0 == cursor,
        import_chunks(cursor, end, k).last().1 == end,
        forall|i: int|
            0 <= i < import_chunks(cursor, end, k).len() ==> (#[trigger] import_chunks(cursor, end, k)[i]).0
                < import_chunks(cursor, end, k)[i].1 <= import_chunks(cursor, end, k)[i].0 + k,
        forall|i: int|
            0 <= i < import_chunks(cursor, end, k).len() - 1 ==> (#[trigger] import_chunks(cursor, end, k)[i]).1
                == import_chunks(cursor, end, k)[i + 1].0,
    decreases end - cursor,
{
    let n = if cursor + k < end { cursor + k } else { end };
    let c = import_chunks(cursor, end, k);
    let rest = import_chunks(n, end, k);
    assert(c == seq![(cursor, n)] + rest);
    if n < end {
        lemma_import_chunks_partition(n, end, k);
        assert forall|i: int| 0 <= i < c.len() implies (#[trigger] c[i]).0 < c[i].1 <= c[i].0 + k by {
            if i > 0 {
                assert(c[i] == rest[i - 1]);
            }
        }
        assert forall|i: int| 0 <= i < c.len() - 1 implies (#[trigger] c[i]).1 == c[i + 1].0 by {
            if i > 0 {
                assert(c[i] == rest[i - 1] && c[i + 1] == rest[i]);
            } else {
                assert(c[1] == rest[0]);
            }
        }
        assert(c.last() == rest.last());
    } else {
        assert(rest == Seq::<(int, int)>::empty());
        assert(c.len() == 1);
    }
}

/// The argument after the first `name` (`None` when `name` is absent or last).
pub open spec fn value_after(args: Seq<Seq<char>>, name: Seq<char>) -> Option<Seq<char>> {
    let i = crate::seqs::first_index(args, |a: Seq<char>| a == name);
    if i >= 0 && i + 1 < args.len() {
        Some(args[i + 1])
    } else {
        None
    }
}

pub fn parse_value(args: &Vec<String>, name: &str) -> (r: Option<String>)
    ensures
        match r {
            Some(v) => value_after(texts(args@), name@) == Some(v@),
            None => value_after(texts(args@), name@) is None,
        },
{
    let ghost t = texts(args@);
    let ghost p = |a: Seq<char>| a == name@;
    let mut idx: usize = 0;
    while idx < args.len()
        invariant
            t == texts(args@),
            p == (|a: Seq<char>| a == name@),
            idx <= args@.len(),
            forall|j: int| 0 <= j < idx ==> !p(#[trigger] t[j]),
        decreases args@.len() - idx,
    {
        assert(t[idx as int] == args@[idx as int]@);
        if str_is(args[idx].as_str(), name) {
            proof {
                crate::seqs::lemma_first_found(t, p, idx as int);
            }
            if idx + 1 < args.len() {
                assert(t[idx + 1] == args@[idx + 1]@);
                return Some(args[idx + 1].clone());
            }
            return None;
        }
        idx = idx + 1;
    }
    proof {
        crate::seqs::lemma_first_none(t, p);
    }
    None
}

/// Whether the peak working set the memory harness saw passes its limit, if it has one.
pub fn limit_breached(peak: u64, max_bytes: Option<u64>) -> (r: bool)
    ensures
        r == (match max_bytes {
            Some(limit) => peak > limit,
            None => false,
        }),
{
    match max_bytes {
        Some(limit) => peak > limit,
        None => false,
    }
}

} // verus!
