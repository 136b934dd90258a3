use vstd::prelude::*;
use crate::text::{trim_seq, trim_vec, chars_of, string_of};

verus! {

/// The most a request may hold before its line ends.
pub const MAX_REQUEST_BYTES: usize = 65536;

/// Where reading a request stands after a chunk arrived.
#[derive(Debug, Clone, Copy, PartialEq, Eq)]
pub enum FrameStep {
    /// No line end yet; read on.
    NeedMore,
    /// A line end arrived; the request is complete.
    Complete,
    /// More than 64 KiB arrived without a line end.
    TooLarge,
}

/// What a chunk does to a request being read.
pub open spec fn frame_after(buf: Seq<u8>) -> FrameStep {
    if buf.contains(10u8) {
        FrameStep::Complete
    } else if buf.len() > MAX_REQUEST_BYTES {
        FrameStep::TooLarge
    } else {
        FrameStep::NeedMore
    }
}

fn has_line_feed(buf: &Vec<u8>) -> (r: bool)
    ensures
        r == buf@.contains(10u8),
{
    let mut i: usize = 0;
    while i < buf.len()
        invariant
            i <= buf@.len(),
            forall|j: int| 0 <= j < i ==> buf@[j] != 10u8,
        decreases buf@.len() - i,
    {
        if buf[i] == 10 {
            assert(buf@[i as int] == 10u8);
            return true;
        }
        i = i + 1;
    }
    false
}

/// Appends a chunk that was read to the request and says whether to read on.
pub fn frame_step(buf: &mut Vec<u8>, chunk: &[u8]) -> (r: FrameStep)
    ensures
        final(buf)@ == old(buf)@ + chunk@,
        r == frame_after(final(buf)@),
{
    let mut k: usize = 0;
    let ghost b0 = buf@;
    while k < chunk.len()
        invariant
            k <= chunk@.len(),
            buf@ == b0 + chunk@.subrange(0, k as int),
        decreases chunk@.len() - k,
    {
        buf.push(chunk[k]);
        k = k + 1;
        assert(buf@ =~= b0 + chunk@.subrange(0, k as int));
    }
    assert(chunk@.subrange(0, chunk@.len() as int) =~= chunk@);
    if has_line_feed(buf) {
        return FrameStep::Complete;
    }
    if buf.len() > MAX_REQUEST_BYTES {
        FrameStep::TooLarge
    } else {
        FrameStep::NeedMore
    }
}

/// The decoding of bytes as UTF-8 (std's `str::from_utf8`): the text, or the text of the
/// error for invalid input.
pub uninterp spec fn utf8_decoding(bytes: Seq<u8>) -> Result<Seq<char>, Seq<char>>;

/// std's `str::from_utf8`, with the error shown as text. Valid UTF-8 decodes; bytes below
/// 128 are ASCII and decode one character each.
#[verifier::external_body]
fn decode_utf8(bytes: &[u8]) -> (r: Result<String, String>)
    ensures
        match r {
            Ok(s) => utf8_decoding(bytes@) == Ok::<Seq<char>, Seq<char>>(s@),
            Err(m) => utf8_decoding(bytes@) == Err::<Seq<char>, Seq<char>>(m@),
        },
        (forall|i: int| 0 <= i < bytes@.len() ==> bytes@[i] < 128) ==> r is Ok && r->Ok_0@ == bytes@.map_values(
            |b: u8| b as char,
        ),
{
    match std::str::from_utf8(bytes) {
        Ok(s) => Ok(s.to_string()),
        Err(e) => Err(format!("{e}")),
    }
}

/// The first line of a text (`str::lines`): up to the first line feed, without a
/// carriage return before it.
pub open spec fn first_line(t: Seq<char>) -> Seq<char> {
    let i = crate::seqs::first_index(t, |c: char| c == '\n');
    let line = if i >= 0 {
        t.subrange(0, i)
    } else {
        t
    };
    if line.len() > 0 && line.last() == '\r' {
        line.drop_last()
    } else {
        line
    }
}

/// The request a decoded read holds: its first line, trimmed; `None` when that is empty.
/// A decoding error becomes the error text.
pub open spec fn request_of_decoded(decoded: Result<Seq<char>, Seq<char>>) -> Result<Option<Seq<char>>, Seq<char>> {
    match decoded {
        Err(m) => Err("request was not valid utf-8: "@ + m),
        Ok(t) => {
            let l = trim_seq(first_line(t));
            if l.len() == 0 {
                Ok(None)
            } else {
                Ok(Some(l))
            }
        },
    }
}

/// The request a complete read holds.
pub open spec fn request_text(bytes: Seq<u8>) -> Result<Option<Seq<char>>, Seq<char>> {
    request_of_decoded(utf8_decoding(bytes))
}

pub open spec fn decoded_view(d: Result<String, String>) -> Result<Seq<char>, Seq<char>> {
    match d {
        Ok(s) => Ok(s@),
        Err(m) => Err(m@),
    }
}

/// The request line of what a read decoded to, or why it could not be read.
pub fn request_line_of(decoded: Result<String, String>) -> (r: Result<Option<String>, String>)
    ensures
        match r {
            Err(m) => request_of_decoded(decoded_view(decoded)) == Err::<Option<Seq<char>>, Seq<char>>(m@),
            Ok(None) => request_of_decoded(decoded_view(decoded)) == Ok::<Option<Seq<char>>, Seq<char>>(None),
            Ok(Some(l)) => request_of_decoded(decoded_view(decoded)) == Ok::<Option<Seq<char>>, Seq<char>>(Some(l@)),
        },
{
    let text = match decoded {
        Ok(t) => t,
        Err(e) => {
            let mut v = chars_of("request was not valid utf-8: ");
            let ev = chars_of(e.as_str());
            let ghost v0 = v@;
            let mut k: usize = 0;
            while k < ev.len()
                invariant
                    k <= ev@.len(),
                    v@ == v0 + ev@.subrange(0, k as int),
                decreases ev@.len() - k,
            {
                v.push(ev[k]);
                k = k + 1;
                assert(v@ =~= v0 + ev@.subrange(0, k as int));
            }
            assert(ev@.subrange(0, ev@.len() as int) =~= ev@);
            return Err(string_of(v.as_slice()));
        },
    };
    let t = chars_of(text.as_str());
    let ghost p = |c: char| c == '\n';
    let mut end: usize = 0;
    while end < t.len() && t[end] != '\n'
        invariant
            end <= t@.len(),
            p == (|c: char| c == '\n'),
            forall|j: int| 0 <= j < end ==> !p(#[trigger] t@[j]),
        decreases t@.len() - end,
    {
        end = end + 1;
    }
    proof {
        if end < t@.len() {
            crate::seqs::lemma_first_found(t@, p, end as int);
        } else {
            crate::seqs::lemma_first_none(t@, p);
            assert(t@.subrange(0, end as int) =~= t@);
        }
    }
    let mut line: Vec<char> = Vec::new();
    let mut k: usize = 0;
    while k < end
        invariant
            k <= end <= t@.len(),
            line@ == t@.subrange(0, k as int),
        decreases end - k,
    {
        line.push(t[k]);
        k = k + 1;
        assert(line@ =~= t@.subrange(0, k as int));
    }
    if line.len() > 0 && line[line.len() - 1] == '\r' {
        line.pop();
    }
    let trimmed = trim_vec(&line);
    if trimmed.len() == 0 {
        Ok(None)
    } else {
        Ok(Some(string_of(trimmed.as_slice())))
    }
}

/// The request line of what was read, or why it could not be read.
pub fn read_request_line(bytes: &Vec<u8>) -> (r: Result<Option<String>, String>)
    ensures
        match r {
            Err(m) => request_text(bytes@) == Err::<Option<Seq<char>>, Seq<char>>(m@),
            Ok(None) => request_text(bytes@) == Ok::<Option<Seq<char>>, Seq<char>>(None),
            Ok(Some(l)) => request_text(bytes@) == Ok::<Option<Seq<char>>, Seq<char>>(Some(l@)),
        },
{
    request_line_of(decode_utf8(bytes.as_slice()))
}

} // verus!
