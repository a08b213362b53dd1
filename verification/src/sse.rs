//! Server-sent events: frames in a byte stream, and the event and data that a frame carries.
use crate::json::{Json, JsonV};
use crate::json_model::rendered;
use crate::text::{
    chars_of, concat, decode_lossy, group_texts, is_char, join, joined, lossy_text, opt_text, pieces, split_char, strip_prefix, texts, trim,
    trim_start, trimmed, trimmed_start,
};
use vstd::prelude::*;
use vstd::utf8::encode_utf8;

verus! {

broadcast use group_texts;

/// Whether bytes stand at a place.
pub open spec fn bytes_at(buf: Seq<u8>, part: Seq<u8>, at: int) -> bool {
    0 <= at && at + part.len() <= buf.len() && buf.subrange(at, at + part.len()) == part
}

/// The first place at or after `from` where bytes stand.
pub open spec fn next_place(buf: Seq<u8>, part: Seq<u8>, from: int) -> Option<int>
    decreases buf.len() + 1 - from,
{
    if from < 0 || from + part.len() > buf.len() {
        None
    } else if bytes_at(buf, part, from) {
        Some(from)
    } else {
        next_place(buf, part, from + 1)
    }
}

/// Two line feeds.
pub open spec fn blank_line() -> Seq<u8> {
    seq![10u8, 10u8]
}

/// Two line ends of the long form.
pub open spec fn blank_crlf_line() -> Seq<u8> {
    seq![13u8, 10u8, 13u8, 10u8]
}

/// Where the first frame of a buffer ends, and how long its separator is.
pub open spec fn frame_end(buf: Seq<u8>) -> Option<(int, int)> {
    match (next_place(buf, blank_line(), 0), next_place(buf, blank_crlf_line(), 0)) {
        (None, None) => None,
        (Some(i), None) => Some((i, 2)),
        (None, Some(i)) => Some((i, 4)),
        (Some(i), Some(j)) => if i <= j {
            Some((i, 2))
        } else {
            Some((j, 4))
        },
    }
}

pub proof fn next_place_is_inside(buf: Seq<u8>, part: Seq<u8>, from: int)
    ensures
        match next_place(buf, part, from) {
            Some(i) => from <= i && bytes_at(buf, part, i) && forall|k: int|
                from <= k < i ==> !#[trigger] bytes_at(buf, part, k),
            None => from < 0 || forall|k: int| from <= k ==> !#[trigger] bytes_at(buf, part, k),
        },
    decreases buf.len() + 1 - from,
{
    if from < 0 || from + part.len() > buf.len() {
    } else if bytes_at(buf, part, from) {
    } else {
        next_place_is_inside(buf, part, from + 1);
    }
}

fn find_bytes(buf: &[u8], part: &[u8]) -> (at: Option<usize>)
    ensures
        match at {
            Some(i) => next_place(buf@, part@, 0) == Some(i as int) && i + part@.len() <= buf@.len(),
            None => next_place(buf@, part@, 0) is None,
        },
{
    let n: usize = buf.len();
    let m: usize = part.len();
    let mut i: usize = 0;
    while i <= n && m <= n - i
        invariant
            n == buf@.len(),
            m == part@.len(),
            i <= n + 1,
            next_place(buf@, part@, 0) == next_place(buf@, part@, i as int),
        decreases n + 1 - i,
    {
        let mut k: usize = 0;
        while k < m && buf[i + k] == part[k]
            invariant
                n == buf@.len(),
                m == part@.len(),
                i + m <= n,
                k <= m,
                forall|j: int| 0 <= j < k ==> buf@[i + j] == #[trigger] part@[j],
            decreases m - k,
        {
            k = k + 1;
        }
        if k == m {
            assert(buf@.subrange(i as int, i + m) =~= part@);
            return Some(i);
        }
        assert(buf@.subrange(i as int, i + m)[k as int] != part@[k as int]);
        if i == n {
            return None;
        }
        i = i + 1;
    }
    None
}

/// The bytes of a run.
pub fn bytes_between(buf: &[u8], from: usize, to: usize) -> (out: Vec<u8>)
    requires
        from <= to <= buf@.len(),
    ensures
        out@ == buf@.subrange(from as int, to as int),
{
    let mut out: Vec<u8> = Vec::with_capacity(to - from);
    let mut i: usize = from;
    while i < to
        invariant
            from <= i <= to <= buf@.len(),
            out@ == buf@.subrange(from as int, i as int),
        decreases to - i,
    {
        out.push(buf[i]);
        i = i + 1;
    }
    out
}

/// Splits the first frame off a buffer: the frame, the length of its separator, and the rest.
pub fn split_frame(buf: &[u8]) -> (found: Option<(Vec<u8>, usize, Vec<u8>)>)
    ensures
        match found {
            Some((frame, len, rest)) => match frame_end(buf@) {
                Some((at, sep)) => {
                    &&& 0 <= at
                    &&& at + sep <= buf@.len()
                    &&& frame@ == buf@.take(at)
                    &&& len == sep
                    &&& rest@ == buf@.skip(at + sep)
                },
                None => false,
            },
            None => frame_end(buf@) is None,
        },
{
    let lf_bytes: [u8; 2] = [10u8, 10u8];
    let crlf_bytes: [u8; 4] = [13u8, 10u8, 13u8, 10u8];
    assert(lf_bytes@ =~= blank_line());
    assert(crlf_bytes@ =~= blank_crlf_line());
    let lf = find_bytes(buf, &lf_bytes);
    let crlf = find_bytes(buf, &crlf_bytes);
    let (at, len): (usize, usize) = match (lf, crlf) {
        (None, None) => {
            return None;
        },
        (Some(i), None) => (i, 2),
        (None, Some(i)) => (i, 4),
        (Some(i), Some(j)) => if i <= j {
            (i, 2)
        } else {
            (j, 4)
        },
    };
    let n: usize = buf.len();
    assert(at + len <= n);
    let frame = bytes_between(buf, 0, at);
    let rest = bytes_between(buf, at + len, n);
    assert(frame@ =~= buf@.take(at as int));
    assert(rest@ =~= buf@.skip(at + len));
    Some((frame, len, rest))
}

/// A text with the short line end in place of the long one.
pub open spec fn short_line_ends(s: Seq<char>) -> Seq<char>
    decreases s.len(),
{
    if s.len() == 0 {
        s
    } else if s.len() > 1 && s[0] == '\r' && s[1] == '\n' {
        seq!['\n'] + short_line_ends(s.skip(2))
    } else {
        seq![s[0]] + short_line_ends(s.skip(1))
    }
}

fn shorten_line_ends(s: &str) -> (out: String)
    ensures
        out@ == short_line_ends(s@),
{
    let cs = chars_of(s);
    let mut out = String::new();
    let mut i: usize = 0;
    let n: usize = cs.len();
    assert(cs@.skip(0) =~= cs@);
    assert(out@ + short_line_ends(cs@) =~= short_line_ends(cs@));
    while i < n
        invariant
            i <= n,
            n == cs@.len(),
            out@ + short_line_ends(cs@.skip(i as int)) == short_line_ends(cs@),
        decreases n - i,
    {
        let ghost was = out@;
        let ghost tail = cs@.skip(i as int);
        if i < n - 1 && cs[i] == '\r' && cs[i + 1] == '\n' {
            out.push('\n');
            assert(tail.skip(2) =~= cs@.skip(i + 2));
            assert(was + (seq!['\n'] + short_line_ends(tail.skip(2))) =~= out@ + short_line_ends(tail.skip(2)));
            i = i + 2;
        } else {
            out.push(cs[i]);
            assert(tail.skip(1) =~= cs@.skip(i + 1));
            assert(was + (seq![tail[0]] + short_line_ends(tail.skip(1))) =~= out@ + short_line_ends(tail.skip(1)));
            i = i + 1;
        }
    }
    assert(cs@.skip(i as int) =~= Seq::empty());
    assert(out@ + Seq::<char>::empty() =~= out@);
    out
}

/// The event and the data lines that lines of a frame carry. The last event line counts.
pub open spec fn event_of_lines(lines: Seq<Seq<char>>) -> (Option<Seq<char>>, Seq<Seq<char>>)
    decreases lines.len(),
{
    if lines.len() == 0 {
        (None, Seq::empty())
    } else {
        let (event, data) = event_of_lines(lines.drop_last());
        let line = lines.last();
        if "event:"@.is_prefix_of(line) {
            (Some(trimmed(line.skip("event:"@.len() as int))), data)
        } else if "data:"@.is_prefix_of(line) {
            (event, data.push(trimmed_start(line.skip("data:"@.len() as int))))
        } else {
            (event, data)
        }
    }
}

/// The event name that a frame carries, and its data.
pub open spec fn frame_event(frame: Seq<u8>) -> (Option<Seq<char>>, Seq<char>) {
    let (event, data) = event_of_lines(pieces(short_line_ends(lossy_text(frame)), is_char('\n')));
    (event, joined(data, "\n"@))
}

/// Reads the event name and the data of a frame.
pub fn event_and_data(frame: &[u8]) -> (found: (Option<String>, String))
    ensures
        match found.0 {
            Some(event) => frame_event(frame@).0 == Some(event@),
            None => frame_event(frame@).0 is None,
        },
        found.1@ == frame_event(frame@).1,
{
    let decoded = decode_lossy(frame);
    let normalized = shorten_line_ends(decoded.as_str());
    let lines = split_char(normalized.as_str(), '\n');
    let ghost all = texts(lines@);
    let mut event: Option<String> = None;
    let mut data: Vec<String> = Vec::new();
    let mut i: usize = 0;
    while i < lines.len()
        invariant
            i <= lines@.len(),
            all == texts(lines@),
            texts(data@) == event_of_lines(all.take(i as int)).1,
            match event {
                Some(e) => event_of_lines(all.take(i as int)).0 == Some(e@),
                None => event_of_lines(all.take(i as int)).0 is None,
            },
        decreases lines@.len() - i,
    {
        assert(all.take(i + 1).drop_last() =~= all.take(i as int));
        let line = lines[i].as_str();
        if let Some(rest) = strip_prefix(line, "event:") {
            event = Some(trim(rest.as_str()));
        } else if let Some(rest) = strip_prefix(line, "data:") {
            data.push(trim_start(rest.as_str()));
        }
        i = i + 1;
    }
    assert(all.take(i as int) =~= all);
    (event, join(&data, "\n"))
}

/// The text of a frame that carries a value.
pub open spec fn sse_text(event: Option<Seq<char>>, value: JsonV) -> Seq<char> {
    let data = "data: "@ + rendered(value) + "\n\n"@;
    match event {
        Some(name) => "event: "@ + name + "\n"@ + data,
        None => data,
    }
}

/// The bytes of a frame that carries a value.
pub open spec fn sse_bytes(event: Option<Seq<char>>, value: JsonV) -> Seq<u8> {
    encode_utf8(sse_text(event, value))
}

/// Writes a frame that carries a value.
pub fn render_sse(event: Option<&str>, value: &Json) -> (out: Vec<u8>)
    ensures
        out@ == sse_bytes(opt_text(event), value@),
{
    let body = value.render();
    let data = concat(concat("data: ", body.as_str()).as_str(), "\n\n");
    let text = match event {
        Some(name) => concat(concat(concat("event: ", name).as_str(), "\n").as_str(), data.as_str()),
        None => data,
    };
    text.as_str().as_bytes_vec()
}

/// A frame as it came, with its separator.
pub fn passthrough(frame: &[u8], sep: &[u8]) -> (out: Vec<u8>)
    ensures
        out@ == frame@ + sep@,
{
    let mut out: Vec<u8> = Vec::new();
    out.extend_from_slice(frame);
    out.extend_from_slice(sep);
    out
}

} // verus!
