//! The head of an HTTP request.
use crate::messages::{find_char, place_of, place_shifts};
use crate::text::{
    byte_len, chars_at, chars_of, concat, decimal, decode_strict, group_texts, is_space, lowered, number_text, pairs_view, pieces, pieces_not_empty,
    same, stands_at, text_of, texts, to_lower, trim, trimmed,
};
use vstd::prelude::*;
use vstd::utf8::{decode_utf8, encode_utf8, valid_utf8};

verus! {

broadcast use group_texts;

/// The most bytes of a request's head.
pub const MAX_HEAD_BYTES: usize = 65536;

/// The first place of a text in another, or the length.
pub open spec fn part_place(s: Seq<char>, part: Seq<char>) -> int
    decreases s.len(),
{
    if s.len() == 0 || stands_at(s, part, 0) {
        0
    } else {
        1 + part_place(s.drop_first(), part)
    }
}

/// The texts between the places of a separator.
pub open spec fn parts(s: Seq<char>, sep: Seq<char>) -> Seq<Seq<char>>
    decreases s.len(),
{
    let at = part_place(s, sep);
    if sep.len() == 0 || at < 0 || at + sep.len() > s.len() {
        seq![s]
    } else {
        seq![s.take(at)] + parts(s.skip(at + sep.len()), sep)
    }
}

fn find_part(s: &Vec<char>, part: &Vec<char>, from: usize) -> (at: usize)
    requires
        from <= s@.len(),
    ensures
        from <= at <= s@.len(),
        at - from == part_place(s@.skip(from as int), part@),
{
    let mut at: usize = from;
    while at < s.len() && !chars_at(s, part, at)
        invariant
            from <= at <= s@.len(),
            part_place(s@.skip(from as int), part@) == at - from + part_place(s@.skip(at as int), part@),
        decreases s@.len() - at,
    {
        assert(s@.skip(at as int).drop_first() =~= s@.skip(at + 1));
        proof {
            place_shifts(s@, part@, at as int);
        }
        at = at + 1;
    }
    proof {
        place_shifts(s@, part@, at as int);
    }
    at
}

/// The texts between the places of a separator, which is not empty.
pub fn split_text(s: &str, sep: &str) -> (out: Vec<String>)
    requires
        sep@.len() > 0,
    ensures
        texts(out@) == parts(s@, sep@),
        out@.len() > 0,
{
    let chars = chars_of(s);
    let wanted = chars_of(sep);
    let n: usize = chars.len();
    let m: usize = wanted.len();
    let mut out: Vec<String> = Vec::new();
    let mut from: usize = 0;
    assert(s@.skip(0) =~= s@);
    assert(texts(out@) + parts(s@, sep@) =~= parts(s@, sep@));
    loop
        invariant
            n == chars@.len(),
            m == wanted@.len(),
            m > 0,
            from <= n,
            chars@ == s@,
            wanted@ == sep@,
            texts(out@) + parts(s@.skip(from as int), sep@) == parts(s@, sep@),
        decreases n - from,
    {
        let ghost rest = s@.skip(from as int);
        let ghost before = texts(out@);
        let at: usize = find_part(&chars, &wanted, from);
        if m > n - at {
            let tail = text_of(&chars, from, n);
            assert(tail@ =~= rest);
            out.push(tail);
            assert(before.push(rest) =~= before + seq![rest]);
            return out;
        }
        let piece = text_of(&chars, from, at);
        assert(piece@ =~= rest.take(at - from));
        assert(rest.skip(at - from + m) =~= s@.skip(at + m));
        out.push(piece);
        from = at + m;
        assert(texts(out@) + parts(s@.skip(from as int), sep@) =~= before + (seq![piece@] + parts(
            s@.skip(from as int),
            sep@,
        )));
    }
}

/// The separators that are white space.
pub open spec fn spaces() -> spec_fn(char) -> bool {
    |c: char| is_space(c)
}

/// The texts of a list that are not empty.
pub open spec fn not_empty(list: Seq<Seq<char>>) -> Seq<Seq<char>>
    decreases list.len(),
{
    if list.len() == 0 {
        Seq::empty()
    } else if list.last().len() == 0 {
        not_empty(list.drop_last())
    } else {
        not_empty(list.drop_last()).push(list.last())
    }
}

/// The words of a text, which white space separates.
pub open spec fn words(s: Seq<char>) -> Seq<Seq<char>> {
    not_empty(pieces(s, spaces()))
}

/// The words of a text, which white space separates.
pub fn split_whitespace(s: &str) -> (out: Vec<String>)
    ensures
        texts(out@) == words(s@),
{
    let mut out: Vec<String> = Vec::new();
    let mut current = String::new();
    let ghost f = spaces();
    assert(pieces(s@.take(0), f) =~= seq![Seq::empty()]);
    assert(pieces(s@.take(0), f).drop_last() =~= Seq::empty());
    for c in it: s.chars()
        invariant
            it.seq() == s@,
            f == spaces(),
            texts(out@) == not_empty(pieces(s@.take(it.index()), f).drop_last()),
            current@ == pieces(s@.take(it.index()), f).last(),
    {
        let ghost was = pieces(s@.take(it.index()), f);
        let ghost now = pieces(s@.take(it.index() + 1), f);
        assert(s@.take(it.index() + 1).drop_last() =~= s@.take(it.index()));
        proof {
            pieces_not_empty(s@.take(it.index()), f);
        }
        if c.is_whitespace() {
            assert(now.drop_last() =~= was);
            if current.as_str().unicode_len() > 0 {
                out.push(current);
            }
            current = String::new();
        } else {
            assert(now.drop_last() =~= was.drop_last());
            current.push(c);
        }
    }
    assert(s@.take(s@.len() as int) =~= s@);
    if current.as_str().unicode_len() > 0 {
        out.push(current);
    }
    out
}

/// What stands before the first of a character, and what stands behind it.
pub open spec fn parted(s: Seq<char>, c: char) -> Option<(Seq<char>, Seq<char>)> {
    let at = place_of(s, c);
    if 0 <= at < s.len() {
        Some((s.take(at), s.skip(at + 1)))
    } else {
        None
    }
}

/// What stands before the first of a character, and what stands behind it.
pub fn split_once(s: &str, c: char) -> (out: Option<(String, String)>)
    ensures
        match out {
            Some((before, behind)) => parted(s@, c) == Some((before@, behind@)),
            None => parted(s@, c) is None,
        },
{
    let chars = chars_of(s);
    assert(chars@.skip(0) =~= s@);
    let at: usize = find_char(&chars, 0, c);
    if at >= chars.len() {
        return None;
    }
    let before = text_of(&chars, 0, at);
    let behind = text_of(&chars, at + 1, chars.len());
    assert(before@ =~= s@.take(at as int));
    assert(behind@ =~= s@.skip(at + 1));
    Some((before, behind))
}

/// Whether bytes end with the blank line that ends a head.
pub open spec fn ends_head(bytes: Seq<u8>) -> bool {
    bytes.len() >= 4 && bytes.skip(bytes.len() - 4) == seq![13u8, 10u8, 13u8, 10u8]
}

/// What the bytes of a head that have come so far call for.
#[derive(Debug)]
pub enum HeadStep {
    More,
    Complete,
    TooLong,
}

pub open spec fn head_step_of(bytes: Seq<u8>) -> HeadStep {
    if bytes.len() > MAX_HEAD_BYTES {
        HeadStep::TooLong
    } else if ends_head(bytes) {
        HeadStep::Complete
    } else {
        HeadStep::More
    }
}

/// What the bytes of a head that have come so far call for; they come one at a time.
pub fn head_step(bytes: &Vec<u8>) -> (step: HeadStep)
    ensures
        step == head_step_of(bytes@),
{
    let n: usize = bytes.len();
    if n > MAX_HEAD_BYTES {
        return HeadStep::TooLong;
    }
    let ghost end = bytes@.skip(n - 4);
    if n >= 4 && bytes[n - 4] == 13 && bytes[n - 3] == 10 && bytes[n - 2] == 13 && bytes[n - 1] == 10 {
        assert(end =~= seq![13u8, 10u8, 13u8, 10u8]);
        HeadStep::Complete
    } else {
        proof {
            if ends_head(bytes@) {
                assert(end[0] == 13 && end[1] == 10 && end[2] == 13 && end[3] == 10);
            }
        }
        HeadStep::More
    }
}

/// The length of the head at the start of bytes, where it is complete.
pub open spec fn is_head_length(bytes: Seq<u8>, n: int) -> bool {
    &&& 0 <= n <= bytes.len()
    &&& n <= MAX_HEAD_BYTES
    &&& ends_head(bytes.take(n))
    &&& forall|k: int| 0 <= k < n ==> !ends_head(#[trigger] bytes.take(k))
}

/// Whether no head is complete in bytes.
pub open spec fn no_head(bytes: Seq<u8>) -> bool {
    forall|k: int| 0 <= k <= bytes.len() && k <= MAX_HEAD_BYTES ==> !ends_head(#[trigger] bytes.take(k))
}

/// The length of the head at the start of bytes that hold all that comes.
pub fn head_length(bytes: &Vec<u8>) -> (out: Option<usize>)
    ensures
        match out {
            Some(n) => is_head_length(bytes@, n as int),
            None => no_head(bytes@),
        },
{
    let n: usize = bytes.len();
    let mut at: usize = 0;
    assert(!ends_head(bytes@.take(0)));
    while at < n && at < MAX_HEAD_BYTES
        invariant
            n == bytes@.len(),
            at <= n,
            at <= MAX_HEAD_BYTES,
            forall|k: int| 0 <= k <= at ==> !ends_head(#[trigger] bytes@.take(k)),
        decreases n - at,
    {
        at = at + 1;
        let ghost end = bytes@.take(at as int).skip(at - 4);
        if at >= 4 && bytes[at - 4] == 13 && bytes[at - 3] == 10 && bytes[at - 2] == 13 && bytes[at - 1] == 10 {
            assert(end =~= seq![13u8, 10u8, 13u8, 10u8]);
            return Some(at);
        }
        proof {
            if ends_head(bytes@.take(at as int)) {
                assert(end[0] == 13 && end[1] == 10 && end[2] == 13 && end[3] == 10);
            }
        }
    }
    None
}

/// The head of a request. Headers keep their order, and a name may come twice; names are in lower
/// case.
#[derive(Debug)]
pub struct RequestHead {
    pub method: String,
    pub target: String,
    pub headers: Vec<(String, String)>,
}

pub struct HeadV {
    pub method: Seq<char>,
    pub target: Seq<char>,
    pub headers: Seq<(Seq<char>, Seq<char>)>,
}

impl View for RequestHead {
    type V = HeadV;

    open spec fn view(&self) -> HeadV {
        HeadV { method: self.method@, target: self.target@, headers: pairs_view(self.headers@) }
    }
}

/// The refusal of a line that is no header. It tells the line's length and nothing of what it holds.
pub open spec fn bad_line(line: Seq<char>) -> Seq<char> {
    "非法头行("@ + decimal(encode_utf8(line).len()) + " 字节)"@
}

/// The headers of lines. A line without a colon is refused where `strict`, and passed over otherwise.
pub open spec fn header_list(lines: Seq<Seq<char>>, strict: bool) -> Result<Seq<(Seq<char>, Seq<char>)>, Seq<char>>
    decreases lines.len(),
{
    if lines.len() == 0 {
        Ok(Seq::empty())
    } else {
        let line = lines.last();
        match header_list(lines.drop_last(), strict) {
            Err(e) => Err(e),
            Ok(list) => if line.len() == 0 {
                Ok(list)
            } else {
                match parted(line, ':') {
                    Some((name, value)) => Ok(list.push((lowered(trimmed(name)), trimmed(value)))),
                    None => if strict {
                        Err(bad_line(line))
                    } else {
                        Ok(list)
                    },
                }
            },
        }
    }
}

/// What the text of a head says.
pub open spec fn head_of(text: Seq<char>, strict: bool) -> Result<HeadV, Seq<char>> {
    let lines = parts(text, "\r\n"@);
    let first = words(lines[0]);
    if first.len() == 0 {
        Err("缺少方法"@)
    } else if first.len() == 1 {
        Err("缺少请求目标"@)
    } else {
        match header_list(lines.drop_first(), strict) {
            Err(e) => Err(e),
            Ok(headers) => Ok(HeadV { method: first[0], target: first[1], headers }),
        }
    }
}

/// What the bytes of a head say.
pub open spec fn head_of_bytes(bytes: Seq<u8>, strict: bool) -> Result<HeadV, Seq<char>> {
    if valid_utf8(bytes) {
        head_of(decode_utf8(bytes), strict)
    } else {
        Err("请求头不是合法 UTF-8"@)
    }
}

pub proof fn failed_headers_stay(lines: Seq<Seq<char>>, n: int, strict: bool)
    requires
        0 <= n <= lines.len(),
        header_list(lines.take(n), strict) is Err,
    ensures
        header_list(lines, strict) == header_list(lines.take(n), strict),
    decreases lines.len(),
{
    if n == lines.len() {
        assert(lines.take(n) =~= lines);
    } else {
        assert(lines.drop_last().take(n) =~= lines.take(n));
        failed_headers_stay(lines.drop_last(), n, strict);
    }
}

fn read_headers(lines: &Vec<String>, strict: bool) -> (out: Result<Vec<(String, String)>, String>)
    requires
        lines@.len() > 0,
    ensures
        match (out, header_list(texts(lines@).drop_first(), strict)) {
            (Ok(headers), Ok(meant)) => pairs_view(headers@) == meant,
            (Err(e), Err(reason)) => e@ == reason,
            _ => false,
        },
{
    let ghost all = texts(lines@).drop_first();
    let n: usize = lines.len();
    let mut headers: Vec<(String, String)> = Vec::new();
    let mut i: usize = 1;
    assert(all.take(0) =~= Seq::empty());
    assert(pairs_view(headers@) =~= Seq::empty());
    while i < n
        invariant
            n == lines@.len(),
            1 <= i <= n,
            all == texts(lines@).drop_first(),
            header_list(all.take(i - 1), strict) == Ok::<Seq<(Seq<char>, Seq<char>)>, Seq<char>>(pairs_view(headers@)),
        decreases n - i,
    {
        let line = lines[i].as_str();
        assert(all.take(i as int).drop_last() =~= all.take(i - 1));
        assert(all.take(i as int).last() == line@);
        if line.unicode_len() > 0 {
            match split_once(line, ':') {
                Some((name, value)) => {
                    let ghost before = pairs_view(headers@);
                    let entry = (to_lower(trim(name.as_str()).as_str()), trim(value.as_str()));
                    let ghost pair = (entry.0@, entry.1@);
                    headers.push(entry);
                    assert(pairs_view(headers@) =~= before.push(pair));
                },
                None => {
                    if strict {
                        let start = concat("非法头行(", number_text(byte_len(line) as u64).as_str());
                        let refusal = concat(start.as_str(), " 字节)");
                        proof {
                            failed_headers_stay(all, i as int, strict);
                        }
                        return Err(refusal);
                    }
                },
            }
        }
        i = i + 1;
    }
    assert(all.take(n - 1) =~= all);
    Ok(headers)
}

/// Reads the bytes of a complete head. A line without a colon is refused where `strict`, and passed
/// over otherwise.
pub fn parse_head(bytes: Vec<u8>, strict: bool) -> (out: Result<RequestHead, String>)
    ensures
        match (out, head_of_bytes(bytes@, strict)) {
            (Ok(head), Ok(meant)) => head@ == meant,
            (Err(e), Err(reason)) => e@ == reason,
            _ => false,
        },
{
    let text = match decode_strict(bytes) {
        Some(text) => text,
        None => {
            return Err("请求头不是合法 UTF-8".to_owned());
        },
    };
    proof {
        reveal_strlit("\r\n");
    }
    let lines = split_text(text.as_str(), "\r\n");
    let first = split_whitespace(lines[0].as_str());
    if first.len() == 0 {
        return Err("缺少方法".to_owned());
    }
    if first.len() == 1 {
        return Err("缺少请求目标".to_owned());
    }
    match read_headers(&lines, strict) {
        Err(e) => Err(e),
        Ok(headers) => Ok(
            RequestHead { method: first[0].as_str().to_owned(), target: first[1].as_str().to_owned(), headers },
        ),
    }
}

/// The value of a name; of two values, the first.
pub open spec fn first_value(headers: Seq<(Seq<char>, Seq<char>)>, name: Seq<char>) -> Option<Seq<char>>
    decreases headers.len(),
{
    if headers.len() == 0 {
        None
    } else if headers[0].0 == name {
        Some(headers[0].1)
    } else {
        first_value(headers.drop_first(), name)
    }
}

/// Finds the value of a header; of two values, the first.
pub fn header_value<'a>(headers: &'a Vec<(String, String)>, name: &str) -> (value: Option<&'a str>)
    ensures
        crate::text::opt_text(value) == first_value(pairs_view(headers@), name@),
{
    let ghost all = pairs_view(headers@);
    let mut i: usize = 0;
    assert(all.skip(0) =~= all);
    while i < headers.len()
        invariant
            i <= headers@.len(),
            all == pairs_view(headers@),
            first_value(all, name@) == first_value(all.skip(i as int), name@),
        decreases headers@.len() - i,
    {
        assert(all.skip(i as int)[0] == (headers@[i as int].0@, headers@[i as int].1@));
        assert(all.skip(i as int).drop_first() =~= all.skip(i + 1));
        if same(headers[i].0.as_str(), name) {
            return Some(headers[i].1.as_str());
        }
        i = i + 1;
    }
    None
}

} // verus!
