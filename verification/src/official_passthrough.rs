//! The mode in which requests go to the official upstream unchanged.
//!
//! Bodies are not rewritten, and of the headers only those leave that belong to one connection. The
//! log tells times, methods, paths, states and sizes; no header and no body reaches it.
use crate::json::{Json, JsonV};
use crate::json_model::{group_json_views, rendered};
use crate::text::{
    chars_of, concat, contains, decimal, decode_strict, group_texts, has_part, is_char, join, joined, lowered,
    number_text, pairs_view, parse_unsigned, pieces, same, split_char, starts_with, texts, to_lower, trim,
    trim_end_char, trimmed, unsigned_number, without_end,
};
use crate::kimi_coding_search::number;
use crate::provider_contracts::opt_owned;
use crate::wire::{
    ends_head, first_value, head_length, head_of_bytes, header_value, is_head_length, no_head, parse_head, parted, split_once, HeadV, RequestHead,
    MAX_HEAD_BYTES,
};
use vstd::prelude::*;
use vstd::slice::{slice_subrange, slice_to_vec};
use vstd::utf8::{decode_utf8, encode_utf8, valid_utf8};

verus! {

broadcast use {group_json_views, group_texts};

pub const DEFAULT_UPSTREAM: &'static str = "https://api.anthropic.com";

/// The most bytes of a request's body.
pub const MAX_BODY_BYTES: usize = 67_108_864;

/// The longest line of a chunk's framing, in bytes.
pub const MAX_CHUNK_LINE_BYTES: usize = 8192;

/// What the mode is started with.
#[derive(Debug)]
pub struct Options {
    pub port: u16,
    pub log_path: String,
    pub upstream: String,
}

pub struct OptionsV {
    pub port: u16,
    pub log_path: Seq<char>,
    pub upstream: Seq<char>,
}

impl View for Options {
    type V = OptionsV;

    open spec fn view(&self) -> OptionsV {
        OptionsV { port: self.port, log_path: self.log_path@, upstream: self.upstream@ }
    }
}

/// What arguments ask for, where some were read before them.
pub open spec fn options_from(
    args: Seq<Seq<char>>,
    port: Option<u16>,
    log_path: Option<Seq<char>>,
    upstream: Seq<char>,
) -> Result<OptionsV, Seq<char>>
    decreases args.len(),
{
    if args.len() == 0 {
        match (port, log_path) {
            (None, _) => Err("必须提供 --port"@),
            (Some(_), None) => Err("必须提供 --log(脱敏端点日志文件)"@),
            (Some(port), Some(log_path)) => Ok(OptionsV { port, log_path, upstream: without_end(upstream, '/') }),
        }
    } else if args[0] == "--port"@ {
        if args.len() < 2 {
            Err("--port 缺少值"@)
        } else {
            match unsigned_number(args[1], 65535) {
                Some(n) => options_from(args.skip(2), Some(n as u16), log_path, upstream),
                None => Err("非法端口:"@ + args[1]),
            }
        }
    } else if args[0] == "--log"@ {
        if args.len() < 2 {
            Err("--log 缺少值"@)
        } else {
            options_from(args.skip(2), port, Some(args[1]), upstream)
        }
    } else if args[0] == "--upstream"@ {
        if args.len() < 2 {
            Err("--upstream 缺少值"@)
        } else {
            options_from(args.skip(2), port, log_path, args[1])
        }
    } else {
        Err("未知参数:"@ + args[0])
    }
}

/// Reads the mode's arguments.
pub fn parse_args(args: &Vec<String>) -> (out: Result<Options, String>)
    ensures
        match (out, options_from(texts(args@), None, None, DEFAULT_UPSTREAM@)) {
            (Ok(options), Ok(meant)) => options@ == meant,
            (Err(e), Err(reason)) => e@ == reason,
            _ => false,
        },
{
    let n: usize = args.len();
    let mut port: Option<u16> = None;
    let mut log_path: Option<String> = None;
    let mut upstream = DEFAULT_UPSTREAM.to_owned();
    let mut i: usize = 0;
    let ghost all = texts(args@);
    assert(all.skip(0) =~= all);
    while i < n
        invariant
            n == args@.len(),
            i <= n,
            all == texts(args@),
            options_from(all, None, None, DEFAULT_UPSTREAM@) == options_from(
                all.skip(i as int),
                port,
                opt_owned(log_path),
                upstream@,
            ),
        decreases n - i,
    {
        let ghost rest = all.skip(i as int);
        assert(rest[0] == args@[i as int]@);
        assert(rest.len() == n - i);
        let known = same(args[i].as_str(), "--port") || same(args[i].as_str(), "--log") || same(
            args[i].as_str(),
            "--upstream",
        );
        if !known {
            return Err(concat("未知参数:", args[i].as_str()));
        }
        proof {
            reveal_strlit("--port");
            reveal_strlit("--log");
            reveal_strlit("--upstream");
            reveal_strlit(" 缺少值");
            reveal_strlit("--port 缺少值");
            reveal_strlit("--log 缺少值");
            reveal_strlit("--upstream 缺少值");
        }
        assert("--port"@ + " 缺少值"@ =~= "--port 缺少值"@);
        assert("--log"@ + " 缺少值"@ =~= "--log 缺少值"@);
        assert("--upstream"@ + " 缺少值"@ =~= "--upstream 缺少值"@);
        if n - i < 2 {
            return Err(concat(args[i].as_str(), " 缺少值"));
        }
        let value = args[i + 1].as_str();
        assert(rest[1] == value@);
        assert(rest.skip(2) =~= all.skip(i + 2));
        if same(args[i].as_str(), "--port") {
            match parse_unsigned(value, 65535) {
                Some(p) => {
                    port = Some(p as u16);
                },
                None => {
                    return Err(concat("非法端口:", value));
                },
            }
        } else if same(args[i].as_str(), "--log") {
            log_path = Some(value.to_owned());
        } else {
            upstream = value.to_owned();
        }
        i = i + 2;
    }
    assert(all.skip(i as int) =~= Seq::empty());
    match (port, log_path) {
        (None, _) => Err("必须提供 --port".to_owned()),
        (Some(_), None) => Err("必须提供 --log(脱敏端点日志文件)".to_owned()),
        (Some(port), Some(log_path)) => Ok(
            Options { port, log_path, upstream: trim_end_char(upstream.as_str(), '/') },
        ),
    }
}

/// What a request at the start of bytes says, and where its head ends; the bytes are all that comes.
pub open spec fn is_head_read(bytes: Seq<u8>, head: HeadV, end: int) -> bool {
    is_head_length(bytes, end) && head_of_bytes(bytes.take(end), true) == Ok::<HeadV, Seq<char>>(head)
}

/// Whether reading the head of a request fails for a reason.
pub open spec fn is_head_refused(bytes: Seq<u8>, reason: Seq<char>) -> bool {
    if no_head(bytes) {
        reason == if bytes.len() > MAX_HEAD_BYTES {
            "请求头超过上限"@
        } else {
            "请求头为空或被截断"@
        }
    } else {
        exists|end: int| #[trigger]
            is_head_length(bytes, end) && head_of_bytes(bytes.take(end), true) == Err::<HeadV, Seq<char>>(reason)
    }
}

/// Reads the head of a request from bytes that hold all that comes.
pub fn read_request_head(bytes: &Vec<u8>) -> (out: Result<(RequestHead, usize), String>)
    ensures
        match out {
            Ok((head, end)) => is_head_read(bytes@, head@, end as int),
            Err(e) => is_head_refused(bytes@, e@),
        },
{
    match head_length(bytes) {
        None => Err(
            if bytes.len() > MAX_HEAD_BYTES {
                "请求头超过上限".to_owned()
            } else {
                "请求头为空或被截断".to_owned()
            },
        ),
        Some(end) => {
            assert(!no_head(bytes@)) by {
                assert(ends_head(bytes@.take(end as int)));
            }
            let head = slice_to_vec(slice_subrange(bytes.as_slice(), 0, end));
            assert(head@ =~= bytes@.take(end as int));
            match parse_head(head, true) {
                Ok(head) => Ok((head, end)),
                Err(e) => Err(e),
            }
        },
    }
}

/// The place of the first line feed at or after a place, counted from there, or what is left.
pub open spec fn line_length(bytes: Seq<u8>, at: int) -> int
    decreases bytes.len() - at,
{
    if at < 0 || at >= bytes.len() || bytes[at] == 10 {
        0
    } else {
        1 + line_length(bytes, at + 1)
    }
}

/// A line of a chunk's framing.
pub enum LineV {
    More,
    Long,
    Garbled,
    Line(Seq<char>, int),
}

/// A line without the carriage return at its end.
pub open spec fn line_bytes(bytes: Seq<u8>) -> Seq<u8> {
    if bytes.len() > 0 && bytes.last() == 13 {
        bytes.drop_last()
    } else {
        bytes
    }
}

/// The line that starts at a place, and where the next one starts.
pub open spec fn line_at(bytes: Seq<u8>, at: int) -> LineV {
    let n = line_length(bytes, at);
    if n > MAX_CHUNK_LINE_BYTES {
        LineV::Long
    } else if at + n >= bytes.len() {
        LineV::More
    } else {
        let line = line_bytes(bytes.subrange(at, at + n));
        if valid_utf8(line) {
            LineV::Line(decode_utf8(line), at + n + 1)
        } else {
            LineV::Garbled
        }
    }
}

pub proof fn line_length_is(bytes: Seq<u8>, at: int, n: int)
    requires
        0 <= at,
        0 <= n,
        at + n <= bytes.len(),
        at + n < bytes.len() ==> bytes[at + n] == 10,
        forall|k: int| at <= k < at + n ==> bytes[k] != 10,
    ensures
        line_length(bytes, at) == n,
    decreases n,
{
    if n > 0 {
        line_length_is(bytes, at + 1, n - 1);
    }
}

pub proof fn line_length_bounds(bytes: Seq<u8>, at: int)
    requires
        0 <= at <= bytes.len(),
    ensures
        0 <= line_length(bytes, at) <= bytes.len() - at,
    decreases bytes.len() - at,
{
    if at < bytes.len() && bytes[at] != 10 {
        line_length_bounds(bytes, at + 1);
    }
}

pub proof fn long_line(bytes: Seq<u8>, at: int, n: int)
    requires
        0 <= at,
        0 <= n,
        at + n <= bytes.len(),
        forall|k: int| at <= k < at + n ==> bytes[k] != 10,
    ensures
        line_length(bytes, at) >= n,
    decreases n,
{
    if n > 0 {
        long_line(bytes, at + 1, n - 1);
    } else {
        line_length_bounds(bytes, at);
    }
}

/// What reading a line of a chunk's framing comes to.
#[derive(Debug)]
pub enum LineStep {
    More,
    Long,
    Garbled,
    Line(String, usize),
}

impl View for LineStep {
    type V = LineV;

    open spec fn view(&self) -> LineV {
        match *self {
            LineStep::More => LineV::More,
            LineStep::Long => LineV::Long,
            LineStep::Garbled => LineV::Garbled,
            LineStep::Line(text, next) => LineV::Line(text@, next as int),
        }
    }
}

/// Reads the line that starts at a place.
pub fn read_crlf_line(bytes: &Vec<u8>, at: usize) -> (step: LineStep)
    requires
        at <= bytes@.len(),
    ensures
        step@ == line_at(bytes@, at as int),
{
    let total: usize = bytes.len();
    let mut n: usize = 0;
    while n < total - at && bytes[at + n] != 10
        invariant
            total == bytes@.len(),
            at <= total,
            n <= total - at,
            n <= MAX_CHUNK_LINE_BYTES,
            forall|k: int| at <= k < at + n ==> bytes@[k] != 10,
        decreases total - at - n,
    {
        n = n + 1;
        if n > MAX_CHUNK_LINE_BYTES {
            proof {
                long_line(bytes@, at as int, n as int);
            }
            return LineStep::Long;
        }
    }
    proof {
        line_length_is(bytes@, at as int, n as int);
    }
    if n == total - at {
        return LineStep::More;
    }
    let end: usize = if n > 0 && bytes[at + n - 1] == 13 {
        at + n - 1
    } else {
        at + n
    };
    let ghost whole = bytes@.subrange(at as int, at + n);
    let line = slice_to_vec(slice_subrange(bytes.as_slice(), at, end));
    assert(line@ =~= line_bytes(whole)) by {
        if n > 0 {
            assert(whole.last() == bytes@[at + n - 1]);
        }
    }
    match decode_strict(line) {
        Some(text) => LineStep::Line(text, at + n + 1),
        None => LineStep::Garbled,
    }
}

/// The value of a hexadecimal digit.
pub open spec fn hex_digit(c: char) -> Option<nat> {
    if '0' <= c && c <= '9' {
        Some((c as nat - 48) as nat)
    } else if 'a' <= c && c <= 'f' {
        Some((c as nat - 87) as nat)
    } else if 'A' <= c && c <= 'F' {
        Some((c as nat - 55) as nat)
    } else {
        None
    }
}

/// The number that hexadecimal digits stand for.
pub open spec fn hex_value(s: Seq<char>) -> Option<nat>
    decreases s.len(),
{
    if s.len() == 0 {
        Some(0)
    } else {
        match (hex_value(s.drop_last()), hex_digit(s.last())) {
            (Some(n), Some(d)) => Some(n * 16 + d),
            _ => None,
        }
    }
}

/// The number that a text stands for where it is hexadecimal digits behind at most one plus sign, and
/// the number not larger than `max`.
pub open spec fn hex_number(s: Seq<char>, max: nat) -> Option<nat> {
    let digits = if s.len() > 0 && s[0] == '+' {
        s.skip(1)
    } else {
        s
    };
    if digits.len() == 0 {
        None
    } else {
        match hex_value(digits) {
            Some(n) => if n <= max {
                Some(n)
            } else {
                None
            },
            None => None,
        }
    }
}

proof fn hex_value_grows(s: Seq<char>, i: int)
    requires
        0 <= i <= s.len(),
    ensures
        hex_value(s) matches Some(n) ==> hex_value(s.take(i)) is Some && hex_value(s.take(i)).unwrap() <= n,
    decreases s.len() - i,
{
    if i < s.len() {
        assert(s.take(i + 1).drop_last() =~= s.take(i));
        hex_value_grows(s, i + 1);
    } else {
        assert(s.take(i) =~= s);
    }
}

fn read_hex_digit(c: char) -> (d: Option<u64>)
    ensures
        match d {
            Some(v) => hex_digit(c) == Some(v as nat) && v < 16,
            None => hex_digit(c) is None,
        },
{
    if '0' <= c && c <= '9' {
        Some((c as u32 - 48) as u64)
    } else if 'a' <= c && c <= 'f' {
        Some((c as u32 - 87) as u64)
    } else if 'A' <= c && c <= 'F' {
        Some((c as u32 - 55) as u64)
    } else {
        None
    }
}

fn parse_hex(s: &str, max: u64) -> (n: Option<u64>)
    ensures
        match n {
            Some(v) => hex_number(s@, max as nat) == Some(v as nat),
            None => hex_number(s@, max as nat) is None,
        },
{
    let cs = chars_of(s);
    let start: usize = if cs.len() > 0 && cs[0] == '+' {
        1
    } else {
        0
    };
    let ghost digits = s@.skip(start as int);
    assert(s@.skip(0) =~= s@);
    if cs.len() == start {
        return None;
    }
    let mut v: u64 = 0;
    let mut i: usize = start;
    assert(digits.take(0) =~= Seq::empty());
    while i < cs.len()
        invariant
            start <= i <= cs@.len(),
            start <= 1,
            cs@ == s@,
            digits == s@.skip(start as int),
            v <= max,
            hex_value(digits.take(i - start)) == Some(v as nat),
            hex_number(s@, max as nat) == (match hex_value(digits) {
                Some(n) => if n <= max {
                    Some(n)
                } else {
                    None
                },
                None => None,
            }),
        decreases cs@.len() - i,
    {
        assert(digits.take(i + 1 - start).drop_last() =~= digits.take(i - start));
        assert(digits.take(i + 1 - start).last() == cs@[i as int]);
        proof {
            hex_value_grows(digits, i + 1 - start);
        }
        let d: u64 = match read_hex_digit(cs[i]) {
            Some(d) => d,
            None => {
                return None;
            },
        };
        if d > max || v > (max - d) / 16 {
            return None;
        }
        v = v * 16 + d;
        i = i + 1;
    }
    assert(digits.take(i - start) =~= digits);
    Some(v)
}

/// What the bytes of a chunk that have come so far call for: more of them, and what is said where none
/// come; a refusal; a chunk's data and where the next chunk starts; or the end of the body.
pub enum ChunkV {
    More { want: int, ended: Seq<char> },
    Fault(Seq<char>),
    Data { from: int, to: int, next: int },
    Last(int),
}

/// What a line comes to that is not one.
pub open spec fn line_fault(bytes: Seq<u8>, line: LineV) -> ChunkV {
    match line {
        LineV::Long => ChunkV::Fault("chunk 元数据行过长"@),
        LineV::Garbled => ChunkV::Fault("chunk 元数据不是合法 UTF-8"@),
        _ => ChunkV::More { want: bytes.len() as int + 1, ended: "chunked 编码被截断"@ },
    }
}

/// The end of the lines that follow the last chunk, up to an empty one.
pub open spec fn trailer_at(bytes: Seq<u8>, at: int) -> ChunkV
    decreases bytes.len() - at,
{
    match line_at(bytes, at) {
        LineV::Line(text, next) => if text.len() == 0 || next <= at {
            ChunkV::Last(next)
        } else {
            trailer_at(bytes, next)
        },
        other => line_fault(bytes, other),
    }
}

/// The size that a chunk's first line gives.
pub open spec fn chunk_size(line: Seq<char>) -> Option<nat> {
    hex_number(trimmed(pieces(line, is_char(';'))[0]), usize::MAX as nat)
}

/// The chunk that starts at a place, where `have` bytes of the body have come before it.
pub open spec fn chunk_at(bytes: Seq<u8>, at: int, have: int) -> ChunkV {
    match line_at(bytes, at) {
        LineV::Line(text, start) => match chunk_size(text) {
            None => ChunkV::Fault("非法 chunk 长度"@),
            Some(size) => if size == 0 {
                trailer_at(bytes, start)
            } else if have + size > MAX_BODY_BYTES {
                ChunkV::Fault("chunked 请求体超过上限"@)
            } else if start + size > bytes.len() {
                ChunkV::More { want: start + size, ended: "failed to fill whole buffer"@ }
            } else {
                match line_at(bytes, start + size) {
                    LineV::Line(separator, next) => if separator.len() == 0 {
                        ChunkV::Data { from: start, to: start + size, next }
                    } else {
                        ChunkV::Fault("chunk 终止符缺失"@)
                    },
                    other => line_fault(bytes, other),
                }
            },
        },
        other => line_fault(bytes, other),
    }
}

/// What the bytes of a chunk that have come so far call for.
#[derive(Debug)]
pub enum ChunkStep {
    More { want: usize, ended: String },
    Fault(String),
    Data { from: usize, to: usize, next: usize },
    Last(usize),
}

impl View for ChunkStep {
    type V = ChunkV;

    open spec fn view(&self) -> ChunkV {
        match *self {
            ChunkStep::More { want, ended } => ChunkV::More { want: want as int, ended: ended@ },
            ChunkStep::Fault(message) => ChunkV::Fault(message@),
            ChunkStep::Data { from, to, next } => ChunkV::Data { from: from as int, to: to as int, next: next as int },
            ChunkStep::Last(next) => ChunkV::Last(next as int),
        }
    }
}

fn refuse_line(bytes: &Vec<u8>, line: LineStep) -> (step: ChunkStep)
    requires
        bytes@.len() <= usize::MAX / 2,
    ensures
        step@ == line_fault(bytes@, line@),
{
    match line {
        LineStep::Long => ChunkStep::Fault("chunk 元数据行过长".to_owned()),
        LineStep::Garbled => ChunkStep::Fault("chunk 元数据不是合法 UTF-8".to_owned()),
        _ => ChunkStep::More { want: bytes.len() + 1, ended: "chunked 编码被截断".to_owned() },
    }
}

/// The next place that a step leads to lies behind the place it is taken at.
pub proof fn lines_lead_on(bytes: Seq<u8>, at: int)
    requires
        0 <= at <= bytes.len(),
    ensures
        line_at(bytes, at) matches LineV::Line(_, next) ==> at < next <= bytes.len(),
{
    line_length_bounds(bytes, at);
}

fn read_trailer(bytes: &Vec<u8>, at: usize) -> (step: ChunkStep)
    requires
        at <= bytes@.len() <= usize::MAX / 2,
    ensures
        step@ == trailer_at(bytes@, at as int),
        step@ matches ChunkV::Last(next) ==> next <= bytes@.len(),
        !(step@ is Data),
{
    let mut from: usize = at;
    loop
        invariant
            from <= bytes@.len() <= usize::MAX / 2,
            trailer_at(bytes@, at as int) == trailer_at(bytes@, from as int),
        decreases bytes@.len() - from,
    {
        proof {
            lines_lead_on(bytes@, from as int);
        }
        match read_crlf_line(bytes, from) {
            LineStep::Line(text, next) => {
                if text.as_str().unicode_len() == 0 {
                    return ChunkStep::Last(next);
                }
                from = next;
            },
            other => {
                return refuse_line(bytes, other);
            },
        }
    }
}

/// Reads the chunk that starts at a place, where `have` bytes of the body have come before it.
pub fn chunk_step(bytes: &Vec<u8>, at: usize, have: usize) -> (step: ChunkStep)
    requires
        at <= bytes@.len() <= usize::MAX / 2,
    ensures
        step@ == chunk_at(bytes@, at as int, have as int),
{
    proof {
        lines_lead_on(bytes@, at as int);
    }
    let (text, start) = match read_crlf_line(bytes, at) {
        LineStep::Line(text, next) => (text, next),
        other => {
            return refuse_line(bytes, other);
        },
    };
    let fields = split_char(text.as_str(), ';');
    proof {
        crate::text::pieces_not_empty(text@, is_char(';'));
        assert(texts(fields@).len() == fields@.len());
    }
    let size: usize = match parse_hex(trim(fields[0].as_str()).as_str(), usize::MAX as u64) {
        Some(size) => size as usize,
        None => {
            return ChunkStep::Fault("非法 chunk 长度".to_owned());
        },
    };
    if size == 0 {
        return read_trailer(bytes, start);
    }
    if have > MAX_BODY_BYTES || size > MAX_BODY_BYTES - have {
        return ChunkStep::Fault("chunked 请求体超过上限".to_owned());
    }
    if size > bytes.len() - start {
        return ChunkStep::More { want: start + size, ended: "failed to fill whole buffer".to_owned() };
    }
    proof {
        lines_lead_on(bytes@, start + size);
    }
    match read_crlf_line(bytes, start + size) {
        LineStep::Line(separator, next) => if separator.as_str().unicode_len() == 0 {
            ChunkStep::Data { from: start, to: start + size, next }
        } else {
            ChunkStep::Fault("chunk 终止符缺失".to_owned())
        },
        other => refuse_line(bytes, other),
    }
}

/// The body in chunks that start at a place, behind what has come of it, and where it ends; the bytes
/// are all that comes.
pub open spec fn chunked_from(bytes: Seq<u8>, at: int, body: Seq<u8>) -> Result<(Seq<u8>, int), Seq<char>>
    decreases bytes.len() - at,
{
    match chunk_at(bytes, at, body.len() as int) {
        ChunkV::Data { from, to, next } => if at < next <= bytes.len() {
            chunked_from(bytes, next, body + bytes.subrange(from, to))
        } else {
            Ok((body, next))
        },
        ChunkV::Last(next) => Ok((body, next)),
        ChunkV::Fault(message) => Err(message),
        ChunkV::More { ended, .. } => Err(ended),
    }
}

/// Reads a body in chunks from bytes that hold all that comes.
pub fn read_chunked_body(bytes: &Vec<u8>, at: usize) -> (out: Result<(Vec<u8>, usize), String>)
    requires
        at <= bytes@.len() <= usize::MAX / 2,
    ensures
        match (out, chunked_from(bytes@, at as int, Seq::empty())) {
            (Ok((body, next)), Ok((meant, end))) => body@ == meant && next == end,
            (Err(e), Err(reason)) => e@ == reason,
            _ => false,
        },
{
    let mut body: Vec<u8> = Vec::new();
    let mut from: usize = at;
    loop
        invariant
            from <= bytes@.len() <= usize::MAX / 2,
            chunked_from(bytes@, at as int, Seq::empty()) == chunked_from(bytes@, from as int, body@),
        decreases bytes@.len() - from,
    {
        proof {
            chunks_lead_on(bytes@, from as int, body@.len() as int);
        }
        match chunk_step(bytes, from, body.len()) {
            ChunkStep::Data { from: start, to, next } => {
                let ghost before = body@;
                body.extend_from_slice(slice_subrange(bytes.as_slice(), start, to));
                assert(body@ =~= before + bytes@.subrange(start as int, to as int));
                from = next;
            },
            ChunkStep::Last(next) => {
                return Ok((body, next));
            },
            ChunkStep::Fault(message) => {
                return Err(message);
            },
            ChunkStep::More { ended, .. } => {
                return Err(ended);
            },
        }
    }
}

proof fn trailer_is_no_data(bytes: Seq<u8>, at: int)
    ensures
        !(trailer_at(bytes, at) is Data),
    decreases bytes.len() - at,
{
    match line_at(bytes, at) {
        LineV::Line(text, next) => {
            if text.len() > 0 && next > at {
                trailer_is_no_data(bytes, next);
            }
        },
        _ => {},
    }
}

proof fn chunks_lead_on(bytes: Seq<u8>, at: int, have: int)
    requires
        0 <= at <= bytes.len(),
    ensures
        chunk_at(bytes, at, have) matches ChunkV::Data { from, to, next } ==> at <= from <= to < next <= bytes.len(),
{
    lines_lead_on(bytes, at);
    match line_at(bytes, at) {
        LineV::Line(text, start) => {
            trailer_is_no_data(bytes, start);
            if let Some(size) = chunk_size(text) {
                if start + size <= bytes.len() {
                    lines_lead_on(bytes, start + size);
                }
            }
        },
        _ => {},
    }
}

/// How a request's body is framed.
#[derive(Clone, Copy, PartialEq, Eq, Debug, Structural)]
pub enum BodyPlan {
    Chunked,
    Exact(usize),
}

/// How the headers of a request say that its body is framed.
pub open spec fn body_plan_of(headers: Seq<(Seq<char>, Seq<char>)>) -> Result<BodyPlan, Seq<char>> {
    match (first_value(headers, "transfer-encoding"@), first_value(headers, "content-length"@)) {
        (Some(coding), _) if has_part(lowered(coding), "chunked"@) => Ok(BodyPlan::Chunked),
        (_, None) => Ok(BodyPlan::Exact(0)),
        (_, Some(raw)) => match unsigned_number(raw, usize::MAX as nat) {
            None => Err("非法 Content-Length"@),
            Some(len) => if len > MAX_BODY_BYTES {
                Err("请求体超过上限:"@ + decimal(len) + " 字节"@)
            } else {
                Ok(BodyPlan::Exact(len as usize))
            },
        },
    }
}

/// How the headers of a request say that its body is framed.
pub fn body_plan(headers: &Vec<(String, String)>) -> (out: Result<BodyPlan, String>)
    ensures
        match (out, body_plan_of(pairs_view(headers@))) {
            (Ok(plan), Ok(meant)) => plan == meant,
            (Err(e), Err(reason)) => e@ == reason,
            _ => false,
        },
{
    if let Some(coding) = header_value(headers, "transfer-encoding") {
        if contains(to_lower(coding).as_str(), "chunked") {
            return Ok(BodyPlan::Chunked);
        }
    }
    match header_value(headers, "content-length") {
        None => Ok(BodyPlan::Exact(0)),
        Some(raw) => match parse_unsigned(raw, usize::MAX as u64) {
            None => Err("非法 Content-Length".to_owned()),
            Some(len) => if len > MAX_BODY_BYTES as u64 {
                let start = concat("请求体超过上限:", number_text(len).as_str());
                Err(concat(start.as_str(), " 字节"))
            } else {
                Ok(BodyPlan::Exact(len as usize))
            },
        },
    }
}

/// The body of a request that starts at a place, and where it ends; the bytes are all that comes.
pub open spec fn body_from(bytes: Seq<u8>, at: int, headers: Seq<(Seq<char>, Seq<char>)>) -> Result<
    (Seq<u8>, int),
    Seq<char>,
> {
    match body_plan_of(headers) {
        Err(e) => Err(e),
        Ok(BodyPlan::Chunked) => chunked_from(bytes, at, Seq::empty()),
        Ok(BodyPlan::Exact(len)) => if at + len > bytes.len() {
            Err("failed to fill whole buffer"@)
        } else {
            Ok((bytes.subrange(at, at + len), at + len))
        },
    }
}

/// Reads the body of a request from bytes that hold all that comes.
pub fn read_request_body(bytes: &Vec<u8>, at: usize, headers: &Vec<(String, String)>) -> (out: Result<
    (Vec<u8>, usize),
    String,
>)
    requires
        at <= bytes@.len() <= usize::MAX / 2,
    ensures
        match (out, body_from(bytes@, at as int, pairs_view(headers@))) {
            (Ok((body, next)), Ok((meant, end))) => body@ == meant && next == end,
            (Err(e), Err(reason)) => e@ == reason,
            _ => false,
        },
{
    match body_plan(headers) {
        Err(e) => Err(e),
        Ok(BodyPlan::Chunked) => read_chunked_body(bytes, at),
        Ok(BodyPlan::Exact(len)) => if len > bytes.len() - at {
            Err("failed to fill whole buffer".to_owned())
        } else {
            let body = slice_to_vec(slice_subrange(bytes.as_slice(), at, at + len));
            Ok((body, at + len))
        },
    }
}

/// The headers of a request that belong to one connection, or that the client writes anew.
pub open spec fn request_hops() -> Seq<Seq<char>> {
    seq![
        "host"@,
        "connection"@,
        "keep-alive"@,
        "proxy-authenticate"@,
        "proxy-authorization"@,
        "proxy-connection"@,
        "te"@,
        "trailer"@,
        "transfer-encoding"@,
        "upgrade"@,
        "content-length"@,
        "expect"@,
    ]
}

/// The headers of a response that belong to one connection.
pub open spec fn response_hops() -> Seq<Seq<char>> {
    seq!["connection"@, "keep-alive"@, "transfer-encoding"@, "trailer"@, "upgrade"@]
}

/// Whether a header of a request does not go on.
pub fn should_strip_request_header(name: &str) -> (yes: bool)
    ensures
        yes == request_hops().contains(name@),
{
    let ghost all = request_hops();
    assert(all[0] == "host"@ && all[1] == "connection"@ && all[2] == "keep-alive"@ && all[3] == "proxy-authenticate"@);
    assert(all[4] == "proxy-authorization"@ && all[5] == "proxy-connection"@ && all[6] == "te"@ && all[7] == "trailer"@);
    assert(all[8] == "transfer-encoding"@ && all[9] == "upgrade"@ && all[10] == "content-length"@ && all[11] == "expect"@);
    same(name, "host") || same(name, "connection") || same(name, "keep-alive") || same(name, "proxy-authenticate") || same(
        name,
        "proxy-authorization",
    ) || same(name, "proxy-connection") || same(name, "te") || same(name, "trailer") || same(name, "transfer-encoding")
        || same(name, "upgrade") || same(name, "content-length") || same(name, "expect")
}

/// Whether a header of a response does not go on.
pub fn should_strip_response_header(name: &str) -> (yes: bool)
    ensures
        yes == response_hops().contains(name@),
{
    let ghost all = response_hops();
    assert(all[0] == "connection"@ && all[1] == "keep-alive"@ && all[2] == "transfer-encoding"@);
    assert(all[3] == "trailer"@ && all[4] == "upgrade"@);
    same(name, "connection") || same(name, "keep-alive") || same(name, "transfer-encoding") || same(name, "trailer") || same(
        name,
        "upgrade",
    )
}

/// The headers that go on, in their order.
pub open spec fn carried(headers: Seq<(Seq<char>, Seq<char>)>) -> Seq<(Seq<char>, Seq<char>)>
    decreases headers.len(),
{
    if headers.len() == 0 {
        Seq::empty()
    } else if request_hops().contains(headers.last().0) {
        carried(headers.drop_last())
    } else {
        carried(headers.drop_last()).push(headers.last())
    }
}

fn carry_headers(headers: &Vec<(String, String)>) -> (out: Vec<(String, String)>)
    ensures
        pairs_view(out@) == carried(pairs_view(headers@)),
{
    let ghost all = pairs_view(headers@);
    let mut out: Vec<(String, String)> = Vec::new();
    let mut i: usize = 0;
    assert(all.take(0) =~= Seq::empty());
    assert(pairs_view(out@) =~= Seq::empty());
    while i < headers.len()
        invariant
            i <= headers@.len(),
            all == pairs_view(headers@),
            pairs_view(out@) == carried(all.take(i as int)),
        decreases headers@.len() - i,
    {
        assert(all.take(i + 1).drop_last() =~= all.take(i as int));
        assert(all.take(i + 1).last() == (headers@[i as int].0@, headers@[i as int].1@));
        if !should_strip_request_header(headers[i].0.as_str()) {
            let ghost before = pairs_view(out@);
            let entry = (headers[i].0.as_str().to_owned(), headers[i].1.as_str().to_owned());
            let ghost pair = (entry.0@, entry.1@);
            out.push(entry);
            assert(pairs_view(out@) =~= before.push(pair));
        }
        i = i + 1;
    }
    assert(all.take(i as int) =~= all);
    out
}

/// Whether a byte can stand in the name of a method.
pub open spec fn method_byte(b: u8) -> bool {
    ||| 48 <= b <= 57
    ||| 65 <= b <= 90
    ||| 97 <= b <= 122
    ||| b == 33 || 35 <= b <= 39 || b == 42 || b == 43 || b == 45 || b == 46
    ||| 94 <= b <= 96 || b == 124 || b == 126
}

/// Whether a text can be the name of a method.
pub open spec fn method_name(name: Seq<char>) -> bool {
    let bytes = encode_utf8(name);
    bytes.len() > 0 && forall|i: int| 0 <= i < bytes.len() ==> method_byte(#[trigger] bytes[i])
}

/// `reqwest::Method::from_bytes` takes the bytes that a token can hold, one at the least.
#[verifier::external_body]
fn accepts_method(name: &str) -> (yes: bool)
    ensures
        yes == method_name(name@),
{
    reqwest::Method::from_bytes(name.as_bytes()).is_ok()
}

/// Whether the client waits for leave to send its body.
pub open spec fn awaits_leave(headers: Seq<(Seq<char>, Seq<char>)>) -> bool {
    match first_value(headers, "expect"@) {
        Some(value) => lowered(value) == "100-continue"@,
        None => false,
    }
}

/// Whether the client waits for leave to send its body.
pub fn expects_continue(headers: &Vec<(String, String)>) -> (yes: bool)
    ensures
        yes == awaits_leave(pairs_view(headers@)),
{
    match header_value(headers, "expect") {
        Some(value) => same(to_lower(value).as_str(), "100-continue"),
        None => false,
    }
}

/// A request as it goes to the upstream; its method and its body are those that came.
#[derive(Debug)]
pub struct Forward {
    pub url: String,
    pub headers: Vec<(String, String)>,
}

pub struct ForwardV {
    pub url: Seq<char>,
    pub headers: Seq<(Seq<char>, Seq<char>)>,
}

impl View for Forward {
    type V = ForwardV;

    open spec fn view(&self) -> ForwardV {
        ForwardV { url: self.url@, headers: pairs_view(self.headers@) }
    }
}

/// How a request goes on, or why it does not.
pub open spec fn forward_of(head: HeadV, upstream: Seq<char>) -> Result<ForwardV, Seq<char>> {
    if !(head.target.len() > 0 && head.target[0] == '/') {
        Err("仅支持 origin-form 请求目标"@)
    } else if !method_name(head.method) {
        Err("非法 HTTP 方法"@)
    } else {
        Ok(ForwardV { url: upstream + head.target, headers: carried(head.headers) })
    }
}

/// How a request goes on, or why it does not.
pub fn plan_forward(head: &RequestHead, upstream: &str) -> (out: Result<Forward, String>)
    ensures
        match (out, forward_of(head@, upstream@)) {
            (Ok(forward), Ok(meant)) => forward@ == meant,
            (Err(e), Err(reason)) => e@ == reason,
            _ => false,
        },
{
    proof {
        reveal_strlit("/");
        if "/"@.is_prefix_of(head.target@) {
            assert(head.target@[0] == "/"@[0]);
        } else if head.target@.len() > 0 && head.target@[0] == '/' {
            assert("/"@ =~= head.target@.take(1));
            assert("/"@.is_prefix_of(head.target@));
        }
    }
    if !starts_with(head.target.as_str(), "/") {
        return Err("仅支持 origin-form 请求目标".to_owned());
    }
    if !accepts_method(head.method.as_str()) {
        return Err("非法 HTTP 方法".to_owned());
    }
    Ok(Forward { url: concat(upstream, head.target.as_str()), headers: carry_headers(&head.headers) })
}

/// At what point a request comes to nothing.
#[derive(Clone, Copy, PartialEq, Eq, Debug, Structural)]
pub enum Stage {
    Head,
    Body,
    Target,
    Upstream,
}

/// The answer to a request that came to nothing, and what the log notes of it; where that is nothing,
/// the log has no line.
#[derive(Debug)]
pub struct Refusal {
    pub status: u16,
    pub message: String,
    pub note: Option<&'static str>,
}

pub open spec fn refusal_status(stage: Stage) -> u16 {
    match stage {
        Stage::Upstream => 502,
        _ => 400,
    }
}

pub open spec fn refusal_message(stage: Stage, detail: Seq<char>) -> Seq<char> {
    match stage {
        Stage::Upstream => "passthrough upstream error: "@ + detail,
        _ => "passthrough: "@ + detail,
    }
}

pub open spec fn refusal_note(stage: Stage) -> Option<Seq<char>> {
    match stage {
        Stage::Body => Some("bad_request_body"@),
        Stage::Upstream => Some("upstream_error"@),
        _ => None,
    }
}

/// How a request that came to nothing is answered.
pub fn refuse(stage: Stage, detail: &str) -> (refusal: Refusal)
    ensures
        refusal.status == refusal_status(stage),
        refusal.message@ == refusal_message(stage, detail@),
        crate::text::opt_text(refusal.note) == refusal_note(stage),
{
    match stage {
        Stage::Upstream => Refusal {
            status: 502,
            message: concat("passthrough upstream error: ", detail),
            note: Some("upstream_error"),
        },
        Stage::Body => Refusal { status: 400, message: concat("passthrough: ", detail), note: Some("bad_request_body") },
        _ => Refusal { status: 400, message: concat("passthrough: ", detail), note: None },
    }
}

/// A response of plain text.
pub open spec fn plain_text(status: u16, message: Seq<char>) -> Seq<char> {
    "HTTP/1.1 "@ + decimal(status as nat) + " "@ + (if status == 502 {
        "Bad Gateway"@
    } else {
        "Bad Request"@
    }) + "\r\ncontent-type: text/plain; charset=utf-8\r\ncontent-length: "@ + decimal(encode_utf8(message).len())
        + "\r\nconnection: close\r\n\r\n"@ + message
}

impl Refusal {
    /// The response that answers the request.
    pub fn response(&self) -> (text: String)
        ensures
            text@ == plain_text(self.status, self.message@),
    {
        let mut text = concat("HTTP/1.1 ", number_text(self.status as u64).as_str());
        text.append(" ");
        text.append(
            if self.status == 502 {
                "Bad Gateway"
            } else {
                "Bad Request"
            },
        );
        text.append("\r\ncontent-type: text/plain; charset=utf-8\r\ncontent-length: ");
        text.append(number_text(crate::text::byte_len(self.message.as_str()) as u64).as_str());
        text.append("\r\nconnection: close\r\n\r\n");
        text.append(self.message.as_str());
        assert(text@ =~= plain_text(self.status, self.message@));
        text
    }
}

/// The headers of a response as they go to the client.
pub open spec fn header_lines(headers: Seq<(Seq<char>, Seq<u8>)>) -> Seq<u8>
    decreases headers.len(),
{
    if headers.len() == 0 {
        Seq::empty()
    } else if response_hops().contains(headers.last().0) {
        header_lines(headers.drop_last())
    } else {
        header_lines(headers.drop_last()) + encode_utf8(headers.last().0) + seq![58u8, 32u8] + headers.last().1 + seq![
            13u8,
            10u8,
        ]
    }
}

pub open spec fn raw_headers(headers: Seq<(String, Vec<u8>)>) -> Seq<(Seq<char>, Seq<u8>)> {
    headers.map_values(|e: (String, Vec<u8>)| (e.0@, e.1@))
}

/// The head of a response as it goes to the client.
pub open spec fn response_head_of(status: u16, reason: Seq<char>, headers: Seq<(Seq<char>, Seq<u8>)>) -> Seq<u8> {
    encode_utf8("HTTP/1.1 "@ + decimal(status as nat) + " "@ + reason + "\r\n"@) + header_lines(headers) + encode_utf8(
        "connection: close\r\n\r\n"@,
    )
}

/// Writes the head of a response as it goes to the client: the upstream's state and headers, but for
/// those that belong to one connection. The body follows until the connection closes.
pub fn response_head(status: u16, reason: &str, headers: &Vec<(String, Vec<u8>)>) -> (out: Vec<u8>)
    ensures
        out@ == response_head_of(status, reason@, raw_headers(headers@)),
{
    let mut line = concat("HTTP/1.1 ", number_text(status as u64).as_str());
    line.append(" ");
    line.append(reason);
    line.append("\r\n");
    let mut out = line.as_str().as_bytes_vec();
    let ghost first = out@;
    let ghost all = raw_headers(headers@);
    let mut i: usize = 0;
    assert(all.take(0) =~= Seq::empty());
    assert(out@ =~= first + header_lines(all.take(0)));
    while i < headers.len()
        invariant
            i <= headers@.len(),
            all == raw_headers(headers@),
            out@ == first + header_lines(all.take(i as int)),
        decreases headers@.len() - i,
    {
        assert(all.take(i + 1).drop_last() =~= all.take(i as int));
        assert(all.take(i + 1).last() == (headers@[i as int].0@, headers@[i as int].1@));
        if !should_strip_response_header(headers[i].0.as_str()) {
            let ghost before = header_lines(all.take(i as int));
            out.extend_from_slice(headers[i].0.as_str().as_bytes());
            out.push(58);
            out.push(32);
            out.extend_from_slice(headers[i].1.as_slice());
            out.push(13);
            out.push(10);
            assert(out@ =~= first + (before + encode_utf8(headers@[i as int].0@) + seq![58u8, 32u8] + headers@[i as int].1@
                + seq![13u8, 10u8]));
        }
        i = i + 1;
    }
    assert(all.take(i as int) =~= all);
    out.extend_from_slice("connection: close\r\n\r\n".as_bytes());
    out
}

/// Whether the log marks a response as a stream of events.
pub fn is_stream(content_type: Option<&str>) -> (yes: bool)
    ensures
        yes == (match content_type {
            Some(value) => has_part(value@, "text/event-stream"@),
            None => false,
        }),
{
    match content_type {
        Some(value) => contains(value, "text/event-stream"),
        None => false,
    }
}

/// What tells that a query's value may be a credential.
pub open spec fn secret_parts() -> Seq<Seq<char>> {
    seq!["key"@, "token"@, "secret"@, "auth"@, "signature"@, "sig"@]
}

/// Whether a query's value may be a credential.
pub open spec fn is_secret(name: Seq<char>) -> bool {
    exists|i: int| 0 <= i < secret_parts().len() && has_part(lowered(name), #[trigger] secret_parts()[i])
}

fn names_secret(name: &str) -> (yes: bool)
    ensures
        yes == is_secret(name@),
{
    let l = to_lower(name);
    let ghost all = secret_parts();
    assert(all[0] == "key"@ && all[1] == "token"@ && all[2] == "secret"@);
    assert(all[3] == "auth"@ && all[4] == "signature"@ && all[5] == "sig"@);
    contains(l.as_str(), "key") || contains(l.as_str(), "token") || contains(l.as_str(), "secret") || contains(l.as_str(), "auth")
        || contains(l.as_str(), "signature") || contains(l.as_str(), "sig")
}

/// A pair of a query as the log tells it.
pub open spec fn told_pair(pair: Seq<char>) -> Seq<char> {
    match parted(pair, '=') {
        None => pair,
        Some((name, value)) => if is_secret(name) {
            name + "=<redacted>"@
        } else {
            name + "="@ + value
        },
    }
}

pub open spec fn told_pairs(pairs: Seq<Seq<char>>) -> Seq<Seq<char>> {
    pairs.map_values(|p: Seq<char>| told_pair(p))
}

/// A target as the log tells it.
pub open spec fn told_target(target: Seq<char>) -> Seq<char> {
    match parted(target, '?') {
        None => target,
        Some((path, query)) => path + "?"@ + joined(told_pairs(pieces(query, is_char('&'))), "&"@),
    }
}

fn redact_pair(pair: &str) -> (out: String)
    ensures
        out@ == told_pair(pair@),
{
    match split_once(pair, '=') {
        None => pair.to_owned(),
        Some((name, value)) => if names_secret(name.as_str()) {
            concat(name.as_str(), "=<redacted>")
        } else {
            let start = concat(name.as_str(), "=");
            concat(start.as_str(), value.as_str())
        },
    }
}

/// A target as the log tells it: the values of a query that may be credentials are left out.
pub fn redact_target(target: &str) -> (out: String)
    ensures
        out@ == told_target(target@),
{
    let (path, query) = match split_once(target, '?') {
        None => {
            return target.to_owned();
        },
        Some((path, query)) => (path, query),
    };
    let pairs = split_char(query.as_str(), '&');
    let ghost all = pieces(query@, is_char('&'));
    let mut told: Vec<String> = Vec::new();
    let mut i: usize = 0;
    assert(texts(told@) =~= told_pairs(all.take(0)));
    while i < pairs.len()
        invariant
            i <= pairs@.len(),
            texts(pairs@) == all,
            texts(told@) == told_pairs(all.take(i as int)),
        decreases pairs@.len() - i,
    {
        assert(all[i as int] == pairs@[i as int]@);
        let ghost before = texts(told@);
        let pair = redact_pair(pairs[i].as_str());
        let ghost text = pair@;
        told.push(pair);
        assert(texts(told@) =~= before.push(text));
        assert(told_pairs(all.take(i + 1)) =~= told_pairs(all.take(i as int)).push(text));
        i = i + 1;
    }
    assert(all.len() == pairs@.len());
    assert(all.take(i as int) =~= all);
    let start = concat(path.as_str(), "?");
    concat(start.as_str(), join(&told, "&").as_str())
}

/// What the log says of a request.
pub struct LogEntry<'a> {
    pub ts_ms: u64,
    pub method: &'a str,
    pub target: &'a str,
    pub status: u16,
    pub elapsed_ms: u64,
    pub sse: bool,
    pub req_bytes: usize,
    pub resp_bytes: u64,
    pub note: Option<&'a str>,
}

/// A line of the log.
pub open spec fn log_tree(entry: LogEntry) -> JsonV {
    JsonV::object().and("ts_ms"@, number(entry.ts_ms)).and("method"@, JsonV::Str(entry.method@)).and(
        "path"@,
        JsonV::Str(told_target(entry.target@)),
    ).and("status"@, number(entry.status as u64)).and("ms"@, number(entry.elapsed_ms)).and(
        "sse"@,
        JsonV::Bool(entry.sse),
    ).and("req_bytes"@, number(entry.req_bytes as u64)).and(
        "resp_bytes"@,
        number(entry.resp_bytes),
    ).and(
        "note"@,
        match entry.note {
            Some(note) => JsonV::Str(note@),
            None => JsonV::Null,
        },
    )
}

/// Writes a line of the log.
pub fn build_log_line(entry: &LogEntry) -> (line: String)
    ensures
        line@ == rendered(log_tree(*entry)),
{
    let note = match entry.note {
        Some(note) => Json::text(note),
        None => Json::Null,
    };
    Json::object().and("ts_ms", Json::unsigned(entry.ts_ms)).and("method", Json::text(entry.method)).and(
        "path",
        Json::text(redact_target(entry.target).as_str()),
    ).and("status", Json::unsigned(entry.status as u64)).and("ms", Json::unsigned(entry.elapsed_ms)).and(
        "sse",
        Json::Bool(entry.sse),
    ).and("req_bytes", Json::unsigned(entry.req_bytes as u64)).and("resp_bytes", Json::unsigned(entry.resp_bytes)).and(
        "note",
        note,
    ).render()
}

} // verus!
