//! What holds of requests as text and of frames: what was written is what is read.
use crate::json::JsonV;
use crate::json_model::rendered;
use crate::messages::place_of;
use crate::sse::{
    blank_crlf_line, blank_line, bytes_at, event_of_lines, frame_end, frame_event, next_place_is_inside, short_line_ends,
    sse_bytes, sse_text,
};
use crate::text::{is_char, is_space, joined, lossy_text, lowered, pieces, replaced, stands_at, trimmed, trimmed_start};
use crate::wire::{first_value, head_of, header_list, not_empty, part_place, parted, parts, spaces, words, HeadV};
use vstd::prelude::*;
use vstd::utf8::{decode_utf8, encode_utf8, valid_utf8};

verus! {

/// Whether a text is one word.
pub open spec fn is_word(s: Seq<char>) -> bool {
    s.len() > 0 && forall|i: int| 0 <= i < s.len() ==> !is_space(#[trigger] s[i])
}

/// Whether a text stands within one line.
pub open spec fn is_one_line(s: Seq<char>) -> bool {
    forall|i: int| 0 <= i < s.len() ==> #[trigger] s[i] != '\r'
}

/// Whether a header is written in the form in which it is read.
pub open spec fn is_plain_header(header: (Seq<char>, Seq<char>)) -> bool {
    &&& is_one_line(header.0)
    &&& is_one_line(header.1)
    &&& !header.0.contains(':')
    &&& header.0 == lowered(trimmed(header.0))
    &&& header.1 == trimmed(header.1)
}

/// The lines of headers, each with its end.
pub open spec fn written_headers(headers: Seq<(Seq<char>, Seq<char>)>) -> Seq<char>
    decreases headers.len(),
{
    if headers.len() == 0 {
        Seq::empty()
    } else {
        headers[0].0 + seq![':', ' '] + headers[0].1 + seq!['\r', '\n'] + written_headers(headers.drop_first())
    }
}

/// The text of a request's head.
pub open spec fn written_head(head: HeadV) -> Seq<char> {
    head.method + seq![' '] + head.target + seq![' ', 'H', 'T', 'T', 'P', '/', '1', '.', '1', '\r', '\n'] + written_headers(
        head.headers,
    ) + seq!['\r', '\n']
}

spec fn line_of(header: (Seq<char>, Seq<char>)) -> Seq<char> {
    header.0 + seq![':', ' '] + header.1
}

proof fn first_end(line: Seq<char>, rest: Seq<char>)
    requires
        is_one_line(line),
    ensures
        part_place(line + seq!['\r', '\n'] + rest, seq!['\r', '\n']) == line.len(),
    decreases line.len(),
{
    let end = seq!['\r', '\n'];
    let s = line + end + rest;
    if line.len() == 0 {
        assert(s.subrange(0, 2) =~= end);
    } else {
        if stands_at(s, end, 0) {
            assert(s.subrange(0, 2)[0] == end[0]);
            assert(s[0] == line[0]);
        }
        let less = line.drop_first();
        assert(s.drop_first() =~= less + end + rest);
        assert forall|i: int| 0 <= i < less.len() implies #[trigger] less[i] != '\r' by {
            assert(less[i] == line[i + 1]);
        }
        first_end(less, rest);
    }
}

proof fn a_line_is_parted(line: Seq<char>, rest: Seq<char>)
    requires
        is_one_line(line),
    ensures
        parts(line + seq!['\r', '\n'] + rest, "\r\n"@) == seq![line] + parts(rest, "\r\n"@),
{
    reveal_strlit("\r\n");
    let end = seq!['\r', '\n'];
    assert("\r\n"@ =~= end);
    first_end(line, rest);
    let s = line + end + rest;
    assert(s.take(line.len() as int) =~= line);
    assert(s.skip(line.len() as int + 2) =~= rest);
}

proof fn nothing_is_one_part()
    ensures
        parts(Seq::empty(), "\r\n"@) == seq![Seq::<char>::empty()],
{
    reveal_strlit("\r\n");
}

proof fn header_lines_are_parted(headers: Seq<(Seq<char>, Seq<char>)>)
    requires
        forall|i: int| 0 <= i < headers.len() ==> is_plain_header(#[trigger] headers[i]),
    ensures
        parts(written_headers(headers) + seq!['\r', '\n'], "\r\n"@) == headers.map_values(
            |header: (Seq<char>, Seq<char>)| line_of(header),
        ) + seq![Seq::<char>::empty(), Seq::<char>::empty()],
    decreases headers.len(),
{
    let f = |header: (Seq<char>, Seq<char>)| line_of(header);
    let end = seq!['\r', '\n'];
    if headers.len() == 0 {
        a_line_is_parted(Seq::empty(), Seq::empty());
        nothing_is_one_part();
        assert(written_headers(headers) + end =~= Seq::<char>::empty() + end + Seq::<char>::empty());
        assert(headers.map_values(f) + seq![Seq::<char>::empty(), Seq::<char>::empty()] =~= seq![Seq::<char>::empty()]
            + seq![Seq::<char>::empty()]);
    } else {
        let less = headers.drop_first();
        let line = line_of(headers[0]);
        assert(is_plain_header(headers[0]));
        assert(is_one_line(line)) by {
            assert forall|i: int| 0 <= i < line.len() implies #[trigger] line[i] != '\r' by {
                let a = headers[0].0.len() as int;
                if i < a {
                    assert(line[i] == headers[0].0[i]);
                } else if i >= a + 2 {
                    assert(line[i] == headers[0].1[i - a - 2]);
                }
            }
        }
        assert forall|i: int| 0 <= i < less.len() implies is_plain_header(#[trigger] less[i]) by {
            assert(less[i] == headers[i + 1]);
        }
        header_lines_are_parted(less);
        a_line_is_parted(line, written_headers(less) + end);
        assert(written_headers(headers) + end =~= line + end + (written_headers(less) + end));
        assert(headers.map_values(f) =~= seq![line] + less.map_values(f));
        assert(headers.map_values(f) + seq![Seq::<char>::empty(), Seq::<char>::empty()] =~= seq![line] + (less.map_values(f)
            + seq![Seq::<char>::empty(), Seq::<char>::empty()]));
    }
}

proof fn place_behind(s: Seq<char>, c: char, rest: Seq<char>)
    requires
        !s.contains(c),
    ensures
        place_of(s + seq![c] + rest, c) == s.len(),
    decreases s.len(),
{
    let t = s + seq![c] + rest;
    if s.len() > 0 {
        assert(s.contains(s[0]));
        let less = s.drop_first();
        assert(!less.contains(c)) by {
            if less.contains(c) {
                let i = choose|i: int| 0 <= i < less.len() && less[i] == c;
                assert(s[i + 1] == c);
            }
        }
        assert(t.drop_first() =~= less + seq![c] + rest);
        assert(t[0] == s[0]);
        place_behind(less, c, rest);
    }
}

proof fn a_line_is_read(header: (Seq<char>, Seq<char>))
    requires
        is_plain_header(header),
    ensures
        line_of(header).len() > 0,
        parted(line_of(header), ':') matches Some((name, value)) && lowered(trimmed(name)) == header.0 && trimmed(value)
            == header.1,
{
    let line = line_of(header);
    let rest = seq![' '] + header.1;
    assert(line =~= header.0 + seq![':'] + rest);
    place_behind(header.0, ':', rest);
    assert(line.take(header.0.len() as int) =~= header.0);
    assert(line.skip(header.0.len() as int + 1) =~= rest);
    assert(rest.drop_first() =~= header.1);
    assert(trimmed_start(rest) == trimmed_start(header.1));
}

proof fn lines_are_read(headers: Seq<(Seq<char>, Seq<char>)>, strict: bool)
    requires
        forall|i: int| 0 <= i < headers.len() ==> is_plain_header(#[trigger] headers[i]),
    ensures
        header_list(headers.map_values(|header: (Seq<char>, Seq<char>)| line_of(header)), strict) == Ok::<
            Seq<(Seq<char>, Seq<char>)>,
            Seq<char>,
        >(headers),
    decreases headers.len(),
{
    let f = |header: (Seq<char>, Seq<char>)| line_of(header);
    let lines = headers.map_values(f);
    if headers.len() == 0 {
        assert(headers =~= Seq::empty());
    } else {
        let less = headers.drop_last();
        assert forall|i: int| 0 <= i < less.len() implies is_plain_header(#[trigger] less[i]) by {
            assert(less[i] == headers[i]);
        }
        lines_are_read(less, strict);
        assert(lines.drop_last() =~= less.map_values(f));
        assert(is_plain_header(headers[headers.len() - 1]));
        a_line_is_read(headers.last());
        assert(lines.last() == line_of(headers.last()));
        assert(less.push(headers.last()) =~= headers);
    }
}

proof fn a_word_goes_on(s: Seq<char>, word: Seq<char>)
    requires
        forall|i: int| 0 <= i < word.len() ==> !is_space(#[trigger] word[i]),
    ensures
        pieces(s, spaces()).len() > 0,
        pieces(s + word, spaces()) == pieces(s, spaces()).drop_last().push(pieces(s, spaces()).last() + word),
    decreases word.len(),
{
    crate::text::pieces_not_empty(s, spaces());
    let before = pieces(s, spaces());
    if word.len() == 0 {
        assert(s + word =~= s);
        assert(before.last() + word =~= before.last());
        assert(before.drop_last().push(before.last()) =~= before);
    } else {
        let less = word.drop_last();
        assert forall|i: int| 0 <= i < less.len() implies !is_space(#[trigger] less[i]) by {
            assert(less[i] == word[i]);
        }
        a_word_goes_on(s, less);
        let all = s + word;
        assert(all.drop_last() =~= s + less);
        assert(all.last() == word.last());
        assert(!is_space(word[word.len() - 1]));
        let there = pieces(s + less, spaces());
        assert(there.drop_last() =~= before.drop_last());
        assert(there.last() == before.last() + less);
        assert((before.last() + less).push(word.last()) =~= before.last() + word);
    }
}

proof fn a_space_ends_a_piece(s: Seq<char>)
    ensures
        pieces(s.push(' '), spaces()) == pieces(s, spaces()).push(Seq::empty()),
{
    assert(s.push(' ').drop_last() =~= s);
}

/// Words with one space between them are read as those words.
pub proof fn words_come_back(list: Seq<Seq<char>>)
    requires
        list.len() > 0,
        forall|i: int| 0 <= i < list.len() ==> is_word(#[trigger] list[i]),
    ensures
        words(joined(list, " "@)) == list,
{
    spaced_pieces(list);
    nothing_empty_goes(list);
}

proof fn spaced_pieces(list: Seq<Seq<char>>)
    requires
        list.len() > 0,
        forall|i: int| 0 <= i < list.len() ==> is_word(#[trigger] list[i]),
    ensures
        pieces(joined(list, " "@), spaces()) == list,
    decreases list.len(),
{
    reveal_strlit(" ");
    let none = Seq::<char>::empty();
    let last = list.last();
    assert(is_word(list[list.len() - 1]));
    if list.len() == 1 {
        assert(pieces(none, spaces()) =~= seq![none]);
        a_word_goes_on(none, last);
        assert(none + last =~= last);
        assert(list =~= seq![none].drop_last().push(last));
    } else {
        let less = list.drop_last();
        assert forall|i: int| 0 <= i < less.len() implies is_word(#[trigger] less[i]) by {
            assert(less[i] == list[i]);
        }
        spaced_pieces(less);
        let start = joined(less, " "@);
        a_space_ends_a_piece(start);
        assert(start.push(' ') =~= start + " "@);
        a_word_goes_on(start + " "@, last);
        assert(none + last =~= last);
        assert(less.push(none).drop_last() =~= less);
        assert(less.push(last) =~= list);
    }
}

proof fn nothing_empty_goes(list: Seq<Seq<char>>)
    requires
        forall|i: int| 0 <= i < list.len() ==> is_word(#[trigger] list[i]),
    ensures
        not_empty(list) == list,
    decreases list.len(),
{
    if list.len() == 0 {
        assert(list =~= Seq::empty());
    } else {
        let less = list.drop_last();
        assert forall|i: int| 0 <= i < less.len() implies is_word(#[trigger] less[i]) by {
            assert(less[i] == list[i]);
        }
        nothing_empty_goes(less);
        assert(is_word(list[list.len() - 1]));
        assert(less.push(list.last()) =~= list);
    }
}

proof fn words_of_three(a: Seq<char>, b: Seq<char>, c: Seq<char>)
    requires
        is_word(a),
        is_word(b),
        is_word(c),
    ensures
        words(a + seq![' '] + b + seq![' '] + c) == seq![a, b, c],
{
    reveal_strlit(" ");
    let list = seq![a, b, c];
    assert(list.drop_last() =~= seq![a, b]);
    assert(seq![a, b].drop_last() =~= seq![a]);
    assert(joined(seq![a], " "@) == a);
    assert(joined(seq![a, b], " "@) == a + " "@ + b);
    assert(" "@ =~= seq![' ']);
    words_come_back(list);
}

/// The head of a request is read as it was written: its method, its target and its headers in their order.
pub proof fn heads_come_back(head: HeadV, strict: bool)
    requires
        is_word(head.method),
        is_word(head.target),
        forall|i: int| 0 <= i < head.headers.len() ==> is_plain_header(#[trigger] head.headers[i]),
    ensures
        head_of(written_head(head), strict) == Ok::<HeadV, Seq<char>>(head),
{
    let version = seq!['H', 'T', 'T', 'P', '/', '1', '.', '1'];
    let first = head.method + seq![' '] + head.target + seq![' '] + version;
    let end = seq!['\r', '\n'];
    let rest = written_headers(head.headers) + end;
    assert(written_head(head) =~= first + end + rest);
    assert(is_one_line(first)) by {
        assert forall|i: int| 0 <= i < first.len() implies #[trigger] first[i] != '\r' by {
            let a = head.method.len() as int;
            let b = a + 1 + head.target.len();
            if i < a {
                assert(first[i] == head.method[i]);
            } else if a < i < b {
                assert(first[i] == head.target[i - a - 1]);
            } else if i > b {
                assert(first[i] == version[i - b - 1]);
            }
        }
    }
    a_line_is_parted(first, rest);
    header_lines_are_parted(head.headers);
    let f = |header: (Seq<char>, Seq<char>)| line_of(header);
    let none = Seq::<char>::empty();
    let lines = head.headers.map_values(f);
    let all = parts(written_head(head), "\r\n"@);
    assert(all =~= seq![first] + (lines + seq![none, none]));
    assert(all[0] == first);
    words_of_three(head.method, head.target, version);
    lines_are_read(head.headers, strict);
    let tail = all.drop_first();
    assert(tail =~= lines + seq![none, none]);
    assert(tail.drop_last() =~= lines.push(none));
    assert(tail.drop_last().drop_last() =~= lines);
    assert(tail.last() == none);
    assert(tail.drop_last().last() == none);
    assert(header_list(tail.drop_last(), strict) == header_list(lines, strict));
    assert(header_list(tail, strict) == header_list(lines, strict));
}

/// A header's value is that of the first header with the name.
pub proof fn headers_are_those_given_first(headers: Seq<(Seq<char>, Seq<char>)>, name: Seq<char>)
    ensures
        first_value(headers, name) is None <==> forall|i: int| 0 <= i < headers.len() ==> (#[trigger] headers[i]).0 != name,
        forall|i: int|
            0 <= i < headers.len() && (#[trigger] headers[i]).0 == name && (forall|j: int|
                0 <= j < i ==> (#[trigger] headers[j]).0 != name) ==> first_value(headers, name) == Some(headers[i].1),
    decreases headers.len(),
{
    if headers.len() > 0 {
        let rest = headers.drop_first();
        headers_are_those_given_first(rest, name);
        assert forall|i: int|
            0 <= i < headers.len() && (#[trigger] headers[i]).0 == name && (forall|j: int|
                0 <= j < i ==> (#[trigger] headers[j]).0 != name) implies first_value(headers, name) == Some(
            headers[i].1,
        ) by {
            if i > 0 {
                assert(headers[0].0 != name);
                assert(rest[i - 1] == headers[i]);
                assert forall|j: int| 0 <= j < i - 1 implies (#[trigger] rest[j]).0 != name by {
                    assert(rest[j] == headers[j + 1]);
                }
            }
        }
        if headers[0].0 == name {
        } else if first_value(rest, name) is None {
            assert forall|i: int| 0 <= i < headers.len() implies (#[trigger] headers[i]).0 != name by {
                if i > 0 {
                    assert(rest[i - 1] == headers[i]);
                }
            }
        } else {
            let i = choose|i: int| 0 <= i < rest.len() && (#[trigger] rest[i]).0 == name;
            assert(headers[i + 1].0 == name);
        }
    }
}

/// A frame ends before the first blank line of either form, and a buffer without one holds none.
pub proof fn frames_end_at_blank_lines(buf: Seq<u8>, k: int)
    ensures
        match frame_end(buf) {
            Some((at, n)) => {
                &&& n == 2 && bytes_at(buf, seq![10u8, 10u8], at) || n == 4 && bytes_at(
                    buf,
                    seq![13u8, 10u8, 13u8, 10u8],
                    at,
                )
                &&& 0 <= k < at ==> !bytes_at(buf, seq![10u8, 10u8], k) && !bytes_at(buf, seq![13u8, 10u8, 13u8, 10u8], k)
            },
            None => 0 <= k ==> !bytes_at(buf, seq![10u8, 10u8], k) && !bytes_at(buf, seq![13u8, 10u8, 13u8, 10u8], k),
        },
{
    next_place_is_inside(buf, blank_line(), 0);
    next_place_is_inside(buf, blank_crlf_line(), 0);
}

/// Long line ends become short ones, and nothing else changes.
pub proof fn line_ends_alone_are_shortened(s: Seq<char>)
    ensures
        short_line_ends(s) == replaced(s, seq!['\r', '\n'], seq!['\n']),
    decreases s.len(),
{
    let end = seq!['\r', '\n'];
    if s.len() > 0 {
        if s.len() > 1 && s[0] == '\r' && s[1] == '\n' {
            assert(s.subrange(0, 2) =~= end);
            assert(stands_at(s, end, 0));
            line_ends_alone_are_shortened(s.skip(2));
        } else {
            if stands_at(s, end, 0) {
                assert(s.subrange(0, 2)[0] == end[0] && s.subrange(0, 2)[1] == end[1]);
            }
            line_ends_alone_are_shortened(s.skip(1));
        }
    }
}

proof fn one_line_has_one_piece(s: Seq<char>, line: Seq<char>)
    requires
        forall|i: int| 0 <= i < line.len() ==> #[trigger] line[i] != '\n',
    ensures
        pieces(s, is_char('\n')).len() > 0,
        pieces(s + line, is_char('\n')) == pieces(s, is_char('\n')).drop_last().push(pieces(s, is_char('\n')).last() + line),
    decreases line.len(),
{
    crate::text::pieces_not_empty(s, is_char('\n'));
    let before = pieces(s, is_char('\n'));
    if line.len() == 0 {
        assert(s + line =~= s);
        assert(before.last() + line =~= before.last());
        assert(before.drop_last().push(before.last()) =~= before);
    } else {
        let less = line.drop_last();
        assert forall|i: int| 0 <= i < less.len() implies #[trigger] less[i] != '\n' by {
            assert(less[i] == line[i]);
        }
        one_line_has_one_piece(s, less);
        let all = s + line;
        assert(all.drop_last() =~= s + less);
        assert(all.last() == line.last());
        assert(line[line.len() - 1] != '\n');
        let there = pieces(s + less, is_char('\n'));
        assert(there.drop_last() =~= before.drop_last());
        assert(there.last() == before.last() + less);
        assert((before.last() + less).push(line.last()) =~= before.last() + line);
    }
}

/// Whether a text stands in one line of a frame, without white space in front or at the end.
pub open spec fn is_plain_line(s: Seq<char>) -> bool {
    s == trimmed(s) && trimmed_start(s) == s && forall|i: int| 0 <= i < s.len() ==> #[trigger] s[i] != '\n' && s[i] != '\r'
}

proof fn short_ends_stay(s: Seq<char>)
    requires
        forall|i: int| 0 <= i < s.len() ==> #[trigger] s[i] != '\r',
    ensures
        short_line_ends(s) == s,
    decreases s.len(),
{
    if s.len() > 0 {
        let rest = s.skip(1);
        assert forall|i: int| 0 <= i < rest.len() implies #[trigger] rest[i] != '\r' by {
            assert(rest[i] == s[i + 1]);
        }
        short_ends_stay(rest);
        assert(seq![s[0]] + rest =~= s);
    }
}

/// A frame that was written is read with the event and the value that it was written with.
pub proof fn frames_come_back(name: Seq<char>, value: JsonV, frame: Seq<u8>)
    requires
        is_plain_line(name),
        is_plain_line(rendered(value)),
        sse_bytes(Some(name), value) == frame + seq![10u8, 10u8],
        valid_utf8(frame),
        lossy_text(frame) == decode_utf8(frame),
    ensures
        frame_event(frame) == (Some(name), rendered(value)),
{
    reveal_strlit("data: ");
    reveal_strlit("event: ");
    reveal_strlit("data:");
    reveal_strlit("event:");
    reveal_strlit("\n");
    reveal_strlit("\n\n");
    let body = rendered(value);
    let one = "event: "@ + name;
    let two = "data: "@ + body;
    let s = one + seq!['\n'] + two;
    assert(sse_text(Some(name), value) =~= s + seq!['\n', '\n']);
    assert(decode_utf8(frame) == s) by {
        vstd::utf8::encode_utf8_decode_utf8(s + seq!['\n', '\n']);
        vstd::utf8::decode_utf8_encode_utf8(frame);
        let t = decode_utf8(frame);
        let ends = seq!['\n', '\n'];
        assert(encode_utf8(ends) =~= seq![10u8, 10u8]) by {
            vstd::utf8::is_ascii_chars_encode_utf8(ends);
        }
        encoding_adds_up(t, ends);
        vstd::utf8::encode_utf8_decode_utf8(t + ends);
        assert(t + ends == s + ends);
        assert(t =~= (t + ends).take(t.len() as int));
        assert((t + ends).len() == (s + ends).len());
        assert(s =~= (s + ends).take(s.len() as int));
    }
    assert forall|i: int| 0 <= i < s.len() implies #[trigger] s[i] != '\r' by {
        let a = one.len() as int;
        if i < 7 {
        } else if i < a {
            assert(s[i] == name[i - 7]);
        } else if i > a + 6 {
            assert(s[i] == body[i - a - 7]);
        }
    }
    short_ends_stay(s);
    let none = Seq::<char>::empty();
    assert forall|i: int| 0 <= i < one.len() implies #[trigger] one[i] != '\n' by {
        if i >= 7 {
            assert(one[i] == name[i - 7]);
        }
    }
    assert forall|i: int| 0 <= i < two.len() implies #[trigger] two[i] != '\n' by {
        if i >= 6 {
            assert(two[i] == body[i - 6]);
        }
    }
    assert(pieces(none, is_char('\n')) =~= seq![none]);
    one_line_has_one_piece(none, one);
    assert(none + one =~= one);
    assert(pieces(one, is_char('\n')) =~= seq![one]);
    let first = one + seq!['\n'];
    assert(first.drop_last() =~= one);
    assert(pieces(first, is_char('\n')) =~= seq![one, none]);
    one_line_has_one_piece(first, two);
    assert(none + two =~= two);
    let lines = pieces(s, is_char('\n'));
    assert(lines =~= seq![one, two]);
    assert(lines.drop_last() =~= seq![one]);
    assert(seq![one].drop_last() =~= Seq::<Seq<char>>::empty());
    assert("event:"@ =~= one.take(6));
    assert("event:"@.is_prefix_of(one));
    let value_of_one = one.skip(6);
    assert(value_of_one =~= seq![' '] + name);
    assert(value_of_one.drop_first() =~= name);
    assert(trimmed_start(value_of_one) == trimmed_start(name));
    assert(trimmed(value_of_one) == trimmed(name));
    assert(event_of_lines(Seq::<Seq<char>>::empty()) == (None::<Seq<char>>, Seq::<Seq<char>>::empty()));
    assert(event_of_lines(seq![one]) == (Some(name), Seq::<Seq<char>>::empty()));
    assert(!"event:"@.is_prefix_of(two)) by {
        if "event:"@.is_prefix_of(two) {
            assert(two.take(6)[0] == "event:"@[0]);
            assert(two[0] == 'd');
        }
    }
    assert("data:"@ =~= two.take(5));
    assert("data:"@.is_prefix_of(two));
    let value_of_two = two.skip(5);
    assert(value_of_two =~= seq![' '] + body);
    assert(value_of_two.drop_first() =~= body);
    assert(trimmed_start(value_of_two) == trimmed_start(body));
    let data = event_of_lines(lines).1;
    assert(data =~= seq![body]);
    assert(joined(data, "\n"@) == body);
}

proof fn encoding_adds_up(a: Seq<char>, b: Seq<char>)
    ensures
        encode_utf8(a + b) == encode_utf8(a) + encode_utf8(b),
    decreases a.len(),
{
    if a.len() == 0 {
        assert(a + b =~= b);
        assert(encode_utf8(a) =~= Seq::<u8>::empty());
    } else {
        encoding_adds_up(a.drop_first(), b);
        assert((a + b).drop_first() =~= a.drop_first() + b);
        assert((a + b)[0] == a[0]);
    }
}

} // verus!
