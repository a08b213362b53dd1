//! What holds of the mode in which requests go on unchanged.
use crate::messages::place_of;
use crate::official_passthrough::{
    carried, chunk_at, chunk_size, chunked_from, hex_digit, hex_value, is_secret, line_at, line_length,
    line_length_bounds, line_length_is, lines_lead_on, long_line, request_hops, told_pair, trailer_at, ChunkV, LineV,
    MAX_BODY_BYTES, MAX_CHUNK_LINE_BYTES,
};
use crate::text::{is_char, is_space, pieces, trimmed};
use crate::wire::{ends_head, is_head_length, parted};
use vstd::prelude::*;
use vstd::utf8::{decode_utf8, encode_utf8, encode_utf8_decode_utf8, encode_utf8_valid_utf8, is_ascii_chars, is_ascii_chars_encode_utf8, valid_utf8};

verus! {

/// The headers that go on are those that came and belong to no single connection.
pub proof fn the_rest_is_carried(headers: Seq<(Seq<char>, Seq<char>)>, header: (Seq<char>, Seq<char>))
    ensures
        carried(headers).contains(header) <==> headers.contains(header) && !request_hops().contains(header.0),
    decreases headers.len(),
{
    if headers.len() > 0 {
        let before = headers.drop_last();
        let last = headers.last();
        the_rest_is_carried(before, header);
        assert(headers =~= before.push(last));
        if headers.contains(header) && !before.contains(header) {
            let i = headers.index_of(header);
            if i < before.len() {
                assert(before[i] == header);
            }
            assert(header == last);
        }
        if before.contains(header) {
            let i = before.index_of(header);
            assert(headers[i] == header);
        }
        if !request_hops().contains(last.0) {
            let kept = carried(before);
            assert(carried(headers) == kept.push(last));
            assert(kept.push(last)[kept.len() as int] == last);
            if kept.contains(header) {
                let i = kept.index_of(header);
                assert(kept.push(last)[i] == header);
            }
            if kept.push(last).contains(header) {
                let i = kept.push(last).index_of(header);
                if i < kept.len() {
                    assert(kept[i] == header);
                }
            }
            assert(headers[headers.len() - 1] == last);
        }
    }
}

/// The headers that carry a credential go on.
pub proof fn credentials_go_on(headers: Seq<(Seq<char>, Seq<char>)>, value: Seq<char>)
    ensures
        headers.contains(("authorization"@, value)) ==> carried(headers).contains(("authorization"@, value)),
        headers.contains(("x-api-key"@, value)) ==> carried(headers).contains(("x-api-key"@, value)),
{
    the_rest_is_carried(headers, ("authorization"@, value));
    the_rest_is_carried(headers, ("x-api-key"@, value));
    reveal_strlit("authorization");
    reveal_strlit("x-api-key");
    reveal_strlit("host");
    reveal_strlit("connection");
    reveal_strlit("keep-alive");
    reveal_strlit("proxy-authenticate");
    reveal_strlit("proxy-authorization");
    reveal_strlit("proxy-connection");
    reveal_strlit("te");
    reveal_strlit("trailer");
    reveal_strlit("transfer-encoding");
    reveal_strlit("upgrade");
    reveal_strlit("content-length");
    reveal_strlit("expect");
    assert forall|i: int| 0 <= i < request_hops().len() implies #[trigger] request_hops()[i] != "authorization"@
        && request_hops()[i] != "x-api-key"@ by {
        let hop = request_hops()[i];
        assert(hop.len() != 13 && hop.len() != 9);
    }
}

/// The log says the same of a query whatever the value of a name that may be a credential's.
pub proof fn secret_values_are_untold(name: Seq<char>, a: Seq<char>, b: Seq<char>)
    requires
        is_secret(name),
        !name.contains('='),
    ensures
        told_pair(name + seq!['='] + a) == told_pair(name + seq!['='] + b),
        told_pair(name + seq!['='] + a) == name + "=<redacted>"@,
{
    parts_at_first(name, '=', a);
    parts_at_first(name, '=', b);
}

proof fn parts_at_first(name: Seq<char>, c: char, value: Seq<char>)
    requires
        !name.contains(c),
    ensures
        parted(name + seq![c] + value, c) == Some((name, value)),
{
    let s = name + seq![c] + value;
    place_is(s, c, name.len() as int);
    assert(s.take(name.len() as int) =~= name);
    assert(s.skip(name.len() as int + 1) =~= value);
}

proof fn place_is(s: Seq<char>, c: char, at: int)
    requires
        0 <= at < s.len(),
        s[at] == c,
        forall|k: int| 0 <= k < at ==> s[k] != c,
    ensures
        place_of(s, c) == at,
    decreases at,
{
    if at > 0 {
        let rest = s.drop_first();
        assert forall|k: int| 0 <= k < at - 1 implies rest[k] != c by {
            assert(rest[k] == s[k + 1]);
        }
        place_is(rest, c, at - 1);
    }
}

/// A head that is complete stays the head, whatever follows.
pub proof fn heads_stay(bytes: Seq<u8>, more: Seq<u8>, n: int)
    requires
        is_head_length(bytes, n),
    ensures
        is_head_length(bytes + more, n),
{
    assert forall|k: int| 0 <= k <= n implies #[trigger] (bytes + more).take(k) == bytes.take(k) by {
        assert((bytes + more).take(k) =~= bytes.take(k));
    }
    assert forall|k: int| 0 <= k < n implies !ends_head(#[trigger] (bytes + more).take(k)) by {
        assert(!ends_head(bytes.take(k)));
    }
    assert(ends_head((bytes + more).take(n)));
}

proof fn lines_stay(bytes: Seq<u8>, more: Seq<u8>, at: int)
    requires
        0 <= at <= bytes.len(),
        !(line_at(bytes, at) is More),
    ensures
        line_at(bytes + more, at) == line_at(bytes, at),
{
    let all = bytes + more;
    let n = line_length(bytes, at);
    line_length_bounds(bytes, at);
    no_feed_before(bytes, at);
    assert forall|k: int| at <= k < at + n implies all[k] != 10 by {
        assert(all[k] == bytes[k]);
    }
    if n > MAX_CHUNK_LINE_BYTES {
        long_line(all, at, n);
    } else {
        assert(all[at + n] == bytes[at + n]);
        line_length_is(all, at, n);
        assert(all.subrange(at, at + n) =~= bytes.subrange(at, at + n));
    }
}

proof fn no_feed_before(bytes: Seq<u8>, at: int)
    requires
        0 <= at <= bytes.len(),
    ensures
        forall|k: int| at <= k < at + line_length(bytes, at) ==> bytes[k] != 10,
        at + line_length(bytes, at) < bytes.len() ==> bytes[at + line_length(bytes, at)] == 10,
    decreases bytes.len() - at,
{
    if at < bytes.len() && bytes[at] != 10 {
        no_feed_before(bytes, at + 1);
    }
}

proof fn trailers_stay(bytes: Seq<u8>, more: Seq<u8>, at: int)
    requires
        0 <= at <= bytes.len(),
        !(trailer_at(bytes, at) is More),
    ensures
        trailer_at(bytes + more, at) == trailer_at(bytes, at),
    decreases bytes.len() - at,
{
    lines_stay(bytes, more, at);
    lines_lead_on(bytes, at);
    match line_at(bytes, at) {
        LineV::Line(text, next) => {
            if text.len() > 0 {
                trailers_stay(bytes, more, next);
            }
        },
        _ => {},
    }
}

/// What is read of a chunk does not change when more bytes come: once a step calls for none, it is the
/// step of all that comes.
pub proof fn chunks_stay(bytes: Seq<u8>, more: Seq<u8>, at: int, have: int)
    requires
        0 <= at <= bytes.len(),
        !(chunk_at(bytes, at, have) is More),
    ensures
        chunk_at(bytes + more, at, have) == chunk_at(bytes, at, have),
{
    lines_stay(bytes, more, at);
    lines_lead_on(bytes, at);
    match line_at(bytes, at) {
        LineV::Line(text, start) => {
            match chunk_size(text) {
                Some(size) => {
                    if size == 0 {
                        trailers_stay(bytes, more, start);
                    } else if have + size <= MAX_BODY_BYTES {
                        lines_stay(bytes, more, start + size);
                    }
                },
                None => {},
            }
        },
        _ => {},
    }
}

/// The character of a hexadecimal digit.
pub open spec fn hex_char(d: nat) -> char {
    if d < 10 {
        (48 + d) as char
    } else {
        (87 + d) as char
    }
}

/// The hexadecimal text of a number.
pub open spec fn hex_text(n: nat) -> Seq<char>
    decreases n,
{
    if n < 16 {
        seq![hex_char(n)]
    } else {
        hex_text(n / 16).push(hex_char(n % 16))
    }
}

/// A chunk as it is sent.
pub open spec fn chunk_sent(data: Seq<u8>) -> Seq<u8> {
    encode_utf8(hex_text(data.len())) + seq![13u8, 10u8] + data + seq![13u8, 10u8]
}

/// A body in chunks as it is sent.
pub open spec fn chunks_sent(chunks: Seq<Seq<u8>>) -> Seq<u8>
    decreases chunks.len(),
{
    if chunks.len() == 0 {
        seq![48u8, 13u8, 10u8, 13u8, 10u8]
    } else {
        chunk_sent(chunks[0]) + chunks_sent(chunks.drop_first())
    }
}

/// The bytes of chunks one after the other.
pub open spec fn together(chunks: Seq<Seq<u8>>) -> Seq<u8>
    decreases chunks.len(),
{
    if chunks.len() == 0 {
        Seq::empty()
    } else {
        chunks[0] + together(chunks.drop_first())
    }
}

spec fn hex_small(c: char) -> bool {
    ('0' <= c && c <= '9') || ('a' <= c && c <= 'f')
}

proof fn hex_texts(n: nat)
    ensures
        hex_text(n).len() > 0,
        forall|i: int| 0 <= i < hex_text(n).len() ==> hex_small(#[trigger] hex_text(n)[i]),
        hex_value(hex_text(n)) == Some(n),
    decreases n,
{
    let h = hex_text(n);
    if n < 16 {
        assert(h.drop_last() =~= Seq::empty());
        assert(hex_value(h.drop_last()) == Some(0nat));
        assert(h.last() == hex_char(n));
        assert(hex_digit(hex_char(n)) == Some(n));
    } else {
        hex_texts(n / 16);
        assert(h.drop_last() =~= hex_text(n / 16));
        assert(hex_digit(hex_char(n % 16)) == Some(n % 16));
        assert forall|i: int| 0 <= i < h.len() implies hex_small(#[trigger] h[i]) by {
            if i < hex_text(n / 16).len() {
                assert(h[i] == hex_text(n / 16)[i]);
            }
        }
    }
}

proof fn hex_is_short(n: nat)
    requires
        n <= MAX_BODY_BYTES,
    ensures
        hex_text(n).len() <= 8,
{
    reveal_with_fuel(hex_text, 8);
}

proof fn one_piece(s: Seq<char>, f: spec_fn(char) -> bool)
    requires
        forall|i: int| 0 <= i < s.len() ==> !f(#[trigger] s[i]),
    ensures
        pieces(s, f) == seq![s],
    decreases s.len(),
{
    if s.len() > 0 {
        one_piece(s.drop_last(), f);
        assert(s.drop_last().push(s.last()) =~= s);
        assert(pieces(s, f) =~= seq![s]);
    } else {
        assert(s =~= Seq::empty());
    }
}

proof fn size_lines(n: nat)
    requires
        n <= MAX_BODY_BYTES,
    ensures
        chunk_size(hex_text(n)) == Some(n),
{
    let h = hex_text(n);
    hex_texts(n);
    assert(hex_small(h[0]));
    assert(hex_small(h[h.len() - 1]));
    assert forall|i: int| 0 <= i < h.len() implies !is_char(';')(#[trigger] h[i]) by {
        assert(hex_small(h[i]));
    }
    one_piece(h, is_char(';'));
    assert(!is_space(h[0]) && !is_space(h.last()));
    assert(trimmed(h) == h);
    assert(h[0] != '+');
}

/// A line of hexadecimal digits, which the long line end follows, is read as itself.
proof fn hex_lines(bytes: Seq<u8>, at: int, n: nat)
    requires
        n <= MAX_BODY_BYTES,
        0 <= at,
        at + hex_text(n).len() + 2 <= bytes.len(),
        bytes.subrange(at, at + hex_text(n).len()) == encode_utf8(hex_text(n)),
        bytes[at + hex_text(n).len() as int] == 13,
        bytes[at + hex_text(n).len() as int + 1] == 10,
    ensures
        line_at(bytes, at) == LineV::Line(hex_text(n), at + hex_text(n).len() + 2),
{
    let h = hex_text(n);
    let len = h.len() as int;
    hex_texts(n);
    hex_is_short(n);
    assert(is_ascii_chars(h)) by {
        assert forall|i: int| 0 <= i < h.len() implies '\0' <= #[trigger] h[i] <= '\u{7f}' by {
            assert(hex_small(h[i]));
        }
    }
    is_ascii_chars_encode_utf8(h);
    assert forall|k: int| at <= k < at + len + 1 implies bytes[k] != 10 by {
        if k < at + len {
            assert(bytes[k] == bytes.subrange(at, at + len)[k - at]);
            assert(bytes[k] == h[k - at] as u8);
            assert(hex_small(h[k - at]));
        }
    }
    line_length_is(bytes, at, len + 1);
    let whole = bytes.subrange(at, at + len + 1);
    assert(whole.last() == 13);
    assert(whole.drop_last() =~= bytes.subrange(at, at + len));
    encode_utf8_valid_utf8(h);
    encode_utf8_decode_utf8(h);
}

proof fn empty_lines(bytes: Seq<u8>, at: int)
    requires
        0 <= at,
        at + 2 <= bytes.len(),
        bytes[at] == 13,
        bytes[at + 1] == 10,
    ensures
        line_at(bytes, at) == LineV::Line(Seq::empty(), at + 2),
{
    line_length_is(bytes, at, 1);
    let whole = bytes.subrange(at, at + 1);
    assert(whole.last() == 13);
    assert(whole.drop_last() =~= Seq::empty());
    assert(valid_utf8(Seq::<u8>::empty()));
    assert(decode_utf8(Seq::<u8>::empty()) =~= Seq::empty());
}

#[verifier::spinoff_prover]
#[verifier::rlimit(80)]
proof fn chunks_come_back(before: Seq<u8>, body: Seq<u8>, chunks: Seq<Seq<u8>>)
    requires
        forall|i: int| 0 <= i < chunks.len() ==> (#[trigger] chunks[i]).len() > 0,
        body.len() + together(chunks).len() <= MAX_BODY_BYTES,
    ensures
        chunked_from(before + chunks_sent(chunks), before.len() as int, body) == Ok::<(Seq<u8>, int), Seq<char>>(
            (body + together(chunks), (before + chunks_sent(chunks)).len() as int),
        ),
    decreases chunks.len(),
{
    let bytes = before + chunks_sent(chunks);
    let at = before.len() as int;
    if chunks.len() == 0 {
        assert(hex_text(0) =~= seq!['0']);
        assert(is_ascii_chars(hex_text(0)));
        is_ascii_chars_encode_utf8(hex_text(0));
        assert(encode_utf8(hex_text(0)) =~= seq![48u8]);
        assert(bytes.subrange(at, at + 1) =~= seq![48u8]);
        hex_lines(bytes, at, 0);
        size_lines(0);
        empty_lines(bytes, at + 3);
        assert(body + together(chunks) =~= body);
    } else {
        let data = chunks[0];
        let rest = chunks.drop_first();
        let h = hex_text(data.len());
        let len = h.len() as int;
        let line = encode_utf8(h);
        hex_texts(data.len());
        assert(is_ascii_chars(h)) by {
            assert forall|i: int| 0 <= i < h.len() implies '\0' <= #[trigger] h[i] <= '\u{7f}' by {
                assert(hex_small(h[i]));
            }
        }
        is_ascii_chars_encode_utf8(h);
        assert(chunks_sent(chunks) == chunk_sent(data) + chunks_sent(rest));
        assert(bytes.subrange(at, at + len) =~= line);
        assert(bytes[at + len] == 13 && bytes[at + len + 1] == 10);
        let start = at + len + 2;
        assert(bytes.subrange(start, start + data.len()) =~= data);
        let end = start + data.len();
        assert(bytes[end] == 13 && bytes[end + 1] == 10);
        assert(together(chunks) == data + together(rest));
        hex_lines(bytes, at, data.len());
        size_lines(data.len());
        empty_lines(bytes, end);
        assert(chunk_at(bytes, at, body.len() as int) == (ChunkV::Data { from: start, to: end, next: end + 2 }));
        let next = before + chunk_sent(data);
        assert(bytes =~= next + chunks_sent(rest));
        assert(next.len() == end + 2);
        assert forall|i: int| 0 <= i < rest.len() implies (#[trigger] rest[i]).len() > 0 by {
            assert(rest[i] == chunks[i + 1]);
        }
        chunks_come_back(next, body + data, rest);
        assert(body + data + together(rest) =~= body + together(chunks));
    }
}

/// A body that is sent in chunks is read as the chunks one after the other, up to where it ends.
pub proof fn chunked_bodies_come_back(chunks: Seq<Seq<u8>>)
    requires
        forall|i: int| 0 <= i < chunks.len() ==> (#[trigger] chunks[i]).len() > 0,
        together(chunks).len() <= MAX_BODY_BYTES,
    ensures
        chunked_from(chunks_sent(chunks), 0, Seq::empty()) == Ok::<(Seq<u8>, int), Seq<char>>(
            (together(chunks), chunks_sent(chunks).len() as int),
        ),
{
    chunks_come_back(Seq::empty(), Seq::empty(), chunks);
    assert(Seq::<u8>::empty() + chunks_sent(chunks) =~= chunks_sent(chunks));
    assert(Seq::<u8>::empty() + together(chunks) =~= together(chunks));
}

} // verus!
