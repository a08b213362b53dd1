//! What holds of the clean-up of search turns over a whole stream.
use crate::json::JsonV;
use crate::json_model::json_parse;
use crate::kimi_search_noise::{
    after, after_search_call, block_started, drained, fed, flush_held, flushed, held_frame, on_block_delta,
    on_block_start, on_block_stop, on_frame, on_other, text_decided, FilterV, FlushV, PendingKindV, PendingV,
};
use crate::sse::{blank_crlf_line, blank_line, bytes_at, frame_end, frame_event, next_place, next_place_is_inside};
use vstd::prelude::*;

verus! {

/// The first place of bytes does not move when more bytes follow.
proof fn next_place_stays(x: Seq<u8>, b: Seq<u8>, part: Seq<u8>)
    requires
        part.len() > 0,
    ensures
        match next_place(x, part, 0) {
            Some(i) => next_place(x + b, part, 0) == Some(i),
            None => match next_place(x + b, part, 0) {
                Some(j) => j + part.len() > x.len() && bytes_at(x + b, part, j),
                None => true,
            },
        },
{
    let y = x + b;
    next_place_is_inside(x, part, 0);
    next_place_is_inside(y, part, 0);
    assert forall|k: int| 0 <= k && k + part.len() <= x.len() implies #[trigger] bytes_at(x, part, k) == bytes_at(y, part, k) by {
        assert(x.subrange(k, k + part.len()) =~= y.subrange(k, k + part.len()));
    }
    match (next_place(x, part, 0), next_place(y, part, 0)) {
        (Some(i), Some(j)) => {
            assert(bytes_at(y, part, i));
            if j < i {
                assert(bytes_at(x, part, j));
            }
        },
        (Some(i), None) => {
            assert(bytes_at(y, part, i));
        },
        (None, Some(j)) => {
            if j + part.len() <= x.len() {
                assert(bytes_at(x, part, j));
            }
        },
        _ => {},
    }
}

/// The end of the first frame does not move when more bytes follow.
pub proof fn frame_end_stays(x: Seq<u8>, b: Seq<u8>)
    ensures
        frame_end(x) is Some ==> frame_end(x + b) == frame_end(x),
        frame_end(x) matches Some((at, sep)) ==> 0 <= at && 0 < sep && at + sep <= x.len(),
{
    let y = x + b;
    next_place_stays(x, b, blank_line());
    next_place_stays(x, b, blank_crlf_line());
    next_place_is_inside(x, blank_line(), 0);
    next_place_is_inside(x, blank_crlf_line(), 0);
    match (next_place(x, blank_line(), 0), next_place(x, blank_crlf_line(), 0), next_place(y, blank_crlf_line(), 0)) {
        (Some(i), None, Some(j)) => {
            if j < i {
                let lf = y.subrange(i, i + 2);
                let crlf = y.subrange(j, j + 4);
                assert(y.subrange(i, i + 2) =~= x.subrange(i, i + 2));
                assert(j == i - 1);
                assert(lf[1] == y[i + 1]);
                assert(crlf[2] == y[j + 2]);
                assert(lf[1] == 10u8);
                assert(crlf[2] == 13u8);
            }
        },
        _ => {},
    }
}

pub open spec fn with_buf(s: FilterV, buf: Seq<u8>) -> FilterV {
    FilterV { buf, ..s }
}

proof fn flush_ignores_buf(s: FilterV, buf: Seq<u8>, upstream: u64, held: Seq<(Seq<u8>, bool)>, adopt: Option<Seq<char>>)
    ensures
        ({
            let f = flush_held(s, upstream, held, adopt);
            flush_held(with_buf(s, buf), upstream, held, adopt) == FlushV { s: with_buf(f.s, buf), ..f }
        }),
    decreases held.len(),
{
    if held.len() > 0 {
        flush_ignores_buf(s, buf, upstream, held.drop_last(), adopt);
    }
}

/// What a release gives does not depend on the bytes that came after it.
pub proof fn flushed_ignores_buf(s: FilterV, buf: Seq<u8>, adopt: Option<Seq<char>>)
    ensures
        flushed(with_buf(s, buf), adopt) == (with_buf(flushed(s, adopt).0, buf), flushed(s, adopt).1),
{
    if let Some(p) = s.pending {
        flush_ignores_buf(FilterV { pending: None, ..s }, buf, p.upstream_index, p.held, adopt);
        assert(with_buf(FilterV { pending: None, ..s }, buf) == (FilterV { pending: None, ..with_buf(s, buf) }));
    }
}

proof fn decided_ignores_buf(s: FilterV, buf: Seq<u8>)
    ensures
        text_decided(with_buf(s, buf)) == (with_buf(text_decided(s).0, buf), text_decided(s).1),
{
    flushed_ignores_buf(s, buf, None);
}

proof fn started_ignores_buf(s: FilterV, buf: Seq<u8>, index: u64, event: Option<Seq<char>>, obj: JsonV, frame: Seq<u8>, sep: Seq<u8>)
    ensures
        ({
            let r = block_started(s, index, event, obj, frame, sep);
            block_started(with_buf(s, buf), index, event, obj, frame, sep) == (with_buf(r.0, buf), r.1)
        }),
{
    let accum = match crate::kimi_search_noise::block_text_at(obj, "text"@) {
        Some(t) => t,
        None => ""@,
    };
    let fresh = PendingV { upstream_index: index, kind: PendingKindV::Text(accum), held: Seq::empty(), held_bytes: 0 };
    let (s1, fits) = held_frame(FilterV { pending: Some(fresh), ..s }, frame, sep, true);
    decided_ignores_buf(s1, buf);
}

/// What a frame does depends on the state, not on the bytes that came after it.
pub proof fn frames_ignore_buf(s: FilterV, buf: Seq<u8>, frame: Seq<u8>, sep: Seq<u8>)
    ensures
        on_frame(with_buf(s, buf), frame, sep) == (with_buf(on_frame(s, frame, sep).0, buf), on_frame(s, frame, sep).1),
{
    let (event, data) = frame_event(frame);
    flushed_ignores_buf(s, buf, None);
    flushed_ignores_buf(held_frame(s, frame, sep, false).0, buf, None);
    if let Some(obj) = json_parse(data) {
        let kind = obj.text_at("type"@);
        if let Some(index) = obj.unsigned_at("index"@) {
            if kind == Some("content_block_start"@) {
                started_ignores_buf(s, buf, index, event, obj, frame, sep);
                if let Some(p) = s.pending {
                    if let PendingKindV::ServerTool(use_id, true) = p.kind {
                        search_call_ignores_buf(s, buf, p, use_id, index, event, obj, frame, sep);
                    }
                }
            } else if kind == Some("content_block_delta"@) {
                if let Some(p) = s.pending {
                    let p1 = match p.kind {
                        PendingKindV::Text(accum) => PendingV {
                            kind: PendingKindV::Text(accum + crate::kimi_search_noise::delta_text(obj)),
                            ..p
                        },
                        _ => p,
                    };
                    let (s1, fits) = held_frame(FilterV { pending: Some(p1), ..s }, frame, sep, true);
                    decided_ignores_buf(s1, buf);
                }
            }
        }
    }
}

proof fn search_call_ignores_buf(
    s: FilterV,
    buf: Seq<u8>,
    p: PendingV,
    use_id: Option<Seq<char>>,
    index: u64,
    event: Option<Seq<char>>,
    obj: JsonV,
    frame: Seq<u8>,
    sep: Seq<u8>,
)
    ensures
        ({
            let r = after_search_call(s, p, use_id, index, event, obj, frame, sep);
            after_search_call(with_buf(s, buf), p, use_id, index, event, obj, frame, sep) == (with_buf(r.0, buf), r.1)
        }),
{
    let released = flushed(s, None);
    flushed_ignores_buf(s, buf, None);
    started_ignores_buf(released.0, buf, index, event, obj, frame, sep);
    let s1 = FilterV {
        stats: crate::kimi_search_noise::StripStats { unkeyed_pairs: s.stats.unkeyed_pairs.saturating_add(1), ..s.stats },
        ..s
    };
    flushed_ignores_buf(s1, buf, None);
    started_ignores_buf(flushed(s1, None).0, buf, index, event, obj, frame, sep);
    let key = crate::kimi_search_noise::non_empty(crate::kimi_search_noise::block_text_at(obj, "tool_use_id"@));
    flushed_ignores_buf(s, buf, key);
    started_ignores_buf(flushed(s, key).0, buf, index, event, obj, frame, sep);
}

proof fn drained_in_pieces(s: FilterV, b: Seq<u8>)
    requires
        drained(s).1 is Ok,
    ensures
        drained(with_buf(s, s.buf + b)) == after(
            drained(s).1->Ok_0,
            drained(with_buf(drained(s).0, drained(s).0.buf + b)),
        ),
    decreases s.buf.len(),
{
    frame_end_stays(s.buf, b);
    match frame_end(s.buf) {
        None => {
            let d = drained(with_buf(s, s.buf + b));
            match d.1 {
                Ok(out) => {
                    assert(Seq::<u8>::empty() + out =~= out);
                },
                Err(_) => {},
            }
        },
        Some((at, sep)) => {
            let all = s.buf + b;
            let frame = s.buf.take(at);
            let mark = s.buf.subrange(at, at + sep);
            assert(all.take(at) =~= frame);
            assert(all.subrange(at, at + sep) =~= mark);
            assert(all.skip(at + sep) =~= s.buf.skip(at + sep) + b);
            frames_ignore_buf(s, all, frame, mark);
            let (s1, r) = on_frame(s, frame, mark);
            match r {
                Err(_) => {},
                Ok(out) => {
                    let s2 = FilterV { buf: s.buf.skip(at + sep), ..s1 };
                    drained_in_pieces(s2, b);
                    let rest = drained(s2);
                    let more = drained(with_buf(rest.0, rest.0.buf + b));
                    assert(with_buf(s2, s2.buf + b) == (FilterV { buf: all.skip(at + sep), ..with_buf(s1, all) }));
                    match more.1 {
                        Ok(tail) => {
                            assert(out + (rest.1->Ok_0 + tail) =~= (out + rest.1->Ok_0) + tail);
                        },
                        Err(_) => {},
                    }
                },
            }
        },
    }
}

/// It makes no difference how a stream is cut into pieces: bytes fed one piece after the other come
/// out, and leave the filter, as if they had been fed at once.
pub proof fn pieces_make_no_difference(s: FilterV, a: Seq<u8>, b: Seq<u8>)
    requires
        fed(s, a).1 is Ok,
        fed(fed(s, a).0, b).1 is Ok,
    ensures
        fed(s, a + b).0 == fed(fed(s, a).0, b).0,
        fed(s, a + b).1 == Ok::<Seq<u8>, Seq<char>>(fed(s, a).1->Ok_0 + fed(fed(s, a).0, b).1->Ok_0),
{
    let s0 = with_buf(s, s.buf + a);
    assert(s.buf + (a + b) =~= s0.buf + b);
    drained_in_pieces(s0, b);
}

/// The bytes that wait for a decision.
pub open spec fn waiting(s: FilterV) -> Seq<u8> {
    match s.pending {
        Some(p) => all_held(p.held),
        None => Seq::empty(),
    }
}

pub open spec fn all_held(held: Seq<(Seq<u8>, bool)>) -> Seq<u8>
    decreases held.len(),
{
    if held.len() == 0 {
        Seq::empty()
    } else {
        all_held(held.drop_last()) + held.last().0
    }
}

/// Whether nothing was left out, and no block has been given another index or id.
pub open spec fn untouched(s: FilterV) -> bool {
    &&& s.stripped == 0
    &&& s.swallowing is None
    &&& s.stats.adopted_pairs == 0
    &&& s.active matches Some((upstream, output)) ==> upstream == output
    &&& s.pending matches Some(p) ==> p.held.len() > 0 && p.held[0].1
}

/// The index that the next block should start with.
pub open spec fn expected_index(s: FilterV) -> u64 {
    match s.pending {
        Some(p) => p.upstream_index.wrapping_add(1),
        None => s.next_output,
    }
}

/// Whether a frame keeps to the protocol: a block starts under the index that is due, and the frames
/// that follow are the block's own while it waits for a decision.
pub open spec fn in_order(s: FilterV, frame: Seq<u8>) -> bool {
    match json_parse(frame_event(frame).1) {
        Some(obj) => {
            let kind = obj.text_at("type"@);
            &&& kind == Some("content_block_start"@) ==> obj.unsigned_at("index"@) == Some(expected_index(s))
            &&& (kind == Some("content_block_delta"@) || kind == Some("content_block_stop"@)) && s.pending is Some
                ==> obj.unsigned_at("index"@) == Some(s.pending.unwrap().upstream_index)
        },
        None => true,
    }
}

proof fn flush_keeps_bytes(s: FilterV, upstream: u64, held: Seq<(Seq<u8>, bool)>)
    requires
        s.stripped == 0,
        s.active matches Some((u, o)) ==> u == o,
    ensures
        ({
            let f = flush_held(s, upstream, held, None);
            &&& f.out == all_held(held)
            &&& f.s.stripped == 0
            &&& f.s.swallowing == s.swallowing
            &&& f.s.stats == s.stats
            &&& f.s.pending == s.pending
            &&& f.s.active matches Some((u, o)) ==> u == o
            &&& f.started ==> f.s.next_output == upstream.wrapping_add(1)
            &&& !f.started ==> f.s == s
            &&& held.len() > 0 && held[0].1 ==> f.started
        }),
    decreases held.len(),
{
    if held.len() > 0 {
        flush_keeps_bytes(s, upstream, held.drop_last());
        if held.len() == 1 {
            assert(held.last() == held[0]);
        } else {
            assert(held.drop_last()[0] == held[0]);
        }
    }
}

/// What an untouched filter releases is what waited.
pub proof fn released_bytes_waited(s: FilterV)
    requires
        untouched(s),
    ensures
        flushed(s, None).1 == waiting(s),
        untouched(flushed(s, None).0),
        flushed(s, None).0.pending is None,
        flushed(s, None).0.next_output == expected_index(s),
        flushed(s, None).0.stats == s.stats,
{
    if let Some(p) = s.pending {
        flush_keeps_bytes(FilterV { pending: None, ..s }, p.upstream_index, p.held);
    }
}

proof fn all_held_push(held: Seq<(Seq<u8>, bool)>, one: (Seq<u8>, bool))
    ensures
        all_held(held.push(one)) == all_held(held) + one.0,
{
    assert(held.push(one).drop_last() =~= held);
}

/// A stream in which no rule applies passes byte for byte: as long as nothing is left out and no id
/// is given, what waits after a frame and what went out for it are together what waited before and
/// the frame itself.
#[verifier::rlimit(60)]
pub proof fn untouched_frames_keep_their_bytes(s: FilterV, frame: Seq<u8>, sep: Seq<u8>)
    requires
        untouched(s),
        in_order(s, frame),
        on_frame(s, frame, sep).1 is Ok,
        untouched(on_frame(s, frame, sep).0),
    ensures
        on_frame(s, frame, sep).1->Ok_0 + waiting(on_frame(s, frame, sep).0) == waiting(s) + (frame + sep),
{
    let (event, data) = frame_event(frame);
    let s1 = on_frame(s, frame, sep).0;
    let out = on_frame(s, frame, sep).1->Ok_0;
    let all = waiting(s) + (frame + sep);
    released_bytes_waited(s);
    other_keeps_bytes(s, frame, sep);
    match json_parse(data) {
        None => {},
        Some(obj) => {
            let kind = obj.text_at("type"@);
            if kind == Some("content_block_start"@) {
                start_keeps_bytes(s, event, obj, frame, sep);
            } else if kind == Some("content_block_delta"@) {
                delta_keeps_bytes(s, event, obj, frame, sep);
            } else if kind == Some("content_block_stop"@) {
                stop_keeps_bytes(s, event, obj, frame, sep);
            } else if kind == Some("message_delta"@) || kind == Some("message_stop"@) {
                assert((waiting(s) + (frame + sep)) + Seq::<u8>::empty() =~= all);
            } else {
            }
        },
    }
}

proof fn hold_keeps_bytes(s: FilterV, frame: Seq<u8>, sep: Seq<u8>, belongs: bool)
    requires
        s.pending is Some,
    ensures
        ({
            let (s1, fits) = held_frame(s, frame, sep, belongs);
            &&& fits ==> waiting(s1) == waiting(s) + (frame + sep)
            &&& !fits ==> waiting(s1) == waiting(s)
            &&& s1.pending is Some
        }),
{
    let p = s.pending.unwrap();
    all_held_push(p.held, (frame + sep, belongs));
}

proof fn other_keeps_bytes(s: FilterV, frame: Seq<u8>, sep: Seq<u8>)
    requires
        untouched(s),
    ensures
        on_other(s, frame, sep).1 + waiting(on_other(s, frame, sep).0) == waiting(s) + (frame + sep),
{
    let (s1, out) = on_other(s, frame, sep);
    if s.pending is Some {
        hold_keeps_bytes(s, frame, sep, false);
        let (h, fits) = held_frame(s, frame, sep, false);
        if fits {
            assert(out + waiting(s1) =~= waiting(s) + (frame + sep));
        } else {
            released_bytes_waited(h);
            assert(out + waiting(s1) =~= waiting(s) + (frame + sep));
        }
    } else {
        assert(out + waiting(s1) =~= waiting(s) + (frame + sep));
    }
}

proof fn decided_keeps_bytes(s: FilterV)
    requires
        untouched(s),
        untouched(text_decided(s).0),
    ensures
        text_decided(s).1 + waiting(text_decided(s).0) == waiting(s),
{
    released_bytes_waited(s);
    let (s1, out) = text_decided(s);
    assert(out + waiting(s1) =~= waiting(s));
}

proof fn delta_keeps_bytes(s: FilterV, event: Option<Seq<char>>, obj: JsonV, frame: Seq<u8>, sep: Seq<u8>)
    requires
        untouched(s),
        on_block_delta(s, event, obj, frame, sep).1 is Ok,
        untouched(on_block_delta(s, event, obj, frame, sep).0),
        s.pending is Some ==> obj.unsigned_at("index"@) == Some(s.pending.unwrap().upstream_index),
    ensures
        ({
            let r = on_block_delta(s, event, obj, frame, sep);
            r.1->Ok_0 + waiting(r.0) == waiting(s) + (frame + sep)
        }),
{
    let r = on_block_delta(s, event, obj, frame, sep);
    let index = obj.unsigned_at("index"@).unwrap();
    if s.pending is Some && s.pending.unwrap().upstream_index == index {
        let p = s.pending.unwrap();
        let p1 = match p.kind {
            PendingKindV::Text(accum) => PendingV {
                kind: PendingKindV::Text(accum + crate::kimi_search_noise::delta_text(obj)),
                ..p
            },
            _ => p,
        };
        let s0 = FilterV { pending: Some(p1), ..s };
        hold_keeps_bytes(s0, frame, sep, true);
        let (h, fits) = held_frame(s0, frame, sep, true);
        assert(h.pending.unwrap().held[0] == p.held[0]);
        decided_keeps_bytes(h);
        assert(r.1->Ok_0 + waiting(r.0) =~= waiting(s) + (frame + sep));
    } else {
        assert(r.1->Ok_0 + waiting(r.0) =~= waiting(s) + (frame + sep));
    }
}

proof fn stop_keeps_bytes(s: FilterV, event: Option<Seq<char>>, obj: JsonV, frame: Seq<u8>, sep: Seq<u8>)
    requires
        untouched(s),
        on_block_stop(s, event, obj, frame, sep).1 is Ok,
        untouched(on_block_stop(s, event, obj, frame, sep).0),
        s.pending is Some ==> obj.unsigned_at("index"@) == Some(s.pending.unwrap().upstream_index),
    ensures
        ({
            let r = on_block_stop(s, event, obj, frame, sep);
            r.1->Ok_0 + waiting(r.0) == waiting(s) + (frame + sep)
        }),
{
    let r = on_block_stop(s, event, obj, frame, sep);
    let index = obj.unsigned_at("index"@).unwrap();
    released_bytes_waited(s);
    if s.pending is Some {
        let p = s.pending.unwrap();
        match p.kind {
            PendingKindV::Text(_) => {
                assert(r.1->Ok_0 + waiting(r.0) =~= waiting(s) + (frame + sep));
            },
            PendingKindV::ServerTool(id, _) => {
                let p1 = PendingV { kind: PendingKindV::ServerTool(id, true), ..p };
                let s0 = FilterV { pending: Some(p1), ..s };
                hold_keeps_bytes(s0, frame, sep, true);
                assert(r.1->Ok_0 + waiting(r.0) =~= waiting(s) + (frame + sep));
            },
        }
    } else {
        assert(r.1->Ok_0 + waiting(r.0) =~= waiting(s) + (frame + sep));
    }
}

proof fn started_keeps_bytes(s: FilterV, index: u64, event: Option<Seq<char>>, obj: JsonV, frame: Seq<u8>, sep: Seq<u8>)
    requires
        untouched(s),
        s.pending is None,
        s.next_output == index,
        block_started(s, index, event, obj, frame, sep).1 is Ok,
        untouched(block_started(s, index, event, obj, frame, sep).0),
    ensures
        ({
            let r = block_started(s, index, event, obj, frame, sep);
            r.1->Ok_0 + waiting(r.0) == frame + sep
        }),
{
    let r = block_started(s, index, event, obj, frame, sep);
    let kind = crate::kimi_search_noise::block_text_at(obj, "type"@);
    if kind == Some("text"@) {
        let accum = match crate::kimi_search_noise::block_text_at(obj, "text"@) {
            Some(t) => t,
            None => ""@,
        };
        let fresh = PendingV { upstream_index: index, kind: PendingKindV::Text(accum), held: Seq::empty(), held_bytes: 0 };
        let s0 = FilterV { pending: Some(fresh), ..s };
        hold_keeps_bytes(s0, frame, sep, true);
        let (h, fits) = held_frame(s0, frame, sep, true);
        assert(waiting(s0) =~= Seq::<u8>::empty());
        decided_keeps_bytes(h);
        assert(r.1->Ok_0 + waiting(r.0) =~= frame + sep);
    } else if kind == Some("server_tool_use"@) && crate::kimi_search_noise::block_text_at(obj, "name"@) == Some(
        "web_search"@,
    ) {
        let id = crate::kimi_search_noise::non_empty(crate::kimi_search_noise::block_text_at(obj, "id"@));
        let fresh = PendingV {
            upstream_index: index,
            kind: PendingKindV::ServerTool(id, false),
            held: Seq::empty(),
            held_bytes: 0,
        };
        let s0 = FilterV { pending: Some(fresh), ..s };
        hold_keeps_bytes(s0, frame, sep, true);
        assert(waiting(s0) =~= Seq::<u8>::empty());
        assert(r.1->Ok_0 + waiting(r.0) =~= frame + sep);
    } else {
        assert(r.1->Ok_0 + waiting(r.0) =~= frame + sep);
    }
}

proof fn released_keeps_bytes(s: FilterV, index: u64, event: Option<Seq<char>>, obj: JsonV, frame: Seq<u8>, sep: Seq<u8>)
    requires
        untouched(s),
        expected_index(s) == index,
        after(flushed(s, None).1, block_started(flushed(s, None).0, index, event, obj, frame, sep)).1 is Ok,
        untouched(block_started(flushed(s, None).0, index, event, obj, frame, sep).0),
    ensures
        ({
            let r = after(flushed(s, None).1, block_started(flushed(s, None).0, index, event, obj, frame, sep));
            r.1->Ok_0 + waiting(r.0) == waiting(s) + (frame + sep)
        }),
{
    released_bytes_waited(s);
    let released = flushed(s, None);
    started_keeps_bytes(released.0, index, event, obj, frame, sep);
    let started = block_started(released.0, index, event, obj, frame, sep);
    let r = after(released.1, started);
    assert(r.1->Ok_0 + waiting(r.0) =~= waiting(s) + (started.1->Ok_0 + waiting(started.0)));
}

proof fn start_keeps_bytes(s: FilterV, event: Option<Seq<char>>, obj: JsonV, frame: Seq<u8>, sep: Seq<u8>)
    requires
        untouched(s),
        obj.unsigned_at("index"@) == Some(expected_index(s)),
        on_block_start(s, event, obj, frame, sep).1 is Ok,
        untouched(on_block_start(s, event, obj, frame, sep).0),
    ensures
        ({
            let r = on_block_start(s, event, obj, frame, sep);
            r.1->Ok_0 + waiting(r.0) == waiting(s) + (frame + sep)
        }),
{
    let index = expected_index(s);
    let r = on_block_start(s, event, obj, frame, sep);
    match s.pending {
        None => {
            started_keeps_bytes(s, index, event, obj, frame, sep);
            assert(waiting(s) + (frame + sep) =~= frame + sep);
        },
        Some(p) => {
            if let PendingKindV::ServerTool(use_id, true) = p.kind {
                assert(r == after_search_call(s, p, use_id, index, event, obj, frame, sep));
                released_bytes_waited(s);
                let key = crate::kimi_search_noise::non_empty(
                    crate::kimi_search_noise::block_text_at(obj, "tool_use_id"@),
                );
                let is_result = crate::kimi_search_noise::block_text_at(obj, "type"@) == Some("web_search_tool_result"@);
                if !is_result || (use_id == key && key is Some) {
                    released_keeps_bytes(s, index, event, obj, frame, sep);
                } else if use_id is None && key is None {
                    let s1 = FilterV {
                        stats: crate::kimi_search_noise::StripStats {
                            unkeyed_pairs: s.stats.unkeyed_pairs.saturating_add(1),
                            ..s.stats
                        },
                        ..s
                    };
                    if !crate::kimi_search_noise::block_content_empty(obj) {
                        released_keeps_bytes(s1, index, event, obj, frame, sep);
                    }
                } else if key is None {
                    assert(r.0.stats.adopted_pairs == 1usize.saturating_add(0));
                } else {
                    adopting_counts(s, p, use_id, index, event, obj, frame, sep);
                }
            }
        },
    }
}

proof fn started_keeps_count(s: FilterV, index: u64, event: Option<Seq<char>>, obj: JsonV, frame: Seq<u8>, sep: Seq<u8>)
    ensures
        block_started(s, index, event, obj, frame, sep).0.stats.adopted_pairs == s.stats.adopted_pairs,
{
    let accum = match crate::kimi_search_noise::block_text_at(obj, "text"@) {
        Some(t) => t,
        None => ""@,
    };
    let fresh = PendingV { upstream_index: index, kind: PendingKindV::Text(accum), held: Seq::empty(), held_bytes: 0 };
    let (h, fits) = held_frame(FilterV { pending: Some(fresh), ..s }, frame, sep, true);
    flushed_keeps_count(h, None);
}

proof fn flush_keeps_count(s: FilterV, upstream: u64, held: Seq<(Seq<u8>, bool)>, adopt: Option<Seq<char>>)
    ensures
        flush_held(s, upstream, held, adopt).s.stats == s.stats,
    decreases held.len(),
{
    if held.len() > 0 {
        flush_keeps_count(s, upstream, held.drop_last(), adopt);
    }
}

proof fn flushed_keeps_count(s: FilterV, adopt: Option<Seq<char>>)
    ensures
        flushed(s, adopt).0.stats == s.stats,
{
    if let Some(p) = s.pending {
        flush_keeps_count(FilterV { pending: None, ..s }, p.upstream_index, p.held, adopt);
    }
}

/// Giving a pair one id counts.
proof fn adopting_counts(
    s: FilterV,
    p: PendingV,
    use_id: Option<Seq<char>>,
    index: u64,
    event: Option<Seq<char>>,
    obj: JsonV,
    frame: Seq<u8>,
    sep: Seq<u8>,
)
    requires
        s.stats.adopted_pairs == 0,
        crate::kimi_search_noise::block_text_at(obj, "type"@) == Some("web_search_tool_result"@),
        crate::kimi_search_noise::non_empty(crate::kimi_search_noise::block_text_at(obj, "tool_use_id"@)) is Some,
        use_id != crate::kimi_search_noise::non_empty(crate::kimi_search_noise::block_text_at(obj, "tool_use_id"@)),
        after_search_call(s, p, use_id, index, event, obj, frame, sep).1 is Ok,
    ensures
        after_search_call(s, p, use_id, index, event, obj, frame, sep).0.stats.adopted_pairs == 1,
{
    let key = crate::kimi_search_noise::non_empty(crate::kimi_search_noise::block_text_at(obj, "tool_use_id"@));
    flushed_keeps_count(s, key);
    started_keeps_count(flushed(s, key).0, index, event, obj, frame, sep);
}

} // verus!
