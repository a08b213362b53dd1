//! A stream in which no rule applies passes byte for byte, from its first frame to its end.
use crate::json::JsonV;
use crate::json_model::json_parse;
use crate::kimi_search_noise::{
    after_search_call, block_content_empty, block_started, block_text_at, delta_text, drained, fed, finished, flush_held, flushed,
    held_frame, new_filter, non_empty, on_frame, on_other, only_space, text_decided, FilterV, PendingKindV, PendingV, StripStats,
    NOISE_PREFIX,
};
use crate::kimi_search_noise_counts::flushed_keeps_state;
use crate::kimi_search_noise_laws::{
    expected_index, flushed_ignores_buf, frame_end_stays, in_order, released_bytes_waited, untouched,
    untouched_frames_keep_their_bytes, waiting,
};
use crate::sse::{frame_end, frame_event};
use vstd::prelude::*;

verus! {

/// How far a stream has come: the index that is due, the block that is open, its text so far where it is
/// text, and the id of the search call, where the last block to start is one.
#[verifier::ext_equal]
pub struct OrderV {
    pub next: u64,
    pub open: Option<u64>,
    pub text: Option<Seq<char>>,
    pub call: Option<Option<Seq<char>>>,
}

/// Whether a block starts a search.
pub open spec fn starts_search(obj: JsonV) -> bool {
    block_text_at(obj, "type"@) == Some("server_tool_use"@) && block_text_at(obj, "name"@) == Some("web_search"@)
}

/// Whether the halves of a search may stay as they are: they have one id, or none and something was found.
pub open spec fn is_fair_result(use_id: Option<Seq<char>>, obj: JsonV) -> bool {
    let key = non_empty(block_text_at(obj, "tool_use_id"@));
    use_id == key && (key is None ==> !block_content_empty(obj))
}

/// The text that a block of text starts with.
pub open spec fn opening(obj: JsonV) -> Option<Seq<char>> {
    if block_text_at(obj, "type"@) == Some("text"@) {
        match block_text_at(obj, "text"@) {
            Some(text) => Some(text),
            None => Some(""@),
        }
    } else {
        None
    }
}

/// Whether a text does not repeat the query.
pub open spec fn is_telling(text: Option<Seq<char>>) -> bool {
    text matches Some(t) ==> !NOISE_PREFIX@.is_prefix_of(t)
}

/// What the start of a block leads to.
pub open spec fn turn_at_start(o: OrderV, obj: JsonV) -> Option<OrderV> {
    let fair = match o.call {
        Some(use_id) => block_text_at(obj, "type"@) == Some("web_search_tool_result"@) ==> is_fair_result(use_id, obj),
        None => true,
    };
    if o.open is None && obj.unsigned_at("index"@) == Some(o.next) && fair && is_telling(opening(obj)) {
        Some(
            OrderV {
                next: o.next.wrapping_add(1),
                open: Some(o.next),
                text: opening(obj),
                call: if starts_search(obj) {
                    Some(non_empty(block_text_at(obj, "id"@)))
                } else {
                    None
                },
            },
        )
    } else {
        None
    }
}

/// What more of a block leads to.
pub open spec fn turn_at_delta(o: OrderV, obj: JsonV) -> Option<OrderV> {
    let text = match o.text {
        Some(t) => Some(t + delta_text(obj)),
        None => None,
    };
    if o.open is Some && obj.unsigned_at("index"@) == o.open && is_telling(text) {
        Some(OrderV { text, ..o })
    } else {
        None
    }
}

/// What a frame leads to that keeps to the protocol and that no rule applies to: blocks start one after the
/// other under the index that is due, a block's frames stand between its start and its stop, no text
/// repeats the query, and the halves of every search may stay as they are.
pub open spec fn turn(o: OrderV, frame: Seq<u8>) -> Option<OrderV> {
    match json_parse(frame_event(frame).1) {
        None => Some(o),
        Some(obj) => {
            let kind = obj.text_at("type"@);
            if kind == Some("content_block_start"@) {
                turn_at_start(o, obj)
            } else if kind == Some("content_block_delta"@) {
                turn_at_delta(o, obj)
            } else if kind == Some("content_block_stop"@) {
                if o.open is Some && obj.unsigned_at("index"@) == o.open {
                    Some(OrderV { open: None, text: None, ..o })
                } else {
                    None
                }
            } else {
                Some(o)
            }
        },
    }
}

/// Whether all the frames of a stream keep to the protocol and no rule applies to any of them.
pub open spec fn no_rule_applies(o: OrderV, bytes: Seq<u8>) -> bool
    decreases bytes.len(),
{
    match frame_end(bytes) {
        None => true,
        Some((at, sep)) => if at < 0 || sep <= 0 || at + sep > bytes.len() {
            true
        } else {
            match turn(o, bytes.take(at)) {
                None => false,
                Some(o1) => no_rule_applies(o1, bytes.skip(at + sep)),
            }
        },
    }
}

/// Where a stream starts.
pub open spec fn first_order() -> OrderV {
    OrderV { next: 0, open: None, text: None, call: None }
}

/// Whether a filter has come as far as the stream.
pub open spec fn in_step(s: FilterV, o: OrderV) -> bool {
    &&& expected_index(s) == o.next
    &&& s.pending matches Some(p) ==> match p.kind {
        PendingKindV::Text(text) => o.open == Some(p.upstream_index) && o.text == Some(text),
        PendingKindV::ServerTool(id, closed) => o.call == Some(id) && o.open == if closed {
            None
        } else {
            Some(p.upstream_index)
        },
    }
}

/// Whether no block has been left out or is being left out, and no pair was given an id.
pub open spec fn calm(s: FilterV) -> bool {
    &&& s.swallowing is None
    &&& s.stats.noise_blocks == 0
    &&& s.stats.pair_blocks == 0
    &&& s.stats.adopted_pairs == 0
}

/// Whether a state goes on untouched, in step with the stream.
pub open spec fn goes_on(s: FilterV, o: OrderV) -> bool {
    &&& untouched(s)
    &&& calm(s)
    &&& in_step(s, o)
}

proof fn flush_goes_on(s: FilterV, upstream: u64, held: Seq<(Seq<u8>, bool)>)
    requires
        s.stripped == 0,
        s.active matches Some((u, v)) ==> u == v,
    ensures
        ({
            let f = flush_held(s, upstream, held, None);
            &&& f.s.active matches Some((u, v)) ==> u == v
            &&& f.s.pending == s.pending
            &&& f.s.stripped == 0
            &&& f.started ==> f.s.next_output == upstream.wrapping_add(1)
            &&& held.len() > 0 && held[0].1 ==> f.started
        }),
    decreases held.len(),
{
    if held.len() > 0 {
        flush_goes_on(s, upstream, held.drop_last());
        if held.len() == 1 {
            assert(held.last() == held[0]);
        } else {
            assert(held.drop_last()[0] == held[0]);
        }
    }
}

proof fn flushed_goes_on(s: FilterV)
    requires
        untouched(s),
    ensures
        untouched(flushed(s, None).0),
        calm(s) ==> calm(flushed(s, None).0),
        flushed(s, None).0.pending is None,
        flushed(s, None).0.next_output == expected_index(s),
{
    flushed_keeps_state(s, None);
    if let Some(p) = s.pending {
        flush_goes_on(FilterV { pending: None, ..s }, p.upstream_index, p.held);
    }
}

proof fn decided_goes_on(s: FilterV, o: OrderV)
    requires
        goes_on(s, o),
        is_telling(o.text),
    ensures
        goes_on(text_decided(s).0, o),
{
    flushed_goes_on(s);
}

proof fn started_goes_on(s: FilterV, o: OrderV, event: Option<Seq<char>>, obj: JsonV, frame: Seq<u8>, sep: Seq<u8>)
    requires
        untouched(s),
        calm(s),
        s.pending is None,
        s.next_output == o.next,
        turn_at_start(o, obj) is Some,
        block_started(s, o.next, event, obj, frame, sep).1 is Ok,
    ensures
        goes_on(block_started(s, o.next, event, obj, frame, sep).0, turn_at_start(o, obj).unwrap()),
{
    let o1 = turn_at_start(o, obj).unwrap();
    let kind = block_text_at(obj, "type"@);
    if kind == Some("text"@) {
        let accum = match block_text_at(obj, "text"@) {
            Some(t) => t,
            None => ""@,
        };
        let fresh = PendingV { upstream_index: o.next, kind: PendingKindV::Text(accum), held: Seq::empty(), held_bytes: 0 };
        let (h, fits) = held_frame(FilterV { pending: Some(fresh), ..s }, frame, sep, true);
        assert(h.pending.unwrap().held[0].1);
        decided_goes_on(h, o1);
    }
}

proof fn search_call_goes_on(
    s: FilterV,
    o: OrderV,
    p: PendingV,
    use_id: Option<Seq<char>>,
    event: Option<Seq<char>>,
    obj: JsonV,
    frame: Seq<u8>,
    sep: Seq<u8>,
)
    requires
        goes_on(s, o),
        s.pending == Some(p),
        p.kind == PendingKindV::ServerTool(use_id, true),
        turn_at_start(o, obj) is Some,
        after_search_call(s, p, use_id, o.next, event, obj, frame, sep).1 is Ok,
    ensures
        goes_on(after_search_call(s, p, use_id, o.next, event, obj, frame, sep).0, turn_at_start(o, obj).unwrap()),
{
    let released = flushed(s, None).0;
    flushed_goes_on(s);
    let key = non_empty(block_text_at(obj, "tool_use_id"@));
    if block_text_at(obj, "type"@) != Some("web_search_tool_result"@) || (key is Some && use_id == key) {
        started_goes_on(released, o, event, obj, frame, sep);
    } else if key is None && use_id is None {
        let s1 = FilterV {
            stats: StripStats { unkeyed_pairs: s.stats.unkeyed_pairs.saturating_add(1), ..s.stats },
            ..s
        };
        if !block_content_empty(obj) {
            flushed_goes_on(s1);
            started_goes_on(flushed(s1, None).0, o, event, obj, frame, sep);
        }
    }
}

proof fn kinds_differ()
    ensures
        "content_block_start"@ != "content_block_delta"@,
        "content_block_start"@ != "content_block_stop"@,
        "content_block_delta"@ != "content_block_stop"@,
{
    reveal_strlit("content_block_start");
    reveal_strlit("content_block_delta");
    reveal_strlit("content_block_stop");
    assert("content_block_start"@[14] == 's' && "content_block_delta"@[14] == 'd');
    assert("content_block_start"@.len() == 19 && "content_block_delta"@.len() == 19);
    assert("content_block_stop"@.len() == 18);
}

proof fn frame_goes_on(s: FilterV, o: OrderV, frame: Seq<u8>, sep: Seq<u8>)
    requires
        goes_on(s, o),
        turn(o, frame) is Some,
        on_frame(s, frame, sep).1 is Ok,
    ensures
        in_order(s, frame),
        goes_on(on_frame(s, frame, sep).0, turn(o, frame).unwrap()),
{
    let (event, data) = frame_event(frame);
    kinds_differ();
    flushed_goes_on(s);
    if s.pending is Some {
        let (h, fits) = held_frame(s, frame, sep, false);
        assert(h.pending.unwrap().held[0] == s.pending.unwrap().held[0]);
        flushed_goes_on(h);
    }
    assert(goes_on(on_other(s, frame, sep).0, o));
    if let Some(obj) = json_parse(data) {
        let kind = obj.text_at("type"@);
        if kind == Some("content_block_start"@) {
            if let Some(p) = s.pending {
                if let PendingKindV::ServerTool(use_id, true) = p.kind {
                    search_call_goes_on(s, o, p, use_id, event, obj, frame, sep);
                }
            } else {
                started_goes_on(s, o, event, obj, frame, sep);
            }
        } else if kind == Some("content_block_delta"@) {
            if let Some(p) = s.pending {
                let p1 = match p.kind {
                    PendingKindV::Text(accum) => PendingV { kind: PendingKindV::Text(accum + delta_text(obj)), ..p },
                    _ => p,
                };
                let (h, fits) = held_frame(FilterV { pending: Some(p1), ..s }, frame, sep, true);
                assert(h.pending.unwrap().held[0] == p.held[0]);
                decided_goes_on(h, turn(o, frame).unwrap());
            }
        } else if kind == Some("content_block_stop"@) {
            if let Some(p) = s.pending {
                if let PendingKindV::ServerTool(id, _) = p.kind {
                    let p1 = PendingV { kind: PendingKindV::ServerTool(id, true), ..p };
                    let (h, fits) = held_frame(FilterV { pending: Some(p1), ..s }, frame, sep, true);
                    assert(h.pending.unwrap().held[0] == p.held[0]);
                }
            }
        }
    }
}

/// Bytes that went out, that still wait and that were not looked at yet, put together in order.
proof fn bytes_come_together(
    held: Seq<u8>,
    buf: Seq<u8>,
    at: int,
    end: int,
    out: Seq<u8>,
    waits: Seq<u8>,
    rest: Seq<u8>,
    tail: Seq<u8>,
)
    requires
        0 <= at <= end <= buf.len(),
        out + waits == held + (buf.take(at) + buf.subrange(at, end)),
        rest + tail == waits + buf.skip(end),
    ensures
        (out + rest) + tail == held + buf,
{
    assert((out + rest) + tail =~= out + (rest + tail));
    assert(out + (waits + buf.skip(end)) =~= (out + waits) + buf.skip(end));
    assert(buf.take(at) + buf.subrange(at, end) =~= buf.take(end));
    assert((held + buf.take(end)) + buf.skip(end) =~= held + buf);
}

proof fn drained_keeps_bytes(s: FilterV, o: OrderV)
    requires
        goes_on(s, o),
        no_rule_applies(o, s.buf),
        drained(s).1 is Ok,
    ensures
        untouched(drained(s).0),
        calm(drained(s).0),
        drained(s).1->Ok_0 + (waiting(drained(s).0) + drained(s).0.buf) == waiting(s) + s.buf,
    decreases s.buf.len(),
{
    frame_end_stays(s.buf, Seq::empty());
    match frame_end(s.buf) {
        None => {
            assert(Seq::<u8>::empty() + (waiting(s) + s.buf) =~= waiting(s) + s.buf);
        },
        Some((at, sep)) => {
            let frame = s.buf.take(at);
            let mark = s.buf.subrange(at, at + sep);
            let (s1, r) = on_frame(s, frame, mark);
            let s2 = FilterV { buf: s.buf.skip(at + sep), ..s1 };
            frame_goes_on(s, o, frame, mark);
            untouched_frames_keep_their_bytes(s, frame, mark);
            let o1 = turn(o, frame).unwrap();
            assert(goes_on(s2, o1));
            drained_keeps_bytes(s2, o1);
            let d = drained(s2);
            let tail = waiting(d.0) + d.0.buf;
            bytes_come_together(waiting(s), s.buf, at, at + sep, r->Ok_0, waiting(s1), d.1->Ok_0, tail);
        },
    }
}

/// A stream that keeps to the protocol and in which no rule applies goes out byte for byte: what the
/// feeding and the end give is the stream itself, but for white space behind its last frame. Nothing is
/// counted as left out or as given an id.
pub proof fn untouched_streams_keep_their_bytes(stream: Seq<u8>)
    requires
        no_rule_applies(first_order(), stream),
        fed(new_filter(), stream).1 is Ok,
        finished(fed(new_filter(), stream).0).1 is Ok,
    ensures
        ({
            let s = fed(new_filter(), stream).0;
            let out = fed(new_filter(), stream).1->Ok_0 + finished(s).1->Ok_0;
            &&& out + s.buf == stream
            &&& only_space(s.buf)
            &&& finished(s).0.stats.total_blocks_spec() == 0
            &&& finished(s).0.stats.adopted_pairs == 0
        }),
{
    let s0 = FilterV { buf: new_filter().buf + stream, ..new_filter() };
    assert(s0.buf =~= stream);
    drained_keeps_bytes(s0, first_order());
    let s = drained(s0).0;
    flushed_keeps_state(FilterV { buf: Seq::empty(), ..s }, None);
    released_bytes_waited(s);
    let out = drained(s0).1->Ok_0;
    assert(waiting(s0) + stream =~= stream);
    assert(flushed(FilterV { buf: Seq::empty(), ..s }, None).1 == flushed(s, None).1) by {
        flushed_ignores_buf(s, Seq::empty(), None);
    }
    assert((out + waiting(s)) + s.buf =~= out + (waiting(s) + s.buf));
}

} // verus!
