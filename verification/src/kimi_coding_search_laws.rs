//! What holds of the web search bridge as a whole.
use crate::kimi_coding_search::{
    bridge_drained, bridge_fed, bridge_frame, new_bridge, response_queries, search_done, step_after, usable_query, BridgeV,
    FrameOut, StepV, MAX_QUERIES, MAX_QUERY_BYTES,
};
use crate::json::JsonV;
use crate::json_model::json_parse;
use crate::kimi_search_noise_laws::frame_end_stays;
use crate::sse::frame_end;
use crate::text::{trimmed, trimmed_has_plain_ends};
use vstd::prelude::*;
use vstd::utf8::{encode_scalar, encode_utf8};

verus! {

pub open spec fn bridge_with_buf(s: BridgeV, buf: Seq<u8>) -> BridgeV {
    BridgeV { buf, ..s }
}

proof fn frames_ignore_the_buffer(s: BridgeV, buf: Seq<u8>, frame: Seq<u8>, sep: Seq<u8>)
    ensures
        bridge_frame(bridge_with_buf(s, buf), frame, sep) == (
            bridge_with_buf(bridge_frame(s, frame, sep).0, buf),
            bridge_frame(s, frame, sep).1,
        ),
{
}

proof fn drained_in_pieces(s: BridgeV, b: Seq<u8>)
    requires
        bridge_drained(s).1 is Ok,
    ensures
        ({
            let (s1, r) = bridge_drained(s);
            bridge_drained(bridge_with_buf(s, s.buf + b)) == step_after(
                r->Ok_0.out,
                bridge_drained(bridge_with_buf(s1, s1.buf + b)),
            )
        }),
    decreases s.buf.len(),
{
    let (s1, r) = bridge_drained(s);
    let later = bridge_drained(bridge_with_buf(s1, s1.buf + b));
    frame_end_stays(s.buf, b);
    if s.waiting || frame_end(s.buf) is None {
        nothing_first(later);
    } else {
        let (at, sep) = frame_end(s.buf).unwrap();
        let whole = s.buf + b;
        assert(whole.take(at) =~= s.buf.take(at));
        assert(whole.subrange(at, at + sep) =~= s.buf.subrange(at, at + sep));
        assert(whole.skip(at + sep) =~= s.buf.skip(at + sep) + b);
        let frame = s.buf.take(at);
        let end = s.buf.subrange(at, at + sep);
        frames_ignore_the_buffer(s, whole, frame, end);
        let (t, o) = bridge_frame(s, frame, end);
        let rest = bridge_with_buf(t, s.buf.skip(at + sep));
        match o {
            Ok(FrameOut::Bytes(out)) => {
                drained_in_pieces(rest, b);
                assert(bridge_with_buf(rest, rest.buf + b) =~= bridge_with_buf(t, whole.skip(at + sep)));
                let inner = bridge_drained(rest);
                if inner.1->Ok_0.search {
                    searches_wait(rest);
                    nothing_first(later);
                    nothing_first(bridge_drained(bridge_with_buf(inner.0, inner.0.buf + b)));
                } else {
                    one_after_the_other(out, inner.1->Ok_0.out, later);
                }
            },
            Ok(FrameOut::Search) => {
                nothing_first(later);
            },
            Err(_) => {},
        }
    }
}

/// Where a search is asked for, its outcome is awaited and nothing goes out.
proof fn searches_wait(s: BridgeV)
    ensures
        bridge_drained(s).1 matches Ok(step) ==> step.search ==> bridge_drained(s).0.waiting && step.out
            == Seq::<u8>::empty(),
    decreases s.buf.len(),
{
    if !s.waiting && frame_end(s.buf) is Some {
        let (at, sep) = frame_end(s.buf).unwrap();
        frame_end_stays(s.buf, Seq::empty());
        let (t, o) = bridge_frame(s, s.buf.take(at), s.buf.subrange(at, at + sep));
        if let Ok(FrameOut::Bytes(_)) = o {
            searches_wait(bridge_with_buf(t, s.buf.skip(at + sep)));
        }
    }
}

proof fn nothing_first(step: (BridgeV, Result<StepV, Seq<char>>))
    ensures
        step_after(Seq::empty(), step) == step,
{
    if let Ok(more) = step.1 {
        assert(Seq::<u8>::empty() + more.out =~= more.out);
        assert(Seq::<u8>::empty() + step.0.held =~= step.0.held);
    }
}

proof fn one_after_the_other(a: Seq<u8>, b: Seq<u8>, step: (BridgeV, Result<StepV, Seq<char>>))
    ensures
        step_after(a, step_after(b, step)) == step_after(a + b, step),
{
    if let Ok(more) = step.1 {
        assert(a + (b + more.out) =~= (a + b) + more.out);
        assert(a + (b + step.0.held) =~= (a + b) + step.0.held);
    }
}

/// It makes no difference how a stream is cut into pieces: what a further piece gives, after what
/// the first gave, is what both at once give; where a search is awaited, both at once hold what the
/// pieces gave before it.
pub proof fn bridged_pieces_make_no_difference(s: BridgeV, a: Seq<u8>, b: Seq<u8>)
    requires
        bridge_fed(s, a).1 is Ok,
    ensures
        bridge_fed(s, a + b) == step_after(bridge_fed(s, a).1->Ok_0.out, bridge_fed(bridge_fed(s, a).0, b)),
{
    let s0 = bridge_with_buf(s, s.buf + a);
    assert(s.buf + (a + b) =~= s0.buf + b);
    drained_in_pieces(s0, b);
}

/// What every state of the bridge keeps: the blocks that go out are numbered without a gap, so an
/// open block has the next number, and at most one block is open or taken out at a time; the queries
/// are distinct and few.
pub open spec fn bridge_holds(s: BridgeV) -> bool {
    &&& s.active matches Some((upstream, mapped)) ==> upstream == s.next_upstream && mapped == s.next_output
        && s.swallowed is None
    &&& s.next_output <= s.next_upstream || s.resolved
    &&& s.queries.len() <= MAX_QUERIES
    &&& forall|i: int, j: int| 0 <= i < j < s.queries.len() ==> s.queries[i] != s.queries[j]
    &&& s.swallowed is Some ==> s.queries.len() < MAX_QUERIES
    &&& forall|i: int| 0 <= i < s.queries.len() ==> is_query(#[trigger] s.queries[i])
    &&& s.waiting ==> s.resolved
}

/// Whether a text can be searched for: it has no white space at its ends, and some but not too many
/// bytes.
pub open spec fn is_query(query: Seq<char>) -> bool {
    trimmed(query) == query && 1 <= encode_utf8(query).len() <= MAX_QUERY_BYTES
}

proof fn usable_queries_are_queries(input: Option<JsonV>)
    ensures
        usable_query(input) matches Some(query) ==> is_query(query),
{
    if let Some(v) = input {
        if let Some(t) = v.text_at("query"@) {
            trimmed_has_plain_ends(t);
            let query = trimmed(t);
            if query.len() > 0 {
                assert(encode_utf8(query) == encode_scalar(query[0] as u32) + encode_utf8(query.drop_first()));
            }
        }
    }
}

/// A new bridge is in order.
pub proof fn new_bridges_hold()
    ensures
        bridge_holds(new_bridge()),
{
}

/// Every frame keeps the bridge in order.
pub proof fn frames_keep_the_bridge(s: BridgeV, frame: Seq<u8>, sep: Seq<u8>)
    requires
        bridge_holds(s),
    ensures
        bridge_frame(s, frame, sep).1 is Ok ==> bridge_holds(bridge_frame(s, frame, sep).0),
{
    let after = bridge_frame(s, frame, sep).0;
    if let Some(input) = s.swallowed {
        usable_queries_are_queries(json_parse(input));
    }
    assert forall|i: int, j: int| 0 <= i < j < after.queries.len() implies after.queries[i] != after.queries[j] by {
        if j < s.queries.len() {
            assert(s.queries[i] != s.queries[j]);
        } else {
            assert(s.queries.contains(s.queries[i]));
        }
    }
}

proof fn draining_keeps_the_bridge(s: BridgeV)
    requires
        bridge_holds(s),
    ensures
        bridge_drained(s).1 is Ok ==> bridge_holds(bridge_drained(s).0),
    decreases s.buf.len(),
{
    if !s.waiting && frame_end(s.buf) is Some {
        let (at, sep) = frame_end(s.buf).unwrap();
        frame_end_stays(s.buf, Seq::empty());
        frames_keep_the_bridge(s, s.buf.take(at), s.buf.subrange(at, at + sep));
        let (t, o) = bridge_frame(s, s.buf.take(at), s.buf.subrange(at, at + sep));
        if let Ok(FrameOut::Bytes(_)) = o {
            draining_keeps_the_bridge(bridge_with_buf(t, s.buf.skip(at + sep)));
        }
    }
}

/// Every piece of a stream that is taken keeps the bridge in order.
pub proof fn pieces_keep_the_bridge(s: BridgeV, chunk: Seq<u8>)
    requires
        bridge_holds(s),
    ensures
        bridge_fed(s, chunk).1 is Ok ==> bridge_holds(bridge_fed(s, chunk).0),
{
    draining_keeps_the_bridge(bridge_with_buf(s, s.buf + chunk));
}

/// The search is asked for once at most: from then on no piece of the stream asks again.
pub proof fn one_search_is_asked_for(s: BridgeV, chunk: Seq<u8>)
    requires
        s.resolved,
        !s.waiting,
    ensures
        bridge_fed(s, chunk).0.resolved,
        !bridge_fed(s, chunk).0.waiting,
        bridge_fed(s, chunk).1 matches Ok(step) ==> !step.search,
{
    resolved_bridges_ask_no_more(bridge_with_buf(s, s.buf + chunk));
}

proof fn resolved_bridges_ask_no_more(s: BridgeV)
    requires
        s.resolved,
        !s.waiting,
    ensures
        bridge_drained(s).0.resolved,
        !bridge_drained(s).0.waiting,
        bridge_drained(s).1 matches Ok(step) ==> !step.search,
    decreases s.buf.len(),
{
    if frame_end(s.buf) is Some {
        let (at, sep) = frame_end(s.buf).unwrap();
        frame_end_stays(s.buf, Seq::empty());
        let (t, o) = bridge_frame(s, s.buf.take(at), s.buf.subrange(at, at + sep));
        if let Ok(FrameOut::Bytes(_)) = o {
            resolved_bridges_ask_no_more(bridge_with_buf(t, s.buf.skip(at + sep)));
        }
    }
}

/// A search that was asked for is over when its outcome is handed over; where it failed, the frame that
/// asked for it is still there, to go out with what is fed next.
pub proof fn failed_searches_keep_the_ending(s: BridgeV, reason: Seq<char>)
    requires
        bridge_holds(s),
        s.waiting,
    ensures
        search_done(s, Err(reason)).1 == Err::<StepV, Seq<char>>(reason),
        search_done(s, Err(reason)).0.buf == s.buf,
        search_done(s, Err(reason)).0.resolved,
        !search_done(s, Err(reason)).0.waiting,
{
}

/// The queries of a response are few and distinct, as those of a stream are.
pub proof fn response_queries_are_few_and_distinct(blocks: Seq<JsonV>)
    ensures
        forall|i: int| 0 <= i < response_queries(blocks).len() ==> is_query(#[trigger] response_queries(blocks)[i]),
        response_queries(blocks).len() <= MAX_QUERIES,
        forall|i: int, j: int|
            0 <= i < j < response_queries(blocks).len() ==> response_queries(blocks)[i] != response_queries(blocks)[j],
    decreases blocks.len(),
{
    if blocks.len() > 0 {
        response_queries_are_few_and_distinct(blocks.drop_last());
        usable_queries_are_queries(blocks.last().get("input"@));
        let before = response_queries(blocks.drop_last());
        let after = response_queries(blocks);
        assert forall|i: int, j: int| 0 <= i < j < after.len() implies after[i] != after[j] by {
            if j < before.len() {
                assert(before[i] != before[j]);
            } else {
                assert(before.contains(before[i]));
            }
        }
    }
}

} // verus!
