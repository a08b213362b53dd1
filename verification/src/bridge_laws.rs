//! What holds of a stream while its searches are taken out and put in, and of thinking that goes with calls.
use crate::anthropic_compat_laws::keys_are_distinct;
use crate::deepseek_compat::{replayed_block, replayed_message, THINKING_PLACEHOLDER, REDACTED_THINKING_PLACEHOLDER};
use crate::deepseek_normal_laws::taking_out_keeps_the_rest;
use crate::json::JsonV;
use crate::json_model::{json_parse, key_index_is, typed_block, with_gives};
use crate::kimi_adapter_laws::asks_for_a_search;
use crate::kimi_coding_search::{
    block_frames, bridge_frame, response_queries, spliced, BridgeV, FrameOut, MAX_QUERIES, MAX_QUERY_BYTES,
};
use crate::kimi_coding_search_laws::bridge_holds;
use crate::sse::{frame_event, sse_bytes};
use crate::text::{is_blank, is_space, trimmed};
use crate::traffic_laws::holds_bytes;
use vstd::prelude::*;
use vstd::utf8::encode_utf8;

verus! {

/// Whether two values differ in their number alone, which is the one given.
pub open spec fn is_renumbered(after: JsonV, before: JsonV, index: u64) -> bool {
    after.unsigned_at("index"@) == Some(index) && forall|key: Seq<char>|
        key != "index"@ ==> #[trigger] after.get(key) == before.get(key)
}

/// Outside of a call of the query tool no frame is lost: it goes out as it came, or as what it said under the number that
/// is next, unless it starts such a call or is the one that the search waits for.
pub proof fn frames_go_out(s: BridgeV, frame: Seq<u8>, sep: Seq<u8>)
    requires
        bridge_holds(s),
        s.swallowed is None,
    ensures
        bridge_frame(s, frame, sep).1 matches Ok(FrameOut::Bytes(out)) ==> {
            ||| out == frame + sep
            ||| out.len() == 0 && (json_parse(frame_event(frame).1) matches Some(obj) && obj.text_at("type"@) == Some(
                "content_block_start"@,
            ) && (obj.get("content_block"@) matches Some(block) && asks_for_a_search(block)))
            ||| json_parse(frame_event(frame).1) matches Some(obj) && (out == sse_bytes(frame_event(frame).0, obj) || exists|
                after: JsonV,
            |
                #![trigger sse_bytes(frame_event(frame).0, after)]
                out == sse_bytes(frame_event(frame).0, after) && is_renumbered(after, obj, s.next_output))
        },
        bridge_frame(s, frame, sep).1 matches Ok(FrameOut::Search) ==> s.queries.len() > 0 && !s.resolved && (json_parse(
            frame_event(frame).1,
        ) matches Some(obj) && obj.text_at("type"@) == Some("message_delta"@)),
{
    if let Some(obj) = json_parse(frame_event(frame).1) {
        if obj is Object {
            let value = crate::kimi_coding_search::number(s.next_output);
            with_gives(obj, "index"@, value);
            let after = obj.with("index"@, value);
            assert(is_renumbered(after, obj, s.next_output));
            assert(sse_bytes(frame_event(frame).0, after) == sse_bytes(frame_event(frame).0, after));
        }
    }
}

/// The input of a call of the query tool is put together from its pieces, and the query that it comes to joins those before
/// it, which stay as they are.
pub proof fn queries_are_collected(s: BridgeV, frame: Seq<u8>, sep: Seq<u8>)
    requires
        s.swallowed is Some,
        frame_event(frame).0 is None,
        frame_event(frame).1.len() > 0,
    ensures
        json_parse(frame_event(frame).1) matches Some(obj) ==> {
            let (t, r) = bridge_frame(s, frame, sep);
            &&& obj.text_at("type"@) == Some("content_block_delta"@) ==> (obj.get("delta"@) matches Some(delta) ==> (
            delta.text_at("partial_json"@) matches Some(piece) ==> t.swallowed == Some(s.swallowed.unwrap() + piece)
                && t.queries == s.queries && (r is Ok ==> r == Ok::<FrameOut, Seq<char>>(FrameOut::Bytes(Seq::empty())))))
            &&& obj.text_at("type"@) == Some("content_block_stop"@) && r is Ok ==> {
                &&& t.swallowed is None
                &&& s.queries.is_prefix_of(t.queries)
                &&& json_parse(s.swallowed.unwrap()) matches Some(input) && (input.text_at("query"@) matches Some(query)
                    && t.queries.contains(trimmed(query)) && trimmed(query).len() > 0)
                &&& t.queries.len() <= s.queries.len() + 1
            }
        },
{
    reveal_strlit("content_block_delta");
    reveal_strlit("content_block_stop");
    assert("content_block_delta"@.len() == 19 && "content_block_stop"@.len() == 18);
    if let Some(obj) = json_parse(frame_event(frame).1) {
        let (t, r) = bridge_frame(s, frame, sep);
        if obj.text_at("type"@) == Some("content_block_stop"@) && r is Ok {
            let input = json_parse(s.swallowed.unwrap()).unwrap();
            let query = trimmed(input.text_at("query"@).unwrap());
            if s.queries.contains(query) {
                assert(s.queries.take(s.queries.len() as int) =~= s.queries);
            } else {
                assert(t.queries.take(s.queries.len() as int) =~= s.queries);
                assert(t.queries[t.queries.len() - 1] == query);
            }
        }
    }
}

/// The blocks of a search go out one after another, each whole and under the next number.
pub proof fn found_blocks_go_out(s: BridgeV, blocks: Seq<JsonV>, i: int)
    requires
        0 <= i < blocks.len(),
    ensures
        spliced(s, blocks) matches (t, Ok(out)) ==> t.next_output == s.next_output + blocks.len() && holds_bytes(
            out,
            block_frames((s.next_output + i) as u64, blocks[i]),
        ),
    decreases blocks.len(),
{
    let before = blocks.drop_last();
    if let (t, Ok(out)) = spliced(s, blocks) {
        let (u, r) = spliced(s, before);
        let start = r->Ok_0;
        if before.len() > 0 {
            found_blocks_go_out(s, before, if i < before.len() { i } else { 0 });
        }
        let last = block_frames(u.next_output, blocks.last());
        assert(out == start + last);
        if i < before.len() {
            let part = block_frames((s.next_output + i) as u64, blocks[i]);
            let at = choose|at: int|
                0 <= at && at + part.len() <= start.len() && #[trigger] start.subrange(at, at + part.len()) == part;
            assert(out.subrange(at, at + part.len()) =~= start.subrange(at, at + part.len()));
        } else {
            let at = start.len() as int;
            assert(out.subrange(at, at + last.len()) =~= last);
        }
    }
}

/// Whether a block is thinking that says something.
pub open spec fn thinks_something(block: JsonV) -> bool {
    block.text_at("type"@) == Some("thinking"@) && (block.text_at("thinking"@) matches Some(text) && !is_blank(text))
}

proof fn placeholders_say_something()
    ensures
        thinks_something(typed_block("thinking"@, "thinking"@, THINKING_PLACEHOLDER@)),
        thinks_something(typed_block("thinking"@, "thinking"@, REDACTED_THINKING_PLACEHOLDER@)),
        !is_blank(THINKING_PLACEHOLDER@),
{
    reveal_strlit("type");
    reveal_strlit("thinking");
    assert("type"@.len() == 4 && "thinking"@.len() == 8);
    let a = typed_block("thinking"@, "thinking"@, THINKING_PLACEHOLDER@)->Object_0;
    let b = typed_block("thinking"@, "thinking"@, REDACTED_THINKING_PLACEHOLDER@)->Object_0;
    assert(a.len() == 2 && a[0].0 == "type"@ && a[1].0 == "thinking"@);
    assert(b.len() == 2 && b[0].0 == "type"@ && b[1].0 == "thinking"@);
    key_index_is(a, "type"@, 0);
    key_index_is(a, "thinking"@, 1);
    key_index_is(b, "type"@, 0);
    key_index_is(b, "thinking"@, 1);
    reveal_strlit("tool call");
    reveal_strlit("[redacted thinking]");
    assert(THINKING_PLACEHOLDER@[0] == 't' && !is_space(THINKING_PLACEHOLDER@[0]));
    assert(REDACTED_THINKING_PLACEHOLDER@[0] == '[' && !is_space(REDACTED_THINKING_PLACEHOLDER@[0]));
}

proof fn thoughts_say_something(block: JsonV)
    requires
        keys_are_distinct(block),
    ensures
        block.text_at("type"@) == Some("thinking"@) || block.text_at("type"@) == Some("redacted_thinking"@) ==> thinks_something(
            replayed_block(block).0,
        ),
        block.text_at("type"@) != Some("thinking"@) && block.text_at("type"@) != Some("redacted_thinking"@) ==> replayed_block(
            block,
        ).0 == block,
{
    reveal_strlit("type");
    reveal_strlit("thinking");
    reveal_strlit("signature");
    reveal_strlit("redacted_thinking");
    assert("type"@.len() == 4 && "thinking"@.len() == 8 && "signature"@.len() == 9 && "redacted_thinking"@.len() == 17);
    placeholders_say_something();
    taking_out_keeps_the_rest(block, "signature"@, "type"@);
    taking_out_keeps_the_rest(block, "signature"@, "thinking"@);
    if block is Object {
        with_gives(block.without("signature"@), "thinking"@, JsonV::Str(THINKING_PLACEHOLDER@));
    }
}

/// A turn of the assistant that calls a tool carries thinking, and every thought that it carries says something.
pub proof fn calls_carry_thinking(message: JsonV)
    requires
        message.items_at("content"@) matches Some(blocks) ==> forall|i: int|
            0 <= i < blocks.len() ==> keys_are_distinct(#[trigger] blocks[i]),
    ensures
        message.text_at("role"@) == Some("assistant"@) ==> (message.items_at("content"@) matches Some(blocks) ==> (exists|i: int|
            0 <= i < blocks.len() && (#[trigger] blocks[i]).text_at("type"@) == Some("tool_use"@)) ==> (replayed_message(
            message,
        ).items_at("content"@) matches Some(after) && (exists|i: int| 0 <= i < after.len() && thinks_something(
            #[trigger] after[i],
        )) && (forall|i: int|
            0 <= i < after.len() && (#[trigger] after[i]).text_at("type"@) == Some("thinking"@) ==> thinks_something(after[i])) && (
        forall|i: int| 0 <= i < after.len() ==> (#[trigger] after[i]).text_at("type"@) != Some("redacted_thinking"@)))),
        message.text_at("role"@) != Some("assistant"@) ==> replayed_message(message) == message,
{
    reveal_strlit("thinking");
    reveal_strlit("redacted_thinking");
    assert("thinking"@.len() == 8 && "redacted_thinking"@.len() == 17);
    placeholders_say_something();
    if let Some(blocks) = message.items_at("content"@) {
        let kept = blocks.map_values(|block: JsonV| replayed_block(block).0);
        let after = crate::deepseek_compat::replayed_blocks(blocks);
        with_gives(message, "content"@, JsonV::Array(after));
        assert forall|i: int| 0 <= i < kept.len() implies ((#[trigger] kept[i]).text_at("type"@) == Some("thinking"@)
            ==> thinks_something(kept[i])) && kept[i].text_at("type"@) != Some("redacted_thinking"@) by {
            thoughts_say_something(blocks[i]);
        }
        if crate::deepseek_compat::holds_thinking(blocks) {
            let i = choose|i: int| 0 <= i < blocks.len() && crate::deepseek_compat::is_thinking_block(#[trigger] blocks[i]);
            thoughts_say_something(blocks[i]);
            assert(thinks_something(kept[i]));
            assert(after == kept);
        } else {
            let first = typed_block("thinking"@, "thinking"@, THINKING_PLACEHOLDER@);
            assert(after == seq![first] + kept);
            assert(after[0] == first);
            assert forall|i: int| 0 <= i < after.len() implies ((#[trigger] after[i]).text_at("type"@) == Some("thinking"@)
                ==> thinks_something(after[i])) && after[i].text_at("type"@) != Some("redacted_thinking"@) by {
                if i > 0 {
                    assert(after[i] == kept[i - 1]);
                }
            }
        }
    }
}

/// The query that a block asks for, where it asks for one that can be run.
pub open spec fn query_to_run(block: JsonV) -> Option<Seq<char>> {
    if !asks_for_a_search(block) {
        None
    } else {
        match block.get("input"@) {
            Some(input) => match input.text_at("query"@) {
                Some(text) => if trimmed(text).len() > 0 && encode_utf8(trimmed(text)).len() <= MAX_QUERY_BYTES {
                    Some(trimmed(text))
                } else {
                    None
                },
                None => None,
            },
            None => None,
        }
    }
}

/// The queries of a response are those that its calls ask for: every one of them unless there are as many as may be run,
/// and no other.
pub proof fn responses_are_searched_for_every_query(blocks: Seq<JsonV>)
    ensures
        response_queries(blocks).len() == MAX_QUERIES || forall|i: int|
            0 <= i < blocks.len() && query_to_run(#[trigger] blocks[i]) is Some ==> response_queries(blocks).contains(
                query_to_run(blocks[i]).unwrap(),
            ),
        forall|k: int|
            0 <= k < response_queries(blocks).len() ==> is_asked_by(blocks, #[trigger] response_queries(blocks)[k]),
        response_queries(blocks).len() <= MAX_QUERIES,
    decreases blocks.len(),
{
    if blocks.len() > 0 {
        let before = blocks.drop_last();
        responses_are_searched_for_every_query(before);
        let few = response_queries(before);
        let all = response_queries(blocks);
        let end = blocks.len() - 1;
        assert(forall|i: int| 0 <= i < before.len() ==> #[trigger] before[i] == blocks[i]);
        assert(forall|k: int| 0 <= k < few.len() ==> #[trigger] all[k] == few[k]);
        if all.len() != MAX_QUERIES {
            assert forall|i: int| 0 <= i < blocks.len() && query_to_run(#[trigger] blocks[i]) is Some implies all.contains(
                query_to_run(blocks[i]).unwrap(),
            ) by {
                let query = query_to_run(blocks[i]).unwrap();
                if i < before.len() {
                    assert(query_to_run(before[i]) is Some);
                    let k = choose|k: int| 0 <= k < few.len() && few[k] == query;
                    assert(all[k] == query);
                } else if few.contains(query) {
                    let k = choose|k: int| 0 <= k < few.len() && few[k] == query;
                    assert(all[k] == query);
                } else {
                    assert(all[all.len() - 1] == query);
                }
            }
        }
        assert forall|k: int| 0 <= k < all.len() implies is_asked_by(blocks, #[trigger] all[k]) by {
            if k < few.len() {
                assert(is_asked_by(before, few[k]));
                let i = choose|i: int| 0 <= i < before.len() && query_to_run(#[trigger] before[i]) == Some(few[k]);
                assert(query_to_run(blocks[i]) == Some(all[k]));
            } else {
                assert(query_to_run(blocks[end]) == Some(all[k]));
            }
        }
    }
}

/// Whether one of the blocks asks for a query.
pub open spec fn is_asked_by(blocks: Seq<JsonV>, query: Seq<char>) -> bool {
    exists|i: int| 0 <= i < blocks.len() && query_to_run(#[trigger] blocks[i]) == Some(query)
}

} // verus!
