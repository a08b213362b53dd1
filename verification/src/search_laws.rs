//! What holds of the searches that a response brings, and of those that are run for a client.
use crate::anthropic_compat::type_only;
use crate::anthropic_compat_laws::keys_are_distinct;
use crate::deepseek_normal_laws::{giving_keeps_keys, taking_out_keeps_the_rest};
use crate::json::JsonV;
use crate::json_model::{key_index_is, rendered, typed_block, with_gives};
use crate::kimi_adapter_laws::asks_for_a_search;
use crate::kimi_coding_search::{
    block_frames, delta_frame, delta_of, first_evidence, follow_up_request, instruction, listed, merged_response,
    number, server_search, start_frame, stop_frame, text_or_empty, without_bridge, without_calls,
};
use crate::kimi_search_noise::{
    blocks_kept, cleaned_response, is_noise, is_search_call, is_search_result, no_stats, noise_counted, non_empty, pair_kept,
    StripStats,
};
use crate::sse::sse_bytes;
use crate::text::{has_part, joined, stands_at};
use crate::traffic_laws::holds_bytes;
use vstd::prelude::*;

verus! {

/// Whether a block belongs to a search of the server's.
pub open spec fn is_part_of_a_search(block: JsonV) -> bool {
    block.text_at("type"@) == Some("server_tool_use"@) || block.text_at("type"@) == Some("web_search_tool_result"@)
}

/// Whether a block is a text that only repeats a query.
pub open spec fn repeats_a_query(block: JsonV) -> bool {
    block.text_at("type"@) == Some("text"@) && (block.text_at("text"@) matches Some(text)
        && "Search results for query:"@.is_prefix_of(text))
}

spec fn spoken() -> spec_fn(JsonV) -> bool {
    |block: JsonV| !is_part_of_a_search(block)
}

spec fn spoken_of_its_own() -> spec_fn(JsonV) -> bool {
    |block: JsonV| !is_part_of_a_search(block) && !repeats_a_query(block)
}

proof fn one_block(block: JsonV, pred: spec_fn(JsonV) -> bool)
    ensures
        seq![block].filter(pred) == if pred(block) {
            seq![block]
        } else {
            Seq::empty()
        },
{
    reveal(Seq::filter);
    let s = seq![block];
    assert(s.drop_last() =~= Seq::empty());
    assert(s.drop_last().filter(pred) =~= Seq::empty());
    assert(s.last() == block);
    assert(Seq::<JsonV>::empty().push(block) =~= seq![block]);
}

proof fn no_block(pred: spec_fn(JsonV) -> bool)
    ensures
        Seq::<JsonV>::empty().filter(pred) == Seq::<JsonV>::empty(),
{
    reveal(Seq::filter);
}

proof fn halves_stay_halves(call: JsonV, result: JsonV, stats: StripStats)
    requires
        is_search_call(call),
        is_search_result(result),
    ensures
        pair_kept(call, result, stats).0.filter(spoken()) == Seq::<JsonV>::empty(),
{
    reveal_strlit("type");
    reveal_strlit("id");
    reveal_strlit("tool_use_id");
    assert("type"@.len() == 4 && "id"@.len() == 2 && "tool_use_id"@.len() == 11);
    let pair = pair_kept(call, result, stats).0;
    no_block(spoken());
    if pair.len() > 0 {
        assert(pair.len() == 2);
        assert forall|id: JsonV| call is Object implies #[trigger] call.with("id"@, id).get("type"@) == call.get("type"@) by {
            with_gives(call, "id"@, id);
        }
        assert forall|id: JsonV| result is Object implies #[trigger] result.with("tool_use_id"@, id).get("type"@) == result.get(
            "type"@,
        ) by {
            with_gives(result, "tool_use_id"@, id);
        }
        assert(is_part_of_a_search(pair[0]) && is_part_of_a_search(pair[1]));
        assert(pair =~= seq![pair[0]] + seq![pair[1]]);
        one_block(pair[0], spoken());
        one_block(pair[1], spoken());
        Seq::filter_distributes_over_add(seq![pair[0]], seq![pair[1]], spoken());
    } else {
        assert(pair =~= Seq::empty());
    }
}

proof fn what_is_said_stays(blocks: Seq<JsonV>, stats: StripStats)
    ensures
        blocks_kept(blocks, stats).0.filter(spoken()) == blocks.filter(spoken_of_its_own()),
    decreases blocks.len(),
{
    no_block(spoken());
    no_block(spoken_of_its_own());
    if blocks.len() > 0 {
        let rest = blocks.drop_first();
        assert(blocks =~= seq![blocks[0]] + rest);
        Seq::filter_distributes_over_add(seq![blocks[0]], rest, spoken_of_its_own());
        one_block(blocks[0], spoken_of_its_own());
        one_block(blocks[0], spoken());
        if is_noise(blocks[0]) {
            what_is_said_stays(rest, noise_counted(blocks[0], stats));
            assert(Seq::<JsonV>::empty() + rest.filter(spoken_of_its_own()) =~= rest.filter(spoken_of_its_own()));
        } else if is_search_call(blocks[0]) && blocks.len() > 1 && is_search_result(blocks[1]) {
            let (pair, more) = pair_kept(blocks[0], blocks[1], stats);
            let tail = blocks.skip(2);
            what_is_said_stays(tail, more);
            halves_stay_halves(blocks[0], blocks[1], stats);
            let left = blocks_kept(tail, more).0;
            Seq::filter_distributes_over_add(pair, left, spoken());
            assert(rest =~= seq![blocks[1]] + tail);
            Seq::filter_distributes_over_add(seq![blocks[1]], tail, spoken_of_its_own());
            one_block(blocks[1], spoken_of_its_own());
            let e = Seq::<JsonV>::empty();
            assert(e + left.filter(spoken()) =~= left.filter(spoken()));
            assert(e + (e + tail.filter(spoken_of_its_own())) =~= tail.filter(spoken_of_its_own()));
        } else {
            what_is_said_stays(rest, stats);
            let left = blocks_kept(rest, stats).0;
            Seq::filter_distributes_over_add(seq![blocks[0]], left, spoken());
            assert(!repeats_a_query(blocks[0]));
        }
    } else {
        assert(blocks =~= Seq::empty());
    }
}

/// A response keeps everything that it says, in its order, but for the texts that only repeat a query; nothing else of it
/// changes.
pub proof fn repeated_queries_alone_are_left_out(response: JsonV, key: Seq<char>)
    ensures
        key != "content"@ ==> cleaned_response(response).0.get(key) == response.get(key),
        response.items_at("content"@) is None ==> cleaned_response(response).0 == response,
        response.items_at("content"@) matches Some(blocks) ==> (cleaned_response(response).0.items_at("content"@) matches Some(
            kept,
        ) && kept.filter(|block: JsonV| !is_part_of_a_search(block)) == blocks.filter(
            |block: JsonV| !is_part_of_a_search(block) && !repeats_a_query(block),
        )),
{
    if let Some(blocks) = response.items_at("content"@) {
        what_is_said_stays(blocks, no_stats());
        with_gives(response, "content"@, JsonV::Array(blocks_kept(blocks, no_stats()).0));
    }
}

/// The two halves of a search are known by one id, and are otherwise as they came; a search without an id and without
/// a result is left out.
pub proof fn halves_of_a_search_are_one(call: JsonV, result: JsonV, stats: StripStats, key: Seq<char>)
    requires
        call is Object,
        result is Object,
    ensures
        ({
            let kept = pair_kept(call, result, stats).0;
            let call_id = non_empty(call.text_at("id"@));
            let result_id = non_empty(result.text_at("tool_use_id"@));
            &&& kept.len() == 0 || kept.len() == 2
            &&& kept.len() == 0 <==> call_id is None && result_id is None && result.items_at("content"@) is Some
                && result.items_at("content"@).unwrap().len() == 0
            &&& kept.len() == 2 && (call_id is Some || result_id is Some) ==> kept[0].text_at("id"@) is Some
                && kept[0].text_at("id"@) == kept[1].text_at("tool_use_id"@)
            &&& kept.len() == 2 && result_id is Some ==> kept[1] == result
            &&& kept.len() == 2 && result_id is None ==> kept[0] == call
            &&& kept.len() == 2 && key != "id"@ ==> kept[0].get(key) == call.get(key)
            &&& kept.len() == 2 && key != "tool_use_id"@ ==> kept[1].get(key) == result.get(key)
        }),
{
    let call_id = non_empty(call.text_at("id"@));
    let result_id = non_empty(result.text_at("tool_use_id"@));
    if let Some(id) = result_id {
        with_gives(call, "id"@, JsonV::Str(id));
    }
    if let Some(id) = call_id {
        with_gives(result, "tool_use_id"@, JsonV::Str(id));
    }
}

/// The request that runs a search holds the whole conversation and asks for every query behind it; the server's search
/// stands in front of the client's other tools, and every other setting stays.
pub proof fn searches_see_the_conversation(original: JsonV, queries: Seq<Seq<char>>, key: Seq<char>, k: int)
    requires
        keys_are_distinct(original),
    ensures
        follow_up_request(original, queries) matches Ok(request) ==> {
            &&& original.items_at("messages"@) matches Some(turns) && request.items_at("messages"@) matches Some(sent) && {
                &&& sent.len() == turns.len() + 1
                &&& turns.is_prefix_of(sent)
                &&& sent.last().text_at("role"@) == Some("user"@)
                &&& sent.last().text_at("content"@) matches Some(text) && (0 <= k < queries.len() ==> has_part(text, queries[k]))
            }
            &&& request.items_at("tools"@) matches Some(tools) && tools.len() > 0 && tools[0].text_at("type"@) == Some(
                "web_search_20250305"@,
            ) && tools.drop_first() == (match original.items_at("tools"@) {
                Some(items) => items.filter(|tool: JsonV| tool.text_at("name"@) != Some("web_search"@)),
                None => Seq::empty(),
            })
            &&& request.get("stream"@) == Some(JsonV::Bool(false))
            &&& request.get("tool_choice"@) is None
            &&& key != "messages"@ && key != "tools"@ && key != "tool_choice"@ && key != "stream"@ ==> request.get(key)
                == original.get(key)
        },
{
    reveal_strlit("messages");
    reveal_strlit("tools");
    reveal_strlit("tool_choice");
    reveal_strlit("stream");
    reveal_strlit("role");
    reveal_strlit("content");
    reveal_strlit("type");
    reveal_strlit("name");
    assert("messages"@.len() == 8 && "tools"@.len() == 5 && "tool_choice"@.len() == 11 && "stream"@.len() == 6);
    assert("role"@.len() == 4 && "content"@.len() == 7 && "type"@[0] == 't' && "name"@[0] == 'n');
    if let Ok(request) = follow_up_request(original, queries) {
        let turns = original.items_at("messages"@).unwrap();
        let ask = JsonV::object().and("role"@, JsonV::Str("user"@)).and("content"@, JsonV::Str(instruction(queries)));
        let fields = ask->Object_0;
        assert(fields.len() == 2 && fields[0].0 == "role"@ && fields[1].0 == "content"@);
        key_index_is(fields, "role"@, 0);
        key_index_is(fields, "content"@, 1);
        let sent = turns.push(ask);
        assert(sent.take(turns.len() as int) =~= turns);
        let asked = original.with("messages"@, JsonV::Array(sent));
        with_gives(original, "messages"@, JsonV::Array(sent));
        giving_keeps_keys(original, "messages"@, JsonV::Array(sent));
        let others = match asked.items_at("tools"@) {
            Some(items) => without_bridge(items),
            None => Seq::empty(),
        };
        if let Some(items) = asked.items_at("tools"@) {
            other_tools(items);
        }
        let tools = seq![server_search()] + others;
        assert(tools.drop_first() =~= others);
        let own = server_search()->Object_0;
        assert(own.len() == 2 && own[0].0 == "type"@ && own[1].0 == "name"@);
        key_index_is(own, "type"@, 0);
        let armed = asked.with("tools"@, JsonV::Array(tools));
        with_gives(asked, "tools"@, JsonV::Array(tools));
        giving_keeps_keys(asked, "tools"@, JsonV::Array(tools));
        let free = armed.without("tool_choice"@);
        taking_out_keeps_the_rest(armed, "tool_choice"@, key);
        taking_out_keeps_the_rest(armed, "tool_choice"@, "messages"@);
        taking_out_keeps_the_rest(armed, "tool_choice"@, "tools"@);
        crate::anthropic_compat_laws::taken_out_is_gone(armed, "tool_choice"@);
        with_gives(free, "stream"@, JsonV::Bool(false));
        assert(request == free.with("stream"@, JsonV::Bool(false)));
        if 0 <= k < queries.len() {
            queries_are_named(queries, k);
        }
    }
}

proof fn other_tools(tools: Seq<JsonV>)
    ensures
        without_bridge(tools) == tools.filter(|tool: JsonV| tool.text_at("name"@) != Some("web_search"@)),
    decreases tools.len(),
{
    reveal(Seq::filter);
    if tools.len() > 0 {
        other_tools(tools.drop_last());
    }
}

proof fn queries_are_named(queries: Seq<Seq<char>>, k: int)
    requires
        0 <= k < queries.len(),
    ensures
        has_part(instruction(queries), queries[k]),
{
    if queries.len() == 1 {
        let start = "Use web_search to look up: "@;
        let text = start + queries[0];
        assert(text.subrange(start.len() as int, start.len() as int + queries[0].len()) =~= queries[0]);
        assert(stands_at(text, queries[0], start.len() as int));
    } else {
        let start = "Use web_search to look up each of the following, then answer:\n"@;
        let lines = listed(queries);
        joined_texts_hold_each(lines, "\n"@, k);
        let rest = joined(lines, "\n"@);
        let at = choose|at: int| #[trigger] stands_at(rest, lines[k], at);
        let place = start.len() + at + "- "@.len();
        let text = start + rest;
        assert(text.subrange(place, place + queries[k].len()) =~= queries[k]) by {
            assert(rest.subrange(at, at + lines[k].len()) == lines[k]);
            assert(lines[k] == "- "@ + queries[k]);
            assert forall|i: int| 0 <= i < queries[k].len() implies text[place + i] == queries[k][i] by {
                assert(rest.subrange(at, at + lines[k].len())["- "@.len() + i] == lines[k]["- "@.len() + i]);
            }
        }
        assert(stands_at(text, queries[k], place));
    }
}

/// Texts that are put together each stand in what they become.
pub proof fn joined_texts_hold_each(parts: Seq<Seq<char>>, sep: Seq<char>, k: int)
    requires
        0 <= k < parts.len(),
    ensures
        has_part(joined(parts, sep), parts[k]),
    decreases parts.len(),
{
    let all = joined(parts, sep);
    if parts.len() == 1 {
        assert(all.subrange(0, all.len() as int) =~= all);
        assert(stands_at(all, parts[k], 0));
    } else {
        let less = parts.drop_last();
        let start = joined(less, sep);
        if k < less.len() {
            joined_texts_hold_each(less, sep, k);
            let at = choose|at: int| #[trigger] stands_at(start, less[k], at);
            assert(all.subrange(at, at + parts[k].len()) =~= start.subrange(at, at + parts[k].len()));
            assert(stands_at(all, parts[k], at));
        } else {
            let at = (start.len() + sep.len()) as int;
            assert(all.subrange(at, at + parts[k].len()) =~= parts[k]);
            assert(stands_at(all, parts[k], at));
        }
    }
}

proof fn evidence_comes_first(blocks: Seq<JsonV>)
    ensures
        0 <= first_evidence(blocks) <= blocks.len(),
        first_evidence(blocks) < blocks.len() ==> is_part_of_a_search(blocks[first_evidence(blocks)]),
        forall|i: int| 0 <= i < first_evidence(blocks) ==> !is_part_of_a_search(#[trigger] blocks[i]),
    decreases blocks.len(),
{
    if blocks.len() > 0 && !is_part_of_a_search(blocks[0]) {
        let rest = blocks.drop_first();
        evidence_comes_first(rest);
        assert forall|i: int| 0 <= i < first_evidence(blocks) implies !is_part_of_a_search(#[trigger] blocks[i]) by {
            if i > 0 {
                assert(rest[i - 1] == blocks[i]);
            }
        }
    }
}

proof fn said_without_calls(blocks: Seq<JsonV>)
    ensures
        without_calls(blocks) == blocks.filter(|block: JsonV| !asks_for_a_search(block)),
    decreases blocks.len(),
{
    reveal(Seq::filter);
    if blocks.len() > 0 {
        said_without_calls(blocks.drop_last());
    }
}

/// The response of a client holds what the model said first, without its calls of the stand-in tool, and then the whole
/// search and everything behind it; it ends as the search ended.
pub proof fn searched_responses_hold_the_search(first: JsonV, follow_up: JsonV, key: Seq<char>)
    ensures
        merged_response(first, follow_up) matches Ok(message) ==> {
            &&& follow_up.items_at("content"@) matches Some(found) && message.items_at("content"@) matches Some(blocks)
                && exists|at: int|
                0 <= at < found.len() && is_part_of_a_search(#[trigger] found[at]) && (forall|i: int|
                    0 <= i < at ==> !is_part_of_a_search(#[trigger] found[i])) && blocks == (match first.items_at("content"@) {
                    Some(said) => said.filter(|block: JsonV| !asks_for_a_search(block)),
                    None => Seq::empty(),
                }) + found.skip(at)
            &&& follow_up.get("stop_reason"@) is Some ==> message.get("stop_reason"@) == follow_up.get("stop_reason"@)
            &&& follow_up.get("usage"@) is Some ==> message.get("usage"@) == follow_up.get("usage"@)
            &&& key != "content"@ && key != "stop_reason"@ && key != "usage"@ ==> message.get(key) == first.get(key)
        },
{
    reveal_strlit("content");
    reveal_strlit("stop_reason");
    reveal_strlit("usage");
    assert("content"@.len() == 7 && "stop_reason"@.len() == 11 && "usage"@.len() == 5);
    if let Ok(message) = merged_response(first, follow_up) {
        let found = follow_up.items_at("content"@).unwrap();
        evidence_comes_first(found);
        let at = first_evidence(found);
        let kept = match first.items_at("content"@) {
            Some(items) => without_calls(items),
            None => Seq::empty(),
        };
        if let Some(said) = first.items_at("content"@) {
            said_without_calls(said);
        }
        let filled = first.with("content"@, JsonV::Array(kept + found.skip(at)));
        with_gives(first, "content"@, JsonV::Array(kept + found.skip(at)));
        let reason = match follow_up.get("stop_reason"@) {
            Some(r) => r,
            None => JsonV::Str("end_turn"@),
        };
        let ended = filled.with("stop_reason"@, reason);
        with_gives(filled, "stop_reason"@, reason);
        if let Some(usage) = follow_up.get("usage"@) {
            with_gives(ended, "usage"@, usage);
        }
        assert(is_part_of_a_search(found[at]));
    }
}

proof fn parts_are_held(before: Seq<u8>, part: Seq<u8>, behind: Seq<u8>)
    ensures
        holds_bytes(before + part + behind, part),
{
    let all = before + part + behind;
    let at = before.len() as int;
    assert(all.subrange(at, at + part.len()) =~= part);
}

/// Whether bytes hold a frame that brings a piece of a block.
pub open spec fn bring(bytes: Seq<u8>, index: u64, key: Seq<char>, text: Seq<char>) -> bool {
    exists|tree: JsonV|
        #![trigger sse_bytes(Some("content_block_delta"@), tree)]
        holds_bytes(bytes, sse_bytes(Some("content_block_delta"@), tree)) && tree.unsigned_at("index"@) == Some(index) && (
        tree.get("delta"@) matches Some(delta) && delta.text_at(key) == Some(text))
}

proof fn deltas_are_brought(bytes: Seq<u8>, index: u64, kind: Seq<char>, key: Seq<char>, text: Seq<char>)
    requires
        holds_bytes(bytes, delta_frame(index, typed_block(kind, key, text))),
        key != "type"@,
    ensures
        bring(bytes, index, key, text),
{
    reveal_strlit("type");
    reveal_strlit("index");
    reveal_strlit("delta");
    assert("type"@.len() == 4 && "index"@.len() == 5 && "delta"@.len() == 5 && "index"@[0] == 'i' && "delta"@[0] == 'd');
    let block = typed_block(kind, key, text);
    let tree = type_only("content_block_delta"@).and("index"@, number(index)).and("delta"@, block);
    let entries = tree->Object_0;
    assert(entries.len() == 3 && entries[0].0 == "type"@ && entries[1].0 == "index"@ && entries[2].0 == "delta"@);
    key_index_is(entries, "index"@, 1);
    key_index_is(entries, "delta"@, 2);
    let fields = block->Object_0;
    assert(fields.len() == 2 && fields[0].0 == "type"@ && fields[1].0 == key);
    key_index_is(fields, key, 1);
    assert(sse_bytes(Some("content_block_delta"@), tree) == delta_frame(index, block));
}

/// The frames of a block bring its text, its thinking or its input whole.
pub proof fn frames_bring_the_block(index: u64, block: JsonV)
    ensures
        block.text_at("type"@) == Some("text"@) ==> (block.text_at("text"@) matches Some(text) ==> text.len() > 0 ==> bring(
            block_frames(index, block),
            index,
            "text"@,
            text,
        )),
        block.text_at("type"@) == Some("thinking"@) ==> (block.text_at("thinking"@) matches Some(thought) ==> thought.len() > 0
            ==> bring(block_frames(index, block), index, "thinking"@, thought)),
        block.text_at("type"@) == Some("server_tool_use"@) ==> (block.get("input"@) matches Some(input) ==> bring(
            block_frames(index, block),
            index,
            "partial_json"@,
            rendered(input),
        )),
{
    reveal_strlit("type");
    reveal_strlit("text");
    reveal_strlit("thinking");
    reveal_strlit("server_tool_use");
    reveal_strlit("partial_json");
    assert("type"@.len() == 4 && "text"@.len() == 4 && "thinking"@.len() == 8 && "server_tool_use"@.len() == 15);
    assert("type"@[1] == 'y' && "text"@[1] == 'e' && "partial_json"@.len() == 12);
    let all = block_frames(index, block);
    let stop = stop_frame(index);
    if block.text_at("type"@) == Some("text"@) {
        if let Some(text) = block.text_at("text"@) {
            if text.len() > 0 {
                let start = start_frame(index, crate::json_model::text_block(""@));
                let part = delta_frame(index, typed_block("text_delta"@, "text"@, text));
                assert(all =~= start + part + stop);
                parts_are_held(start, part, stop);
                deltas_are_brought(all, index, "text_delta"@, "text"@, text);
            }
        }
    } else if block.text_at("type"@) == Some("thinking"@) {
        if let Some(thought) = block.text_at("thinking"@) {
            if thought.len() > 0 {
                let start = start_frame(
                    index,
                    type_only("thinking"@).and("thinking"@, JsonV::Str(""@)).and("signature"@, JsonV::Str(""@)),
                );
                let part = delta_frame(index, typed_block("thinking_delta"@, "thinking"@, thought));
                let behind = delta_of(index, "signature_delta"@, "signature"@, text_or_empty(block, "signature"@)) + stop;
                assert(all =~= start + part + behind);
                parts_are_held(start, part, behind);
                deltas_are_brought(all, index, "thinking_delta"@, "thinking"@, thought);
            }
        }
    } else if block.text_at("type"@) == Some("server_tool_use"@) {
        if let Some(input) = block.get("input"@) {
            let start = start_frame(index, block.with("input"@, JsonV::object()));
            let part = delta_frame(index, typed_block("input_json_delta"@, "partial_json"@, rendered(input)));
            assert(all =~= start + part + stop);
            parts_are_held(start, part, stop);
            deltas_are_brought(all, index, "input_json_delta"@, "partial_json"@, rendered(input));
        }
    }
}

} // verus!
