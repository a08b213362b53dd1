//! What holds of a web search in stages, from the request to the message that it becomes.
use crate::anthropic_compat::{fitting_tool_choice, type_only, RelayFlavor};
use crate::anthropic_compat_laws::keys_are_distinct;
use crate::client::ClientV;
use crate::deepseek_normal_laws::{giving_keeps_keys, taking_out_keeps_the_rest};
use crate::json::JsonV;
use crate::json_model::{key_index_is, rendered, typed_block, with_gives};
use crate::kimi_coding_search::{delta_frame, number, text_or_empty, without_bridge, without_calls};
use crate::kimi_web_search_adapter::{
    asked, calls_client, call_ids, evidence_blocks, evidence_text, framed_block, framed_blocks, is_search,
    merged_blocks, merged_message, message_frames, nested_call, nested_verdict, paired, prepared, query_tool,
    search_count, search_place, summed, summed_entries, synthesis_call, text_items, tool_answer, tool_answers, wanted,
    without_tail,
};
use crate::sse::sse_bytes;
use crate::text::trimmed;
use vstd::prelude::*;
use vstd::utf8::encode_utf8;

verus! {

/// Whether a block is a call of the query tool.
pub open spec fn asks_for_a_search(block: JsonV) -> bool {
    block.text_at("type"@) == Some("tool_use"@) && block.text_at("name"@) == Some("web_search"@)
}

proof fn the_only_search(tools: Seq<JsonV>)
    ensures
        search_count(tools) == 0 ==> forall|i: int| 0 <= i < tools.len() ==> !is_search(#[trigger] tools[i]),
        search_count(tools) > 0 ==> 0 <= search_place(tools) < tools.len() && is_search(tools[search_place(tools)]),
        search_count(tools) == 1 ==> forall|i: int|
            0 <= i < tools.len() && is_search(#[trigger] tools[i]) ==> i == search_place(tools),
    decreases tools.len(),
{
    if tools.len() > 0 {
        let before = tools.drop_last();
        the_only_search(before);
        assert(forall|i: int| 0 <= i < before.len() ==> #[trigger] before[i] == tools[i]);
        assert forall|i: int| search_count(tools) == 0 && 0 <= i < tools.len() implies !is_search(#[trigger] tools[i]) by {
            if i < before.len() {
                assert(!is_search(before[i]));
            }
        }
        assert forall|i: int| search_count(tools) == 1 && 0 <= i < tools.len() && is_search(#[trigger] tools[i]) implies i
            == search_place(tools) by {
            if i < before.len() {
                assert(is_search(before[i]));
            }
        }
    }
}

proof fn query_tools_are_named()
    ensures
        query_tool().text_at("name"@) == Some("web_search"@),
        query_tool().get("input_schema"@) is Some,
{
    reveal_strlit("name");
    reveal_strlit("description");
    reveal_strlit("input_schema");
    assert("name"@.len() == 4 && "description"@.len() == 11 && "input_schema"@.len() == 12);
    let entries = query_tool()->Object_0;
    assert(entries.len() == 3);
    assert(entries[0].0 == "name"@ && entries[1].0 == "description"@ && entries[2].0 == "input_schema"@);
    key_index_is(entries, "name"@, 0);
    key_index_is(entries, "input_schema"@, 2);
}

/// A request with one typed search goes out with a tool of the same name in its place; every other tool and setting
/// stays, and nothing is streamed. The typed declaration is kept for the search.
pub proof fn searches_are_planned_with_a_tool(body: JsonV, flavor: RelayFlavor, key: Seq<char>)
    ensures
        flavor != RelayFlavor::Kimi ==> prepared(body, flavor) == Ok::<Option<(JsonV, JsonV)>, Seq<char>>(None),
        prepared(body, flavor) matches Ok(None) ==> flavor != RelayFlavor::Kimi || (body.items_at("tools"@) matches Some(
            tools,
        ) ==> forall|i: int| 0 <= i < tools.len() ==> !is_search(#[trigger] tools[i])),
        prepared(body, flavor) matches Ok(Some((request, declaration))) ==> body.items_at("tools"@) matches Some(tools) && (
        request.items_at("tools"@) matches Some(sent) && {
            &&& is_search(declaration)
            &&& tools.contains(declaration)
            &&& sent.len() == tools.len()
            &&& forall|i: int|
                0 <= i < tools.len() ==> if is_search(tools[i]) {
                    (#[trigger] sent[i]).text_at("name"@) == Some("web_search"@) && sent[i].get("input_schema"@) is Some
                        && tools[i] == declaration
                } else {
                    sent[i] == tools[i] && tools[i].text_at("name"@) != Some("web_search"@)
                }
            &&& request.get("stream"@) == Some(JsonV::Bool(false))
            &&& key != "tools"@ && key != "stream"@ ==> request.get(key) == body.get(key)
        }),
{
    reveal_strlit("tools");
    reveal_strlit("stream");
    assert("tools"@.len() == 5 && "stream"@.len() == 6);
    if let Some(tools) = body.items_at("tools"@) {
        the_only_search(tools);
        query_tools_are_named();
        let at = search_place(tools);
        if let Ok(Some(pair)) = prepared(body, flavor) {
            let sent = tools.update(at, query_tool());
            with_gives(body, "tools"@, JsonV::Array(sent));
            with_gives(body.with("tools"@, JsonV::Array(sent)), "stream"@, JsonV::Bool(false));
            assert(tools[at] == pair.1);
            assert forall|i: int| 0 <= i < tools.len() implies if is_search(tools[i]) {
                (#[trigger] sent[i]).text_at("name"@) == Some("web_search"@) && sent[i].get("input_schema"@) is Some
                    && tools[i] == pair.1
            } else {
                sent[i] == tools[i] && tools[i].text_at("name"@) != Some("web_search"@)
            } by {
                if i != at {
                    assert(!is_search(tools[i]));
                    assert(tools[i].text_at("name"@) != Some("web_search"@));
                }
            }
        }
    }
}

/// The query of a call.
pub open spec fn query_in(block: JsonV) -> Seq<char> {
    match block.get("input"@) {
        Some(input) => match input.text_at("query"@) {
            Some(query) => trimmed(query),
            None => Seq::empty(),
        },
        None => Seq::empty(),
    }
}

proof fn queries_so_far(blocks: Seq<JsonV>)
    ensures
        asked(blocks) matches Ok((ids, queries)) ==> {
            &&& forall|i: int|
                0 <= i < blocks.len() && asks_for_a_search(#[trigger] blocks[i]) ==> queries.contains(query_in(blocks[i]))
                    && ids.contains(text_or_empty(blocks[i], "id"@)) && text_or_empty(blocks[i], "id"@).len() > 0
            &&& forall|k: int|
                0 <= k < queries.len() ==> (#[trigger] queries[k]).len() > 0 && exists|i: int|
                    0 <= i < blocks.len() && asks_for_a_search(#[trigger] blocks[i]) && query_in(blocks[i]) == queries[k]
            &&& queries.no_duplicates()
            &&& queries.len() <= ids.len() <= 4
        },
    decreases blocks.len(),
{
    if blocks.len() > 0 {
        let before = blocks.drop_last();
        queries_so_far(before);
        if let Ok((ids, queries)) = asked(blocks) {
            let (old_ids, old_queries) = asked(before)->Ok_0;
            let last = blocks.last();
            assert(forall|i: int| 0 <= i < before.len() ==> #[trigger] before[i] == blocks[i]);
            assert(forall|k: int| 0 <= k < old_queries.len() ==> #[trigger] queries[k] == old_queries[k]);
            assert(forall|k: int| 0 <= k < old_ids.len() ==> #[trigger] ids[k] == old_ids[k]);
            assert forall|i: int| 0 <= i < blocks.len() && asks_for_a_search(#[trigger] blocks[i]) implies queries.contains(
                query_in(blocks[i]),
            ) && ids.contains(text_or_empty(blocks[i], "id"@)) && text_or_empty(blocks[i], "id"@).len() > 0 by {
                if i < before.len() {
                    assert(asks_for_a_search(before[i]));
                    let k = choose|k: int| 0 <= k < old_queries.len() && old_queries[k] == query_in(before[i]);
                    assert(queries[k] == query_in(blocks[i]));
                    let m = choose|m: int| 0 <= m < old_ids.len() && old_ids[m] == text_or_empty(before[i], "id"@);
                    assert(ids[m] == text_or_empty(blocks[i], "id"@));
                } else {
                    assert(ids[ids.len() - 1] == text_or_empty(last, "id"@));
                    if !old_queries.contains(query_in(last)) {
                        assert(queries[queries.len() - 1] == query_in(last));
                    }
                }
            }
            assert forall|k: int| 0 <= k < queries.len() implies (#[trigger] queries[k]).len() > 0 && exists|i: int|
                0 <= i < blocks.len() && asks_for_a_search(#[trigger] blocks[i]) && query_in(blocks[i]) == queries[k] by {
                if k < old_queries.len() {
                    assert(old_queries[k] == queries[k]);
                    let i = choose|i: int|
                        0 <= i < before.len() && asks_for_a_search(#[trigger] before[i]) && query_in(before[i])
                            == old_queries[k];
                    assert(asks_for_a_search(blocks[i]) && query_in(blocks[i]) == queries[k]);
                } else {
                    assert(asks_for_a_search(blocks[blocks.len() - 1]));
                    assert(query_in(blocks[blocks.len() - 1]) == queries[k]);
                }
            }
        }
    }
}

/// The queries of a response are those of its calls of the query tool, each once, and of every call.
pub proof fn queries_are_those_asked_for(response: JsonV)
    ensures
        wanted(response) matches Ok(queries) ==> response.items_at("content"@) matches Some(blocks) && {
            &&& forall|i: int|
                0 <= i < blocks.len() && asks_for_a_search(#[trigger] blocks[i]) ==> queries.contains(query_in(blocks[i]))
            &&& forall|k: int|
                0 <= k < queries.len() ==> (#[trigger] queries[k]).len() > 0 && exists|i: int|
                    0 <= i < blocks.len() && asks_for_a_search(#[trigger] blocks[i]) && query_in(blocks[i]) == queries[k]
            &&& queries.no_duplicates()
            &&& queries.len() <= 4
            &&& queries.len() > 0 ==> response.text_at("stop_reason"@) == Some("tool_use"@)
        },
{
    if let Some(blocks) = response.items_at("content"@) {
        queries_so_far(blocks);
    }
}

proof fn nested_names_differ()
    ensures
        "model"@.len() == 5,
        "max_tokens"@.len() == 10,
        "stream"@.len() == 6,
        "messages"@.len() == 8,
        "tools"@.len() == 5,
        "tool_choice"@.len() == 11,
        "thinking"@.len() == 8,
        "model"@[0] == 'm',
        "tools"@[0] == 't',
        "messages"@[0] == 'm',
        "thinking"@[0] == 't',
        "role"@.len() == 4,
        "content"@.len() == 7,
{
    reveal_strlit("model");
    reveal_strlit("max_tokens");
    reveal_strlit("stream");
    reveal_strlit("messages");
    reveal_strlit("tools");
    reveal_strlit("tool_choice");
    reveal_strlit("thinking");
    reveal_strlit("role");
    reveal_strlit("content");
}

proof fn turns_tell(role: Seq<char>, content: JsonV)
    ensures
        ({
            let turn = JsonV::object().and("role"@, JsonV::Str(role)).and("content"@, content);
            turn.text_at("role"@) == Some(role) && turn.get("content"@) == Some(content)
        }),
{
    nested_names_differ();
    let turn = JsonV::object().and("role"@, JsonV::Str(role)).and("content"@, content);
    let entries = turn->Object_0;
    assert(entries.len() == 2 && entries[0].0 == "role"@ && entries[1].0 == "content"@);
    key_index_is(entries, "role"@, 0);
    key_index_is(entries, "content"@, 1);
}

/// The search is run by the same model, within the budget of the request, with the typed tool of the client and the
/// queries as data.
pub proof fn searches_are_run_as_planned(main_request: JsonV, server_tool: JsonV, queries: Seq<Seq<char>>)
    ensures
        nested_call(main_request, server_tool, queries) matches Ok(request) ==> {
            &&& request.text_at("model"@) is Some && request.text_at("model"@) == main_request.text_at("model"@)
            &&& request.unsigned_at("max_tokens"@) matches Some(n) && main_request.unsigned_at("max_tokens"@) matches Some(m)
                && 0 < n <= m && n <= 4096 && (n == m || n == 4096)
            &&& request.get("stream"@) == Some(JsonV::Bool(false))
            &&& request.items_at("tools"@) == Some(seq![server_tool])
            &&& request.get("tool_choice"@) matches Some(choice) && choice.text_at("name"@) == Some("web_search"@)
                && choice.text_at("type"@) == Some("tool"@)
            &&& request.get("thinking"@) matches Some(thinking) && thinking.text_at("type"@) == Some("disabled"@)
            &&& request.items_at("messages"@) matches Some(turns) && turns.len() == 1 && turns[0].text_at("role"@) == Some(
                "user"@,
            ) && (turns[0].text_at("content"@) matches Some(prompt) && rendered(JsonV::Array(text_items(queries))).is_suffix_of(
                prompt,
            ))
        },
        queries.len() == 0 ==> nested_call(main_request, server_tool, queries) is Err,
{
    nested_names_differ();
    reveal_strlit("type");
    reveal_strlit("name");
    assert("type"@[0] == 't' && "name"@[0] == 'n');
    if let Ok(request) = nested_call(main_request, server_tool, queries) {
        let prompt = crate::kimi_web_search_adapter::NESTED_PROMPT@ + rendered(JsonV::Array(text_items(queries)));
        turns_tell("user"@, JsonV::Str(prompt));
        let entries = request->Object_0;
        assert(entries.len() == 7);
        assert(entries[0].0 == "model"@ && entries[1].0 == "max_tokens"@ && entries[2].0 == "stream"@);
        assert(entries[3].0 == "messages"@ && entries[4].0 == "tools"@ && entries[5].0 == "tool_choice"@);
        assert(entries[6].0 == "thinking"@);
        key_index_is(entries, "model"@, 0);
        key_index_is(entries, "max_tokens"@, 1);
        key_index_is(entries, "stream"@, 2);
        key_index_is(entries, "messages"@, 3);
        key_index_is(entries, "tools"@, 4);
        key_index_is(entries, "tool_choice"@, 5);
        key_index_is(entries, "thinking"@, 6);
        let choice = type_only("tool"@).and("name"@, JsonV::Str("web_search"@));
        let fields = choice->Object_0;
        assert(fields.len() == 2 && fields[0].0 == "type"@ && fields[1].0 == "name"@);
        key_index_is(fields, "type"@, 0);
        key_index_is(fields, "name"@, 1);
        let off = type_only("disabled"@)->Object_0;
        assert(off.len() == 1 && off[0].0 == "type"@);
        key_index_is(off, "type"@, 0);
        let tail = rendered(JsonV::Array(text_items(queries)));
        assert(prompt.skip(prompt.len() - tail.len()) =~= tail);
    }
}

/// Whether a result for an id stands among blocks.
pub open spec fn is_answered(blocks: Seq<JsonV>, id: Seq<char>) -> bool {
    exists|i: int|
        0 <= i < blocks.len() && (#[trigger] blocks[i]).text_at("type"@) == Some("web_search_tool_result"@)
            && blocks[i].text_at("tool_use_id"@) == Some(id)
}

proof fn pairs_so_far(blocks: Seq<JsonV>)
    ensures
        paired(blocks) matches Ok(s) ==> {
            &&& forall|i: int|
                0 <= i < blocks.len() && (#[trigger] blocks[i]).text_at("type"@) == Some("server_tool_use"@)
                    ==> blocks[i].text_at("name"@) == Some("web_search"@) && s.uses.contains(
                    text_or_empty(blocks[i], "id"@),
                ) && text_or_empty(blocks[i], "id"@).len() > 0
            &&& forall|i: int|
                0 <= i < blocks.len() && (#[trigger] blocks[i]).text_at("type"@) == Some("web_search_tool_result"@)
                    ==> (blocks[i].text_at("tool_use_id"@) matches Some(id) && s.uses.contains(id))
            &&& forall|k: int| 0 <= k < s.matched.len() ==> is_answered(blocks, #[trigger] s.matched[k])
            &&& s.uses.len() > 0 ==> exists|i: int|
                0 <= i < blocks.len() && (#[trigger] blocks[i]).text_at("type"@) == Some("server_tool_use"@)
        },
    decreases blocks.len(),
{
    reveal_strlit("server_tool_use");
    reveal_strlit("web_search_tool_result");
    reveal_strlit("text");
    reveal_strlit("");
    assert("server_tool_use"@.len() == 15 && "web_search_tool_result"@.len() == 22 && "text"@.len() == 4);
    if blocks.len() > 0 {
        let before = blocks.drop_last();
        pairs_so_far(before);
        if let Ok(s) = paired(blocks) {
            let t = paired(before)->Ok_0;
            let last = blocks.last();
            assert(forall|i: int| 0 <= i < before.len() ==> #[trigger] before[i] == blocks[i]);
            assert(forall|k: int| 0 <= k < t.uses.len() ==> #[trigger] s.uses[k] == t.uses[k]);
            assert(forall|k: int| 0 <= k < t.matched.len() ==> #[trigger] s.matched[k] == t.matched[k]);
            assert forall|i: int|
                0 <= i < blocks.len() && (#[trigger] blocks[i]).text_at("type"@) == Some("server_tool_use"@) implies blocks[i].text_at(
                "name"@,
            ) == Some("web_search"@) && s.uses.contains(text_or_empty(blocks[i], "id"@)) && text_or_empty(
                blocks[i],
                "id"@,
            ).len() > 0 by {
                if i < before.len() {
                    assert(before[i].text_at("type"@) == Some("server_tool_use"@));
                    let id = text_or_empty(before[i], "id"@);
                    let k = choose|k: int| 0 <= k < t.uses.len() && t.uses[k] == id;
                    assert(s.uses[k] == id);
                } else {
                    assert(s.uses[s.uses.len() - 1] == text_or_empty(last, "id"@));
                }
            }
            assert forall|i: int|
                0 <= i < blocks.len() && (#[trigger] blocks[i]).text_at("type"@) == Some(
                    "web_search_tool_result"@,
                ) implies (blocks[i].text_at("tool_use_id"@) matches Some(id) && s.uses.contains(id)) by {
                if i < before.len() {
                    assert(before[i].text_at("type"@) == Some("web_search_tool_result"@));
                    let id = before[i].text_at("tool_use_id"@).unwrap();
                    let k = choose|k: int| 0 <= k < t.uses.len() && t.uses[k] == id;
                    assert(s.uses[k] == id);
                }
            }
            assert forall|k: int| 0 <= k < s.matched.len() implies is_answered(blocks, #[trigger] s.matched[k]) by {
                if k < t.matched.len() {
                    assert(t.matched[k] == s.matched[k]);
                    let i = choose|i: int|
                        0 <= i < before.len() && (#[trigger] before[i]).text_at("type"@) == Some("web_search_tool_result"@)
                            && before[i].text_at("tool_use_id"@) == Some(t.matched[k]);
                    assert(blocks[i].text_at("tool_use_id"@) == Some(s.matched[k]));
                } else {
                    assert(blocks[blocks.len() - 1].text_at("tool_use_id"@) == Some(s.matched[k]));
                }
            }
            if s.uses.len() > 0 {
                if t.uses.len() > 0 {
                    let i = choose|i: int|
                        0 <= i < before.len() && (#[trigger] before[i]).text_at("type"@) == Some("server_tool_use"@);
                    assert(blocks[i].text_at("type"@) == Some("server_tool_use"@));
                } else {
                    assert(blocks[blocks.len() - 1].text_at("type"@) == Some("server_tool_use"@));
                }
            }
        }
    }
}

/// A search that counts ran to its end: it asked for something, every call of it has its result, and it used no other
/// tool.
pub proof fn accepted_searches_are_complete(response: JsonV)
    ensures
        nested_verdict(response) is Ok ==> {
            &&& response.text_at("stop_reason"@) == Some("end_turn"@)
            &&& response.items_at("content"@) matches Some(blocks) && {
                &&& exists|i: int|
                    0 <= i < blocks.len() && (#[trigger] blocks[i]).text_at("type"@) == Some("server_tool_use"@)
                &&& forall|i: int|
                    0 <= i < blocks.len() && (#[trigger] blocks[i]).text_at("type"@) == Some("server_tool_use"@)
                        ==> blocks[i].text_at("name"@) == Some("web_search"@) && (blocks[i].text_at("id"@) matches Some(id)
                        && id.len() > 0 && is_answered(blocks, id))
            }
        },
{
    reveal_strlit("");
    if nested_verdict(response) is Ok {
        let blocks = response.items_at("content"@).unwrap();
        pairs_so_far(blocks);
        let s = paired(blocks)->Ok_0;
        assert forall|i: int|
            0 <= i < blocks.len() && (#[trigger] blocks[i]).text_at("type"@) == Some("server_tool_use"@) implies blocks[i].text_at(
            "name"@,
        ) == Some("web_search"@) && (blocks[i].text_at("id"@) matches Some(id) && id.len() > 0 && is_answered(
            blocks,
            id,
        )) by {
            let id = text_or_empty(blocks[i], "id"@);
            let k = choose|k: int| 0 <= k < s.uses.len() && s.uses[k] == id;
            assert(s.matched.contains(s.uses[k]));
            let m = choose|m: int| 0 <= m < s.matched.len() && s.matched[m] == id;
            assert(is_answered(blocks, s.matched[m]));
        }
    }
}

/// Two counters are added, and a sum that does not fit is refused.
pub proof fn counters_are_added(a: u64, b: u64)
    ensures
        a + b <= u64::MAX ==> summed(number(a), number(b)) == Some(number((a + b) as u64)),
        a + b > u64::MAX ==> summed(number(a), number(b)) is None,
{
}

proof fn entries_are_added(left: JsonV, entries: Seq<(Seq<char>, JsonV)>, key: Seq<char>)
    requires
        left is Object,
        keys_are_distinct(JsonV::Object(entries)),
    ensures
        summed_entries(left, entries) matches Some(sum) ==> {
            &&& sum is Object
            &&& JsonV::Object(entries).get(key) is None ==> sum.get(key) == left.get(key)
            &&& JsonV::Object(entries).get(key) is Some ==> sum.get(key) is Some
            &&& JsonV::Object(entries).get(key) matches Some(more) ==> sum.get(key) == (match left.get(key) {
                Some(there) => summed(there, more),
                None => Some(more),
            })
        },
    decreases entries.len(),
{
    let all = JsonV::Object(entries);
    if entries.len() > 0 {
        let before = entries.drop_last();
        let last = entries.last();
        assert forall|i: int, j: int| 0 <= i < j < before.len() implies (#[trigger] before[i]).0 != (#[trigger] before[j]).0 by {
            assert(entries[i].0 != entries[j].0);
        }
        entries_are_added(left, before, key);
        entries_are_added(left, before, last.0);
        crate::json_model::key_index_finds(before, last.0);
        crate::json_model::key_index_finds(before, key);
        crate::json_model::key_index_finds(entries, key);
        let end = entries.len() - 1;
        let p = crate::json_model::key_index(before, last.0);
        if p < before.len() {
            assert(before[p].0 == last.0);
            assert(entries[p].0 != entries[end].0);
        }
        assert(JsonV::Object(before).get(last.0) is None);
        if key == last.0 {
            key_index_is(entries, key, end);
        } else {
            let q = crate::json_model::key_index(before, key);
            if q < before.len() {
                assert forall|i: int| 0 <= i < q implies (#[trigger] entries[i]).0 != key by {
                    assert(before[i].0 != key);
                }
                assert(entries[q] == before[q]);
                key_index_is(entries, key, q);
            } else {
                assert forall|i: int| 0 <= i < entries.len() implies (#[trigger] entries[i]).0 != key by {
                    if i < before.len() {
                        assert(before[i].0 != key);
                    }
                }
                key_index_is(entries, key, entries.len() as int);
            }
        }
        if let Some(sum) = summed_entries(left, before) {
            let merged = match sum.get(last.0) {
                Some(existing) => summed(existing, last.1),
                None => Some(last.1),
            };
            if let Some(value) = merged {
                with_gives(sum, last.0, value);
            }
        }
    } else {
        assert(entries =~= Seq::empty());
    }
}

/// The counters of two stages are added up name by name; what one stage alone counted stays.
pub proof fn usage_is_added_up(left: JsonV, right: JsonV, key: Seq<char>)
    requires
        left is Object,
        right is Object,
        keys_are_distinct(right),
    ensures
        summed(left, right) matches Some(sum) ==> {
            &&& right.get(key) is None ==> sum.get(key) == left.get(key)
            &&& left.get(key) is None ==> sum.get(key) == right.get(key)
            &&& left.unsigned_at(key) matches Some(a) ==> right.unsigned_at(key) matches Some(b) ==> a + b <= u64::MAX
                && sum.unsigned_at(key) == Some((a + b) as u64)
        },
{
    let entries = right->Object_0;
    entries_are_added(left, entries, key);
    assert(summed(left, right) == summed_entries(left, entries));
    if let Some(a) = left.unsigned_at(key) {
        if let Some(b) = right.unsigned_at(key) {
            counters_are_added(a, b);
            assert(left.get(key) == Some(number(a)) && right.get(key) == Some(number(b)));
        }
    }
}

proof fn kept_blocks(blocks: Seq<JsonV>)
    ensures
        without_calls(blocks) == blocks.filter(|block: JsonV| !asks_for_a_search(block)),
    decreases blocks.len(),
{
    reveal(Seq::filter);
    if blocks.len() > 0 {
        kept_blocks(blocks.drop_last());
    }
}

/// The stages become one message: what the model said first, without its calls of the query tool; then the search; then
/// what was written of it. Everything else is as in the first response.
pub proof fn messages_hold_every_stage(first: JsonV, nested: JsonV, has_text: bool, synthesis: Option<JsonV>, key: Seq<char>)
    requires
        nested_verdict(nested) is Ok,
    ensures
        merged_message(first, nested, has_text, synthesis) matches Ok(message) ==> {
            &&& first.items_at("content"@) matches Some(said) && nested.items_at("content"@) matches Some(found)
                && message.items_at("content"@) == Some(
                said.filter(|block: JsonV| !asks_for_a_search(block)) + found + (match synthesis {
                    Some(written) => match written.items_at("content"@) {
                        Some(blocks) => blocks,
                        None => Seq::empty(),
                    },
                    None => Seq::empty(),
                }),
            )
            &&& key != "content"@ && key != "stop_reason"@ && key != "stop_sequence"@ && key != "usage"@ ==> message.get(key)
                == first.get(key)
            &&& message.text_at("stop_reason"@) == Some("tool_use"@) || message.text_at("stop_reason"@) == Some("end_turn"@)
        },
{
    reveal_strlit("content");
    reveal_strlit("stop_reason");
    reveal_strlit("stop_sequence");
    reveal_strlit("usage");
    assert("content"@.len() == 7 && "stop_reason"@.len() == 11 && "stop_sequence"@.len() == 13 && "usage"@.len() == 5);
    if let Ok(message) = merged_message(first, nested, has_text, synthesis) {
        let said = first.items_at("content"@).unwrap();
        kept_blocks(said);
        let blocks = merged_blocks(first, nested, synthesis);
        let reason = if calls_client(blocks) {
            "tool_use"@
        } else {
            "end_turn"@
        };
        let sequence = match (synthesis, nested.get("stop_sequence"@)) {
            (Some(response), other) => match response.get("stop_sequence"@) {
                Some(v) => v,
                None => match other {
                    Some(v) => v,
                    None => JsonV::Null,
                },
            },
            (None, Some(v)) => v,
            (None, None) => JsonV::Null,
        };
        let usage = crate::kimi_web_search_adapter::merged_usage(first, nested, synthesis)->Ok_0;
        let a = first.with("content"@, JsonV::Array(blocks));
        let b = a.with("stop_reason"@, JsonV::Str(reason));
        let c = b.with("stop_sequence"@, sequence);
        with_gives(first, "content"@, JsonV::Array(blocks));
        with_gives(a, "stop_reason"@, JsonV::Str(reason));
        with_gives(b, "stop_sequence"@, sequence);
        with_gives(c, "usage"@, usage);
        assert(message == c.with("usage"@, usage));
    }
}

proof fn ids_of_calls(blocks: Seq<JsonV>)
    ensures
        call_ids(blocks) matches Ok(ids) ==> forall|i: int|
            0 <= i < blocks.len() && asks_for_a_search(#[trigger] blocks[i]) ==> ids.contains(text_or_empty(blocks[i], "id"@)),
    decreases blocks.len(),
{
    if blocks.len() > 0 {
        let before = blocks.drop_last();
        ids_of_calls(before);
        if let Ok(ids) = call_ids(blocks) {
            let old_ids = call_ids(before)->Ok_0;
            assert(forall|i: int| 0 <= i < before.len() ==> #[trigger] before[i] == blocks[i]);
            assert(forall|k: int| 0 <= k < old_ids.len() ==> #[trigger] ids[k] == old_ids[k]);
            assert forall|i: int| 0 <= i < blocks.len() && asks_for_a_search(#[trigger] blocks[i]) implies ids.contains(
                text_or_empty(blocks[i], "id"@),
            ) by {
                if i < before.len() {
                    assert(asks_for_a_search(before[i]));
                    let k = choose|k: int| 0 <= k < old_ids.len() && old_ids[k] == text_or_empty(before[i], "id"@);
                    assert(ids[k] == text_or_empty(blocks[i], "id"@));
                } else {
                    assert(ids[ids.len() - 1] == text_or_empty(blocks[i], "id"@));
                }
            }
        }
    }
}

proof fn answers_tell(ids: Seq<Seq<char>>, i: int, evidence: Seq<char>)
    requires
        0 <= i < ids.len(),
    ensures
        tool_answer(ids, i, evidence).text_at("type"@) == Some("tool_result"@),
        tool_answer(ids, i, evidence).text_at("tool_use_id"@) == Some(ids[i]),
        i == 0 ==> (tool_answer(ids, i, evidence).text_at("content"@) matches Some(text) && evidence.is_suffix_of(text)),
{
    reveal_strlit("type");
    reveal_strlit("tool_use_id");
    reveal_strlit("content");
    assert("type"@.len() == 4 && "tool_use_id"@.len() == 11 && "content"@.len() == 7);
    let entries = tool_answer(ids, i, evidence)->Object_0;
    assert(entries.len() == 3);
    assert(entries[0].0 == "type"@ && entries[1].0 == "tool_use_id"@ && entries[2].0 == "content"@);
    key_index_is(entries, "type"@, 0);
    key_index_is(entries, "tool_use_id"@, 1);
    key_index_is(entries, "content"@, 2);
    if i == 0 {
        let text = crate::kimi_web_search_adapter::EVIDENCE_PREFIX@ + evidence;
        assert(text.skip(text.len() - evidence.len()) =~= evidence);
    }
}

proof fn evidence_is_kept(blocks: Seq<JsonV>)
    ensures
        evidence_blocks(blocks) == blocks.filter(
            |block: JsonV|
                block.text_at("type"@) == Some("server_tool_use"@) || block.text_at("type"@) == Some("web_search_tool_result"@),
        ),
    decreases blocks.len(),
{
    reveal(Seq::filter);
    if blocks.len() > 0 {
        evidence_is_kept(blocks.drop_last());
    }
}

/// The evidence of a search is every call and every result of it, in their order, and nothing is cut short.
pub proof fn evidence_is_whole(nested: JsonV)
    ensures
        evidence_text(nested) matches Ok(text) ==> nested.items_at("content"@) matches Some(blocks) && text == rendered(
            JsonV::Array(
                blocks.filter(
                    |block: JsonV|
                        block.text_at("type"@) == Some("server_tool_use"@) || block.text_at("type"@) == Some(
                            "web_search_tool_result"@,
                        ),
                ),
            ),
        ) && encode_utf8(text).len() <= 524_288,
{
    if let Some(blocks) = nested.items_at("content"@) {
        evidence_is_kept(blocks);
    }
}

proof fn tools_without_the_query_tool(tools: Seq<JsonV>)
    ensures
        without_bridge(tools) == tools.filter(|tool: JsonV| tool.text_at("name"@) != Some("web_search"@)),
    decreases tools.len(),
{
    reveal(Seq::filter);
    if tools.len() > 0 {
        tools_without_the_query_tool(tools.drop_last());
    }
}

proof fn a_choice_alone_changes(body: JsonV, key: Seq<char>)
    requires
        keys_are_distinct(body),
        body is Object,
    ensures
        key != "tool_choice"@ ==> fitting_tool_choice(body).get(key) == body.get(key),
{
    taking_out_keeps_the_rest(body, "tool_choice"@, key);
    with_gives(body, "tool_choice"@, type_only("auto"@));
}

/// The answer is written from the whole conversation, the model's own turn with its calls, and an answer to every call
/// with the evidence of the search; the client's other tools and settings stay.
pub proof fn answers_are_written_from_the_evidence(client: ClientV, body: JsonV, first: JsonV, nested: JsonV, key: Seq<char>)
    requires
        keys_are_distinct(body),
    ensures
        synthesis_call(client, body, first, nested) matches Ok(request) ==> {
            &&& body.items_at("messages"@) matches Some(turns) && request.items_at("messages"@) matches Some(sent)
                && first.items_at("content"@) matches Some(said) && evidence_text(nested) matches Ok(evidence) && {
                &&& sent.len() == turns.len() + 2
                &&& turns.is_prefix_of(sent)
                &&& sent[turns.len() as int].text_at("role"@) == Some("assistant"@)
                &&& sent[turns.len() as int].items_at("content"@) == Some(said)
                &&& sent[turns.len() as int + 1].text_at("role"@) == Some("user"@)
                &&& sent[turns.len() as int + 1].items_at("content"@) matches Some(answers) && {
                    &&& answers.len() > 1
                    &&& answers[0].text_at("content"@) matches Some(text) && evidence.is_suffix_of(text)
                    &&& forall|i: int|
                        0 <= i < said.len() && asks_for_a_search(#[trigger] said[i]) ==> exists|k: int|
                            0 <= k < answers.len() && (#[trigger] answers[k]).text_at("tool_use_id"@) == Some(
                                text_or_empty(said[i], "id"@),
                            ) && answers[k].text_at("type"@) == Some("tool_result"@)
                }
            }
            &&& request.get("stream"@) == Some(JsonV::Bool(false))
            &&& request.unsigned_at("max_tokens"@) matches Some(n) && body.unsigned_at("max_tokens"@) matches Some(m) && (n == m
                || n == 8192 && n <= m)
            &&& body.items_at("tools"@) matches Some(tools) ==> ({
                let left = tools.filter(|tool: JsonV| tool.text_at("name"@) != Some("web_search"@));
                left.len() > 0 ==> request.items_at("tools"@) == Some(left)
            })
            &&& key != "messages"@ && key != "stream"@ && key != "max_tokens"@ && key != "tools"@ && key != "tool_choice"@
                ==> request.get(key) == body.get(key)
        },
{
    nested_names_differ();
    if let Ok(request) = synthesis_call(client, body, first, nested) {
        let said = first.items_at("content"@).unwrap();
        let ids = call_ids(said)->Ok_0;
        let evidence = evidence_text(nested)->Ok_0;
        let answers = tool_answers(client, ids, evidence);
        ids_of_calls(said);
        answers_tell(ids, 0, evidence);
        assert(answers[0] == tool_answer(ids, 0, evidence));
        assert forall|i: int| 0 <= i < said.len() && asks_for_a_search(#[trigger] said[i]) implies exists|k: int|
            0 <= k < answers.len() && (#[trigger] answers[k]).text_at("tool_use_id"@) == Some(text_or_empty(said[i], "id"@))
                && answers[k].text_at("type"@) == Some("tool_result"@) by {
            let id = text_or_empty(said[i], "id"@);
            let k = choose|k: int| 0 <= k < ids.len() && ids[k] == id;
            answers_tell(ids, k, evidence);
            assert(answers[k] == tool_answer(ids, k, evidence));
        }
        let turns = body.items_at("messages"@).unwrap();
        let one = JsonV::object().and("role"@, JsonV::Str("assistant"@)).and("content"@, JsonV::Array(said));
        let two = JsonV::object().and("role"@, JsonV::Str("user"@)).and("content"@, JsonV::Array(answers));
        turns_tell("assistant"@, JsonV::Array(said));
        turns_tell("user"@, JsonV::Array(answers));
        let sent = turns.push(one).push(two);
        assert(sent.take(turns.len() as int) =~= turns);
        let most = number(crate::kimi_web_search_adapter::least(body.unsigned_at("max_tokens"@).unwrap(), 8192));
        let limited = body.with("max_tokens"@, most);
        with_gives(body, "max_tokens"@, most);
        giving_keeps_keys(body, "max_tokens"@, most);
        let told = limited.with("messages"@, JsonV::Array(sent));
        with_gives(limited, "messages"@, JsonV::Array(sent));
        giving_keeps_keys(limited, "messages"@, JsonV::Array(sent));
        let armed = match told.items_at("tools"@) {
            Some(tools) => if without_bridge(tools).len() == 0 {
                told.without("tools"@)
            } else {
                told.with("tools"@, JsonV::Array(without_bridge(tools)))
            },
            None => told,
        };
        if let Some(tools) = told.items_at("tools"@) {
            tools_without_the_query_tool(tools);
            with_gives(told, "tools"@, JsonV::Array(without_bridge(tools)));
            giving_keeps_keys(told, "tools"@, JsonV::Array(without_bridge(tools)));
        }
        taking_out_keeps_the_rest(told, "tools"@, key);
        taking_out_keeps_the_rest(told, "tools"@, "messages"@);
        taking_out_keeps_the_rest(told, "tools"@, "max_tokens"@);
        let calm = armed.with("stream"@, JsonV::Bool(false));
        with_gives(armed, "stream"@, JsonV::Bool(false));
        giving_keeps_keys(armed, "stream"@, JsonV::Bool(false));
        a_choice_alone_changes(calm, key);
        a_choice_alone_changes(calm, "messages"@);
        a_choice_alone_changes(calm, "max_tokens"@);
        a_choice_alone_changes(calm, "tools"@);
        a_choice_alone_changes(calm, "stream"@);
        assert(request == fitting_tool_choice(calm));
    }
}

/// Whether a frame that brings a piece of a block stands among frames.
pub open spec fn brings(frames: Seq<Seq<u8>>, index: u64, key: Seq<char>, text: Seq<char>) -> bool {
    exists|tree: JsonV|
        #![trigger sse_bytes(Some("content_block_delta"@), tree)]
        frames.contains(sse_bytes(Some("content_block_delta"@), tree)) && tree.unsigned_at("index"@) == Some(index) && (
        tree.get("delta"@) matches Some(delta) && delta.text_at(key) == Some(text))
}

proof fn deltas_bring(frames: Seq<Seq<u8>>, index: u64, kind: Seq<char>, key: Seq<char>, text: Seq<char>)
    requires
        frames.contains(delta_frame(index, typed_block(kind, key, text))),
        key != "type"@,
    ensures
        brings(frames, index, key, text),
{
    reveal_strlit("type");
    reveal_strlit("index");
    reveal_strlit("delta");
    assert("type"@.len() == 4 && "index"@.len() == 5 && "delta"@.len() == 5 && "index"@[0] == 'i' && "delta"@[0] == 'd');
    let block = typed_block(kind, key, text);
    let tree = type_only("content_block_delta"@).and("index"@, number(index)).and("delta"@, block);
    let entries = tree->Object_0;
    assert(entries.len() == 3 && entries[0].0 == "type"@ && entries[1].0 == "index"@ && entries[2].0 == "delta"@);
    key_index_is(entries, "index"@, 1);
    key_index_is(entries, "delta"@, 2);
    let fields = block->Object_0;
    assert(fields.len() == 2 && fields[0].0 == "type"@ && fields[1].0 == key);
    key_index_is(fields, key, 1);
    assert(sse_bytes(Some("content_block_delta"@), tree) == delta_frame(index, block));
}

proof fn blocks_are_framed(blocks: Seq<JsonV>, i: int)
    requires
        0 <= i < blocks.len(),
        blocks.len() <= u64::MAX,
    ensures
        framed_blocks(blocks) matches Ok(frames) ==> (framed_block(i as u64, blocks[i]) matches Ok(some) && forall|k: int|
            0 <= k < some.len() ==> frames.contains(#[trigger] some[k])),
    decreases blocks.len(),
{
    if let Ok(frames) = framed_blocks(blocks) {
        let before = framed_blocks(blocks.drop_last())->Ok_0;
        let more = framed_block((blocks.len() - 1) as u64, blocks.last())->Ok_0;
        if i < blocks.len() - 1 {
            blocks_are_framed(blocks.drop_last(), i);
            let some = framed_block(i as u64, blocks[i])->Ok_0;
            assert forall|k: int| 0 <= k < some.len() implies frames.contains(#[trigger] some[k]) by {
                let m = choose|m: int| 0 <= m < before.len() && before[m] == some[k];
                assert(frames[m] == some[k]);
            }
        } else {
            assert forall|k: int| 0 <= k < more.len() implies frames.contains(#[trigger] more[k]) by {
                assert(frames[before.len() + k] == more[k]);
            }
        }
    }
}

/// The frames of a message bring every block of it under its number: its text, its thinking and its input, whole.
pub proof fn frames_bring_every_block(message: JsonV, i: int)
    ensures
        message_frames(message) matches Ok(frames) ==> message.items_at("content"@) matches Some(blocks) && (0 <= i
            < blocks.len() <= u64::MAX ==> {
            &&& blocks[i].text_at("type"@) == Some("text"@) ==> (blocks[i].text_at("text"@) matches Some(text) && (text.len() > 0
                ==> brings(frames, i as u64, "text"@, text)))
            &&& blocks[i].text_at("type"@) == Some("thinking"@) ==> (blocks[i].text_at("thinking"@) matches Some(thought) && (
            thought.len() > 0 ==> brings(frames, i as u64, "thinking"@, thought)))
            &&& blocks[i].text_at("type"@) == Some("tool_use"@) ==> (blocks[i].get("input"@) matches Some(input) && brings(
                frames,
                i as u64,
                "partial_json"@,
                rendered(input),
            ))
        }),
{
    reveal_strlit("type");
    reveal_strlit("text");
    reveal_strlit("thinking");
    reveal_strlit("tool_use");
    reveal_strlit("server_tool_use");
    reveal_strlit("partial_json");
    assert("type"@.len() == 4 && "text"@.len() == 4 && "thinking"@.len() == 8 && "tool_use"@.len() == 8);
    assert("type"@[1] == 'y' && "text"@[1] == 'e' && "thinking"@[1] == 'h' && "tool_use"@[1] == 'o');
    assert("server_tool_use"@.len() == 15 && "partial_json"@.len() == 12);
    if let Ok(frames) = message_frames(message) {
        let blocks = message.items_at("content"@).unwrap();
        if 0 <= i < blocks.len() <= u64::MAX {
            blocks_are_framed(blocks, i);
            let inner = framed_blocks(blocks)->Ok_0;
            let some = framed_block(i as u64, blocks[i])->Ok_0;
            assert forall|k: int| 0 <= k < some.len() implies frames.contains(#[trigger] some[k]) by {
                let m = choose|m: int| 0 <= m < inner.len() && inner[m] == some[k];
                assert(frames[m + 1] == some[k]);
            }
            let block = blocks[i];
            if block.text_at("type"@) == Some("text"@) {
                let text = block.text_at("text"@).unwrap();
                if text.len() > 0 {
                    assert(some[1] == delta_frame(i as u64, typed_block("text_delta"@, "text"@, text)));
                    deltas_bring(frames, i as u64, "text_delta"@, "text"@, text);
                }
            } else if block.text_at("type"@) == Some("thinking"@) {
                let thought = block.text_at("thinking"@).unwrap();
                if thought.len() > 0 {
                    assert(some[1] == delta_frame(i as u64, typed_block("thinking_delta"@, "thinking"@, thought)));
                    deltas_bring(frames, i as u64, "thinking_delta"@, "thinking"@, thought);
                }
            } else if block.text_at("type"@) == Some("tool_use"@) {
                let input = block.get("input"@).unwrap();
                assert(some[1] == delta_frame(i as u64, typed_block("input_json_delta"@, "partial_json"@, rendered(input))));
                deltas_bring(frames, i as u64, "input_json_delta"@, "partial_json"@, rendered(input));
            }
        }
    }
}

/// A call of the query tool at the end of a search is left out, and nothing else.
pub proof fn trailing_calls_alone_are_left_out(response: JsonV, key: Seq<char>)
    ensures
        ({
            let (left, n) = without_tail(response);
            match response.items_at("content"@) {
                Some(blocks) => {
                    &&& n == 0 ==> left == response
                    &&& n != 0 ==> n == 1 && blocks.len() > 0 && asks_for_a_search(blocks.last()) && left.items_at("content"@)
                        == Some(blocks.drop_last()) && left.text_at("stop_reason"@) == Some("end_turn"@)
                    &&& blocks.len() > 0 && asks_for_a_search(blocks.last()) ==> n == 1
                    &&& key != "content"@ && key != "stop_reason"@ ==> left.get(key) == response.get(key)
                },
                None => left == response && n == 0,
            }
        }),
{
    reveal_strlit("content");
    reveal_strlit("stop_reason");
    assert("content"@.len() == 7 && "stop_reason"@.len() == 11);
    if let Some(blocks) = response.items_at("content"@) {
        if blocks.len() > 0 {
            with_gives(response, "content"@, JsonV::Array(blocks.drop_last()));
            with_gives(
                response.with("content"@, JsonV::Array(blocks.drop_last())),
                "stop_reason"@,
                JsonV::Str("end_turn"@),
            );
        }
    }
}

} // verus!
