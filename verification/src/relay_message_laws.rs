//! What a request for Kimi keeps of the conversation that came.
use crate::anthropic_compat::{
    declares_web_search, document_note, ends_with_snapshot, flavor_of, flavored_history, flavored_thinking,
    flavored_tools, has_word, is_compute_snapshot, is_document, last_two_swapped, noted_block, noted_body,
    noted_message, paired_message, paired_messages, pairing_scan, pairing_step, plain_text, relayed, reordered_body,
    search_call, DOCUMENT_NOTE_END, DOCUMENT_NOTE_START, RelayFlavor,
};
use crate::deepseek_normal_laws::well_keyed;
use crate::deepseek_compat::block_ids;
use crate::deepseek_kept_laws::{
    gathered, is_plain_kind, kind_pick, nothing_that_was_said_is_lost, stands_within, text_pick, thought_pick,
};
use crate::json::JsonV;
use crate::json_model::{key_index_is, with_gives};
use crate::relay_request_laws::{flavored_thinking_differs, flavored_tools_differ, steps_of_a_request};
use crate::text::{has_part, lowered, stands_at};
use vstd::prelude::*;

verus! {

/// Whether a block is part of a search by the server.
pub open spec fn is_search_part(block: JsonV) -> bool {
    block.text_at("type"@) == Some("server_tool_use"@) || block.text_at("type"@) == Some("web_search_tool_result"@)
}

/// Whether a block is a search result that holds something.
pub open spec fn is_full_result(block: JsonV) -> bool {
    block.text_at("type"@) == Some("web_search_tool_result"@) && (block.items_at("content"@) matches Some(items)
        && items.len() > 0)
}

/// Whether a block that is sent stands for one that came: it is that block, or the note on a document, which tells
/// the kind of the document.
pub open spec fn stands_for(sent: JsonV, came: JsonV) -> bool {
    if came.text_at("type"@) == Some("document"@) {
        &&& sent.text_at("type"@) == Some("text"@)
        &&& came.get("source"@) matches Some(source) ==> (source.text_at("media_type"@) matches Some(kind) ==> (sent.text_at(
            "text"@,
        ) matches Some(note) && has_part(note, kind)))
    } else {
        sent == came
    }
}

/// Whether the blocks that are sent carry those that came: all but the parts of searches stand in their order, no
/// search result with something in it is lost, and no call of a search.
pub open spec fn carries_blocks(sent: Seq<JsonV>, came: Seq<JsonV>) -> bool {
    let plain = |block: JsonV| !is_search_part(block);
    let full = |block: JsonV| is_full_result(block);
    &&& sent.filter(plain).len() == came.filter(plain).len()
    &&& forall|i: int| 0 <= i < sent.filter(plain).len() ==> stands_for(#[trigger] sent.filter(plain)[i], came.filter(plain)[i])
    &&& sent.filter(full).len() == came.filter(full).len()
    &&& forall|i: int|
        0 <= i < sent.filter(full).len() ==> (#[trigger] sent.filter(full)[i]).get("content"@) == came.filter(full)[i].get(
            "content"@,
        )
    &&& forall|i: int|
        0 <= i < came.len() && (#[trigger] came[i]).text_at("type"@) == Some("server_tool_use"@) ==> sent.contains(came[i])
}

/// Whether a message that is sent carries one that came: whose it is and everything beside its content, a content
/// that is text, and the blocks of any other.
pub open spec fn carries(sent: JsonV, came: JsonV) -> bool {
    &&& forall|key: Seq<char>| key != "content"@ ==> #[trigger] sent.get(key) == came.get(key)
    &&& match came.items_at("content"@) {
        Some(blocks) => sent.items_at("content"@) matches Some(now) && carries_blocks(now, blocks),
        None => sent.get("content"@) == came.get("content"@),
    }
}

proof fn block_words_differ()
    ensures
        "type"@ != "content"@,
        "type"@ != "tool_use_id"@,
        "content"@ != "tool_use_id"@,
        "server_tool_use"@ != "web_search_tool_result"@,
        "server_tool_use"@ != "document"@,
        "server_tool_use"@ != "text"@,
        "web_search_tool_result"@ != "document"@,
        "web_search_tool_result"@ != "text"@,
        "document"@ != "text"@,
{
    reveal_strlit("type");
    reveal_strlit("content");
    reveal_strlit("tool_use_id");
    reveal_strlit("server_tool_use");
    reveal_strlit("web_search_tool_result");
    reveal_strlit("document");
    reveal_strlit("text");
    assert("type"@.len() == 4 && "content"@.len() == 7 && "tool_use_id"@.len() == 11);
    assert("server_tool_use"@.len() == 15 && "web_search_tool_result"@.len() == 22);
    assert("document"@.len() == 8 && "text"@.len() == 4);
}

proof fn notes_stand_for_documents(block: JsonV)
    requires
        is_document(block),
    ensures
        stands_for(document_note(block), block),
        !is_search_part(document_note(block)),
        !is_full_result(document_note(block)),
        !is_search_part(block),
{
    block_words_differ();
    let note = document_note(block);
    let entries = note->Object_0;
    assert(entries.len() == 2);
    assert(entries[0] == ("type"@, JsonV::Str("text"@)));
    assert(entries[1].0 == "text"@);
    reveal_strlit("type");
    reveal_strlit("text");
    assert("type"@[0] == 't' && "type"@[1] == 'y' && "text"@[1] == 'e');
    key_index_is(entries, "type"@, 0);
    key_index_is(entries, "text"@, 1);
    if let Some(source) = block.get("source"@) {
        if let Some(kind) = source.text_at("media_type"@) {
            let text = DOCUMENT_NOTE_START@ + kind + DOCUMENT_NOTE_END@;
            assert(note.text_at("text"@) == Some(text));
            let at = DOCUMENT_NOTE_START@.len() as int;
            assert(text.subrange(at, at + kind.len()) =~= kind);
            assert(stands_at(text, kind, at));
        }
    }
}

proof fn noted_blocks_carry(blocks: Seq<JsonV>)
    ensures
        carries_blocks(blocks.map_values(|block: JsonV| noted_block(block)), blocks),
    decreases blocks.len(),
{
    reveal(Seq::filter);
    block_words_differ();
    let plain = |block: JsonV| !is_search_part(block);
    let full = |block: JsonV| is_full_result(block);
    let now = blocks.map_values(|block: JsonV| noted_block(block));
    if blocks.len() > 0 {
        let before = blocks.drop_last();
        let block = blocks.last();
        let done = before.map_values(|b: JsonV| noted_block(b));
        noted_blocks_carry(before);
        assert(now.drop_last() =~= done);
        if is_document(block) {
            notes_stand_for_documents(block);
        }
        assert(now.last() == noted_block(block));
        assert(plain(now.last()) == plain(block) && full(now.last()) == full(block));
        let a = now.filter(plain);
        let b = blocks.filter(plain);
        assert forall|i: int| 0 <= i < a.len() implies stands_for(#[trigger] a[i], b[i]) by {
            if i < done.filter(plain).len() {
                assert(a[i] == done.filter(plain)[i]);
                assert(b[i] == before.filter(plain)[i]);
            }
        }
        let c = now.filter(full);
        let d = blocks.filter(full);
        assert forall|i: int| 0 <= i < c.len() implies (#[trigger] c[i]).get("content"@) == d[i].get("content"@) by {
            if i < done.filter(full).len() {
                assert(c[i] == done.filter(full)[i]);
                assert(d[i] == before.filter(full)[i]);
            }
        }
        assert forall|i: int|
            0 <= i < blocks.len() && (#[trigger] blocks[i]).text_at("type"@) == Some("server_tool_use"@) implies now.contains(
            blocks[i],
        ) by {
            assert(now[i] == blocks[i]);
        }
    }
}

proof fn made_calls_are_search_parts(id: Seq<char>)
    ensures
        is_search_part(search_call(id)),
        !is_full_result(search_call(id)),
{
    block_words_differ();
    let entries = search_call(id)->Object_0;
    assert(entries.len() == 4);
    assert(entries[0] == ("type"@, JsonV::Str("server_tool_use"@)));
    key_index_is(entries, "type"@, 0);
}

proof fn ids_leave_the_rest(block: JsonV, id: Seq<char>)
    requires
        block.text_at("type"@) == Some("web_search_tool_result"@),
    ensures
        ({
            let given = block.with("tool_use_id"@, JsonV::Str(id));
            &&& given.text_at("type"@) == block.text_at("type"@)
            &&& given.get("content"@) == block.get("content"@)
        }),
{
    block_words_differ();
    with_gives(block, "tool_use_id"@, JsonV::Str(id));
}

/// What the repair of searches has of the blocks so far.
spec fn scan_carries(rebuilt: Seq<JsonV>, seen: Seq<JsonV>) -> bool {
    let plain = |block: JsonV| !is_search_part(block);
    let full = |block: JsonV| is_full_result(block);
    &&& rebuilt.filter(plain) == seen.filter(plain)
    &&& rebuilt.filter(full).len() == seen.filter(full).len()
    &&& forall|i: int|
        0 <= i < seen.filter(full).len() ==> (#[trigger] rebuilt.filter(full)[i]).get("content"@) == seen.filter(full)[i].get(
            "content"@,
        )
    &&& forall|i: int|
        0 <= i < seen.len() && (#[trigger] seen[i]).text_at("type"@) == Some("server_tool_use"@) ==> rebuilt.contains(seen[i])
}

proof fn pushed_filters(items: Seq<JsonV>, item: JsonV, test: spec_fn(JsonV) -> bool)
    ensures
        items.push(item).filter(test) == (if test(item) {
            items.filter(test).push(item)
        } else {
            items.filter(test)
        }),
{
    reveal(Seq::filter);
    assert(items.push(item).drop_last() =~= items);
}

/// A block that is put behind the others, for the one that came.
proof fn one_more_carries(rebuilt: Seq<JsonV>, seen: Seq<JsonV>, sent: JsonV, came: JsonV)
    requires
        scan_carries(rebuilt, seen),
        is_search_part(came) == is_search_part(sent),
        !is_search_part(came) ==> sent == came,
        came.text_at("type"@) == Some("server_tool_use"@) ==> sent == came,
        is_full_result(sent) == is_full_result(came),
        sent.get("content"@) == came.get("content"@),
    ensures
        scan_carries(rebuilt.push(sent), seen.push(came)),
{
    let plain = |block: JsonV| !is_search_part(block);
    let full = |block: JsonV| is_full_result(block);
    pushed_filters(rebuilt, sent, plain);
    pushed_filters(rebuilt, sent, full);
    pushed_filters(seen, came, plain);
    pushed_filters(seen, came, full);
    let a = rebuilt.push(sent).filter(full);
    let b = seen.push(came).filter(full);
    assert forall|i: int| 0 <= i < b.len() implies (#[trigger] a[i]).get("content"@) == b[i].get("content"@) by {
        if i < seen.filter(full).len() {
            assert(a[i] == rebuilt.filter(full)[i]);
            assert(b[i] == seen.filter(full)[i]);
        }
    }
    calls_stay_within(rebuilt, seen, sent, came);
}

proof fn calls_stay_within(rebuilt: Seq<JsonV>, seen: Seq<JsonV>, sent: JsonV, came: JsonV)
    requires
        forall|i: int|
            0 <= i < seen.len() && (#[trigger] seen[i]).text_at("type"@) == Some("server_tool_use"@) ==> rebuilt.contains(
                seen[i],
            ),
        came.text_at("type"@) == Some("server_tool_use"@) ==> sent == came,
    ensures
        forall|i: int|
            0 <= i < seen.push(came).len() && (#[trigger] seen.push(came)[i]).text_at("type"@) == Some("server_tool_use"@)
                ==> rebuilt.push(sent).contains(seen.push(came)[i]),
{
    assert forall|i: int|
        0 <= i < seen.push(came).len() && (#[trigger] seen.push(came)[i]).text_at("type"@) == Some(
            "server_tool_use"@,
        ) implies rebuilt.push(sent).contains(seen.push(came)[i]) by {
        if i < seen.len() {
            assert(seen.push(came)[i] == seen[i]);
            let k = choose|k: int| 0 <= k < rebuilt.len() && rebuilt[k] == seen[i];
            assert(rebuilt.push(sent)[k] == seen[i]);
        } else {
            assert(rebuilt.push(sent)[rebuilt.len() as int] == came);
        }
    }
}

/// A call that was made up changes nothing of what is carried.
proof fn made_calls_carry_nothing(rebuilt: Seq<JsonV>, seen: Seq<JsonV>, id: Seq<char>)
    requires
        scan_carries(rebuilt, seen),
    ensures
        scan_carries(rebuilt.push(search_call(id)), seen),
{
    made_calls_are_search_parts(id);
    let plain = |block: JsonV| !is_search_part(block);
    let full = |block: JsonV| is_full_result(block);
    pushed_filters(rebuilt, search_call(id), plain);
    pushed_filters(rebuilt, search_call(id), full);
    assert forall|i: int|
        0 <= i < seen.len() && (#[trigger] seen[i]).text_at("type"@) == Some("server_tool_use"@) implies rebuilt.push(
        search_call(id),
    ).contains(seen[i]) by {
        let k = choose|k: int| 0 <= k < rebuilt.len() && rebuilt[k] == seen[i];
        assert(rebuilt.push(search_call(id))[k] == seen[i]);
    }
}

/// A result that holds nothing may go.
proof fn empty_results_may_go(rebuilt: Seq<JsonV>, seen: Seq<JsonV>, came: JsonV)
    requires
        scan_carries(rebuilt, seen),
        came.text_at("type"@) == Some("web_search_tool_result"@),
        !is_full_result(came),
    ensures
        scan_carries(rebuilt, seen.push(came)),
{
    block_words_differ();
    let plain = |block: JsonV| !is_search_part(block);
    let full = |block: JsonV| is_full_result(block);
    pushed_filters(seen, came, plain);
    pushed_filters(seen, came, full);
    assert forall|i: int|
        0 <= i < seen.push(came).len() && (#[trigger] seen.push(came)[i]).text_at("type"@) == Some(
            "server_tool_use"@,
        ) implies rebuilt.contains(seen.push(came)[i]) by {
        assert(seen.push(came)[i] == seen[i]);
    }
}

proof fn scans_carry(blocks: Seq<JsonV>, declared: Seq<Seq<char>>, made: usize)
    ensures
        scan_carries(pairing_scan(blocks, declared, made).rebuilt, blocks),
    decreases blocks.len(),
{
    reveal(Seq::filter);
    block_words_differ();
    if blocks.len() > 0 {
        let before = blocks.drop_last();
        let block = blocks.last();
        scans_carry(before, declared, made);
        let state = pairing_scan(before, declared, made);
        let next = pairing_step(state, block, declared);
        assert(before.push(block) =~= blocks);
        let kind = block.text_at("type"@);
        if kind == Some("web_search_tool_result"@) {
            let current = block.text_at("tool_use_id"@);
            if current is Some && declared.contains(current.unwrap()) {
                one_more_carries(state.rebuilt, before, block, block);
            } else if let Some(target) = state.nearest {
                ids_leave_the_rest(block, target);
                one_more_carries(state.rebuilt, before, block.with("tool_use_id"@, JsonV::Str(target)), block);
            } else if let Some(id) = current {
                made_calls_carry_nothing(state.rebuilt, before, id);
                one_more_carries(state.rebuilt.push(search_call(id)), before, block, block);
            } else if is_full_result(block) {
                let id = crate::anthropic_compat::made_id(next.made);
                ids_leave_the_rest(block, id);
                made_calls_carry_nothing(state.rebuilt, before, id);
                one_more_carries(
                    state.rebuilt.push(search_call(id)),
                    before,
                    block.with("tool_use_id"@, JsonV::Str(id)),
                    block,
                );
            } else {
                empty_results_may_go(state.rebuilt, before, block);
            }
        } else {
            one_more_carries(state.rebuilt, before, block, block);
        }
    } else {
        assert(blocks =~= Seq::empty());
    }
}

proof fn carried_twice(came: Seq<JsonV>, noted: Seq<JsonV>, rebuilt: Seq<JsonV>)
    requires
        carries_blocks(noted, came),
        scan_carries(rebuilt, noted),
        forall|i: int|
            0 <= i < came.len() && (#[trigger] came[i]).text_at("type"@) == Some("server_tool_use"@) ==> i < noted.len()
                && noted[i] == came[i],
    ensures
        carries_blocks(rebuilt, came),
{
    let plain = |block: JsonV| !is_search_part(block);
    let full = |block: JsonV| is_full_result(block);
    let a = rebuilt.filter(full);
    let b = noted.filter(full);
    let c = came.filter(full);
    assert forall|i: int| 0 <= i < a.len() implies (#[trigger] a[i]).get("content"@) == c[i].get("content"@) by {
        assert(b[i].get("content"@) == c[i].get("content"@));
    }
    assert forall|i: int|
        0 <= i < came.len() && (#[trigger] came[i]).text_at("type"@) == Some("server_tool_use"@) implies rebuilt.contains(
        came[i],
    ) by {
        assert(noted[i].text_at("type"@) == Some("server_tool_use"@));
    }
}

proof fn repaired_messages_carry(message: JsonV, made: usize)
    ensures
        carries(paired_message(noted_message(message), made).0, message),
{
    block_words_differ();
    let noted = noted_message(message);
    if let Some(blocks) = message.items_at("content"@) {
        let notes = blocks.map_values(|block: JsonV| noted_block(block));
        with_gives(message, "content"@, JsonV::Array(notes));
        noted_blocks_carry(blocks);
        let scan = pairing_scan(notes, block_ids(notes, "server_tool_use"@, "id"@), made);
        scans_carry(notes, block_ids(notes, "server_tool_use"@, "id"@), made);
        assert forall|i: int|
            0 <= i < blocks.len() && (#[trigger] blocks[i]).text_at("type"@) == Some("server_tool_use"@) implies i < notes.len()
            && notes[i] == blocks[i] by {}
        carried_twice(blocks, notes, scan.rebuilt);
        with_gives(noted, "content"@, JsonV::Array(scan.rebuilt));
    }
}

proof fn all_messages_carry(messages: Seq<JsonV>)
    ensures
        ({
            let out = paired_messages(messages.map_values(|message: JsonV| noted_message(message))).0;
            &&& out.len() == messages.len()
            &&& forall|i: int| 0 <= i < messages.len() ==> carries(#[trigger] out[i], messages[i])
        }),
    decreases messages.len(),
{
    let noted = messages.map_values(|message: JsonV| noted_message(message));
    if messages.len() > 0 {
        let before = messages.drop_last();
        all_messages_carry(before);
        let few = before.map_values(|message: JsonV| noted_message(message));
        assert(noted.drop_last() =~= few);
        assert(noted.last() == noted_message(messages.last()));
        repaired_messages_carry(messages.last(), paired_messages(few).1);
        let out = paired_messages(noted).0;
        assert forall|i: int| 0 <= i < messages.len() implies carries(#[trigger] out[i], messages[i]) by {
            if i < before.len() {
                assert(out[i] == paired_messages(few).0[i]);
            }
        }
    }
}

/// Whether a request asks for a web search by the server.
pub open spec fn asks_for_search(body: JsonV) -> bool {
    body.items_at("tools"@) matches Some(tools) && exists|i: int|
        0 <= i < tools.len() && (#[trigger] tools[i]).text_at("name"@) == Some("web_search"@) && (tools[i].text_at("type"@)
            matches Some(kind) && "web_search_"@.is_prefix_of(kind))
}

proof fn searches_are_declared(body: JsonV)
    ensures
        declares_web_search(body) == asks_for_search(body),
{
    reveal_strlit("web_search");
    reveal_strlit("web_search_");
    reveal_strlit("web_fetch");
    reveal_strlit("code_execution");
    if let Some(tools) = body.items_at("tools"@) {
        if asks_for_search(body) {
            let i = choose|i: int|
                0 <= i < tools.len() && (#[trigger] tools[i]).text_at("name"@) == Some("web_search"@) && (tools[i].text_at(
                    "type"@,
                ) matches Some(kind) && "web_search_"@.is_prefix_of(kind));
            assert("web_search_"@.len() > 0);
            assert(crate::anthropic_compat::server_tool_kind(tools[i]) == Some(
                crate::anthropic_compat::AnthropicServerToolKind::WebSearch,
            ));
        }
        if declares_web_search(body) {
            let i = choose|i: int|
                0 <= i < tools.len() && crate::anthropic_compat::server_tool_kind(#[trigger] tools[i]) == Some(
                    crate::anthropic_compat::AnthropicServerToolKind::WebSearch,
                );
            assert(tools[i].text_at("name"@) == Some("web_search"@));
        }
    }
}

/// A request for Kimi carries the whole conversation: every message stands at its place, and only where a search is
/// asked for and the last message describes the machine do it and the question before it change places.
pub proof fn conversations_are_carried(body: JsonV, model: Seq<char>, policy: Option<Seq<char>>, contract: Option<Seq<char>>)
    requires
        well_keyed(body),
        flavor_of(contract, model) == RelayFlavor::Kimi,
    ensures
        relayed(body, model, policy, contract) matches Ok((sent, dropped, rules)) ==> {
            &&& body.items_at("messages"@) matches Some(came) && sent.items_at("messages"@) matches Some(out) && {
                let n = came.len() as int;
                let exchanged = asks_for_search(body) && n >= 2 && is_compute_snapshot(came[n - 1]) && !is_compute_snapshot(
                    came[n - 2],
                ) && came[n - 2].text_at("role"@) == Some("user"@) && (came[n - 2].get("content"@) matches Some(content)
                    && plain_text(content) is Some);
                &&& out.len() == n
                &&& forall|i: int| 0 <= i < n - 2 ==> carries(#[trigger] out[i], came[i])
                &&& !exchanged ==> forall|i: int| 0 <= i < n ==> carries(#[trigger] out[i], came[i])
                &&& exchanged ==> carries(out[n - 2], came[n - 1]) && carries(out[n - 1], came[n - 2])
            }
        },
{
    reveal_strlit("messages");
    reveal_strlit("tools");
    reveal_strlit("tool_choice");
    reveal_strlit("mcp_servers");
    reveal_strlit("thinking");
    reveal_strlit("model");
    assert("messages"@.len() == 8 && "tools"@.len() == 5 && "tool_choice"@.len() == 11 && "mcp_servers"@.len() == 11);
    assert("thinking"@.len() == 8 && "thinking"@[0] == 't' && "messages"@[0] == 'm' && "model"@.len() == 5);
    assert("model"@[0] == 'm' && "tools"@[0] == 't');
    if relayed(body, model, policy, contract) is Ok {
        steps_of_a_request(body, model, policy, contract);
        let flavor = flavor_of(contract, model);
        let named = body.with("model"@, JsonV::Str(model));
        let (repaired, rules1) = flavored_history(named, flavor, model);
        let (thought, rules2) = flavored_thinking(repaired, flavor, policy, rules1);
        let sent = flavored_tools(thought, flavor, rules2).0;
        flavored_thinking_differs(repaired, flavor, policy, rules1);
        flavored_tools_differ(thought, flavor, rules2);
        assert(thought.get("messages"@) == repaired.get("messages"@));
        assert(sent.get("messages"@) == thought.get("messages"@));
        assert(named.get("messages"@) == body.get("messages"@));
        assert(named.get("tools"@) == body.get("tools"@));
        searches_are_declared(body);
        assert(declares_web_search(named) == declares_web_search(body));
        let came = body.items_at("messages"@).unwrap();
        let n = came.len() as int;
        let ordered = if declares_web_search(named) && ends_with_snapshot(came) {
            last_two_swapped(came)
        } else {
            came
        };
        assert(named.items_at("messages"@) == Some(came));
        with_gives(named, "messages"@, JsonV::Array(last_two_swapped(came)));
        let first = reordered_body(named).0;
        assert(first.items_at("messages"@) == Some(ordered));
        let noted = ordered.map_values(|message: JsonV| noted_message(message));
        with_gives(first, "messages"@, JsonV::Array(noted));
        let second = noted_body(first).0;
        with_gives(second, "messages"@, JsonV::Array(paired_messages(noted).0));
        all_messages_carry(ordered);
        let out = paired_messages(noted).0;
        assert(sent.items_at("messages"@) == Some(out));
        if declares_web_search(named) && ends_with_snapshot(came) {
            assert(ordered[n - 2] == came[n - 1] && ordered[n - 1] == came[n - 2]);
            assert forall|i: int| 0 <= i < n - 2 implies carries(#[trigger] out[i], came[i]) by {
                assert(ordered[i] == came[i]);
            }
            assert(carries(out[n - 2], ordered[n - 2]));
            assert(carries(out[n - 1], ordered[n - 1]));
        }
    }
}

/// The messages of a request that are exchanged are those that came: as many, and each as often.
pub proof fn exchanged_messages_are_the_same(body: JsonV)
    ensures
        body.items_at("messages"@) matches Some(came) ==> (reordered_body(body).0.items_at("messages"@) matches Some(out) && {
            let n = came.len() as int;
            &&& out.len() == n
            &&& out.to_multiset() == came.to_multiset()
            &&& forall|i: int| 0 <= i < n - 2 ==> out[i] == came[i]
            &&& reordered_body(body).1 ==> n >= 2 && out[n - 2] == came[n - 1] && out[n - 1] == came[n - 2]
            &&& !reordered_body(body).1 ==> out == came
        }),
{
    if let Some(came) = body.items_at("messages"@) {
        with_gives(body, "messages"@, JsonV::Array(last_two_swapped(came)));
        if reordered_body(body).1 {
            broadcast use vstd::seq_lib::group_to_multiset_ensures;

            let n = came.len() as int;
            let head = came.drop_last().drop_last();
            assert(came =~= head.push(came[n - 2]).push(came[n - 1]));
            assert(last_two_swapped(came).to_multiset() =~= came.to_multiset());
        }
    }
}

/// A message that describes the machine is one of the user, and its text says that it is a compute snapshot, of so
/// many cores.
pub proof fn snapshots_say_so(message: JsonV)
    ensures
        is_compute_snapshot(message) ==> message.text_at("role"@) == Some("user"@) && (message.text_at("content"@) matches Some(
            text,
        ) ==> has_part(lowered(text), "compute snapshot"@) && has_word(lowered(text), "cores"@)),
        message.text_at("role"@) == Some("user"@) && (message.text_at("content"@) matches Some(text) && has_part(
            lowered(text),
            "compute snapshot"@,
        ) && has_word(lowered(text), "cores"@) && has_word(lowered(text), "ram"@)) ==> is_compute_snapshot(message),
{
    if let Some(text) = message.text_at("content"@) {
        if has_part(lowered(text), "compute snapshot"@) {
            reveal_strlit("compute snapshot");
            let at = choose|at: int| #[trigger] stands_at(lowered(text), "compute snapshot"@, at);
            assert(lowered(text).subrange(at, at + 16)[0] == 'c');
            assert(lowered(text)[at] == 'c');
            assert(crate::text::lower(text[at]) == 'c');
            assert(!crate::text::is_space(text[at]));
        }
    }
}

/// A request for DeepSeek carries the whole conversation: what was said and by whom, what was thought, and the blocks
/// of every kind that no repair is about.
pub proof fn repaired_conversations_are_carried(
    body: JsonV,
    model: Seq<char>,
    policy: Option<Seq<char>>,
    contract: Option<Seq<char>>,
    kind: Seq<char>,
)
    requires
        well_keyed(body),
        flavor_of(contract, model) == RelayFlavor::DeepSeek,
    ensures
        relayed(body, model, policy, contract) matches Ok((sent, dropped, rules)) ==> {
            &&& body.items_at("messages"@) matches Some(came) && sent.items_at("messages"@) matches Some(out) && {
                let texts = |block: JsonV| text_pick(block);
                let thoughts = |block: JsonV| thought_pick(block);
                let blocks = |block: JsonV| kind_pick(block, kind);
                &&& stands_within(gathered(came, texts, true), gathered(out, texts, true))
                &&& stands_within(gathered(came, thoughts, false), gathered(out, thoughts, false))
                &&& is_plain_kind(kind) ==> gathered(out, blocks, false) == gathered(came, blocks, false)
            }
        },
{
    reveal_strlit("messages");
    reveal_strlit("tools");
    reveal_strlit("tool_choice");
    reveal_strlit("mcp_servers");
    reveal_strlit("thinking");
    reveal_strlit("model");
    assert("messages"@.len() == 8 && "tools"@.len() == 5 && "tool_choice"@.len() == 11 && "mcp_servers"@.len() == 11);
    assert("thinking"@.len() == 8 && "thinking"@[0] == 't' && "messages"@[0] == 'm' && "model"@.len() == 5);
    if relayed(body, model, policy, contract) is Ok {
        steps_of_a_request(body, model, policy, contract);
        let flavor = flavor_of(contract, model);
        let named = body.with("model"@, JsonV::Str(model));
        let (repaired, rules1) = flavored_history(named, flavor, model);
        let (thought, rules2) = flavored_thinking(repaired, flavor, policy, rules1);
        let sent = flavored_tools(thought, flavor, rules2).0;
        flavored_thinking_differs(repaired, flavor, policy, rules1);
        flavored_tools_differ(thought, flavor, rules2);
        assert(thought.get("messages"@) == repaired.get("messages"@));
        assert(sent.get("messages"@) == thought.get("messages"@));
        assert(named.get("messages"@) == body.get("messages"@));
        nothing_that_was_said_is_lost(named, model, Seq::empty(), kind);
    }
}

} // verus!
