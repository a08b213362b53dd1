//! What holds of the requests that a relay is sent.
use crate::anthropic_compat::{
    document_note, fitting_tool_choice, holds_document, is_document, made_id, names_tool, noted_block, noted_message, paired_message,
    paired_messages, search_paired_body,
    pairing_scan, pairing_step, search_call, server_tool_kind, sifted, type_at, type_only, AnthropicServerToolKind,
    AnthropicServerToolPolicy, PairingV,
};
use crate::deepseek_compat::block_ids;
use crate::json::JsonV;
use crate::json_model::{and_gives, key_index, key_index_finds, key_index_is, with_gives, with_same_value};
use vstd::prelude::*;

verus! {

/// A message whose documents were replaced holds none, and every other block of it stays.
pub proof fn no_document_is_left(message: JsonV)
    ensures
        !holds_document(noted_message(message)),
        !holds_document(message) ==> match message.items_at("content"@) {
            Some(blocks) => noted_message(message).items_at("content"@) == Some(blocks),
            None => noted_message(message) == message,
        },
{
    if let Some(blocks) = message.items_at("content"@) {
        let noted = blocks.map_values(|block: JsonV| noted_block(block));
        with_gives(message, "content"@, JsonV::Array(noted));
        assert forall|i: int| 0 <= i < noted.len() implies !is_document(#[trigger] noted[i]) by {
            if is_document(blocks[i]) {
                notes_are_text(blocks[i]);
            }
        }
        if !holds_document(message) {
            assert(noted =~= blocks);
        }
    }
}

proof fn notes_are_text(block: JsonV)
    ensures
        !is_document(document_note(block)),
{
    let note = document_note(block);
    assert(note.text_at("type"@) == Some("text"@)) by {
        let words = note->Object_0[1].1;
        and_gives(JsonV::object(), "type"@, JsonV::Str("text"@), "type"@);
        and_gives(JsonV::object().and("type"@, JsonV::Str("text"@)), "text"@, words, "type"@);
    }
    reveal_strlit("text");
    reveal_strlit("document");
    assert("text"@.len() != "document"@.len());
}

pub open spec fn is_result(block: JsonV) -> bool {
    block.text_at("type"@) == Some("web_search_tool_result"@)
}

/// The ids that the search calls among blocks declare.
pub open spec fn call_ids(blocks: Seq<JsonV>) -> Seq<Seq<char>> {
    block_ids(blocks, "server_tool_use"@, "id"@)
}

/// Whether a block is no search result, or one of a call with one of these ids.
pub open spec fn belongs(block: JsonV, ids: Seq<Seq<char>>) -> bool {
    is_result(block) ==> block.text_at("tool_use_id"@) is Some && ids.contains(block.text_at("tool_use_id"@).unwrap())
}

/// Whether every search result among blocks belongs to a call among them.
pub open spec fn results_are_paired(blocks: Seq<JsonV>) -> bool {
    forall|i: int| 0 <= i < blocks.len() ==> belongs(#[trigger] blocks[i], call_ids(blocks))
}

proof fn kinds_differ()
    ensures
        "server_tool_use"@ != "web_search_tool_result"@,
        "type"@ != "id"@,
        "type"@ != "tool_use_id"@,
{
    reveal_strlit("server_tool_use");
    reveal_strlit("web_search_tool_result");
    reveal_strlit("type");
    reveal_strlit("id");
    reveal_strlit("tool_use_id");
    assert("server_tool_use"@.len() != "web_search_tool_result"@.len());
    assert("type"@.len() != "id"@.len());
    assert("type"@.len() != "tool_use_id"@.len());
}

proof fn calls_tell_their_id(id: Seq<char>)
    ensures
        search_call(id).text_at("type"@) == Some("server_tool_use"@),
        search_call(id).text_at("id"@) == Some(id),
{
    kinds_differ();
    let one = JsonV::object().and("type"@, JsonV::Str("server_tool_use"@));
    let two = one.and("id"@, JsonV::Str(id));
    let three = two.and("name"@, JsonV::Str("web_search"@));
    and_gives(JsonV::object(), "type"@, JsonV::Str("server_tool_use"@), "type"@);
    and_gives(JsonV::object(), "type"@, JsonV::Str("server_tool_use"@), "id"@);
    and_gives(one, "id"@, JsonV::Str(id), "type"@);
    and_gives(one, "id"@, JsonV::Str(id), "id"@);
    and_gives(two, "name"@, JsonV::Str("web_search"@), "type"@);
    and_gives(two, "name"@, JsonV::Str("web_search"@), "id"@);
    and_gives(three, "input"@, JsonV::object(), "type"@);
    and_gives(three, "input"@, JsonV::object(), "id"@);
}

proof fn ids_stay(blocks: Seq<JsonV>, block: JsonV)
    ensures
        forall|id: Seq<char>| call_ids(blocks).contains(id) ==> #[trigger] call_ids(blocks.push(block)).contains(id),
        block.text_at("type"@) == Some("server_tool_use"@) && block.text_at("id"@) is Some ==> call_ids(
            blocks.push(block),
        ).contains(block.text_at("id"@).unwrap()),
{
    let after = blocks.push(block);
    assert(after.drop_last() =~= blocks);
    let before = call_ids(blocks);
    assert forall|id: Seq<char>| before.contains(id) implies #[trigger] call_ids(after).contains(id) by {
        let k = choose|k: int| 0 <= k < before.len() && before[k] == id;
        assert(call_ids(after)[k] == id);
    }
    if block.text_at("type"@) == Some("server_tool_use"@) && block.text_at("id"@) is Some {
        assert(call_ids(after)[before.len() as int] == block.text_at("id"@).unwrap());
    }
}

/// What the repair keeps: its results belong to calls that stand before them or to declared ones, the
/// nearest call is there, and no call of the message is lost.
spec fn pairing_holds(state: PairingV, seen: Seq<JsonV>, declared: Seq<Seq<char>>) -> bool {
    &&& forall|i: int| 0 <= i < state.rebuilt.len() ==> belongs(#[trigger] state.rebuilt[i], call_ids(state.rebuilt) + declared)
    &&& forall|id: Seq<char>| #[trigger] call_ids(seen).contains(id) ==> call_ids(state.rebuilt).contains(id)
    &&& state.nearest matches Some(id) ==> call_ids(state.rebuilt).contains(id)
}

proof fn pushed_block_holds(rebuilt: Seq<JsonV>, block: JsonV, declared: Seq<Seq<char>>)
    requires
        forall|i: int| 0 <= i < rebuilt.len() ==> belongs(#[trigger] rebuilt[i], call_ids(rebuilt) + declared),
        belongs(block, call_ids(rebuilt.push(block)) + declared),
    ensures
        forall|i: int|
            0 <= i < rebuilt.push(block).len() ==> belongs(
                #[trigger] rebuilt.push(block)[i],
                call_ids(rebuilt.push(block)) + declared,
            ),
        forall|id: Seq<char>| call_ids(rebuilt).contains(id) ==> #[trigger] call_ids(rebuilt.push(block)).contains(id),
{
    let after = rebuilt.push(block);
    ids_stay(rebuilt, block);
    assert forall|i: int| 0 <= i < after.len() implies belongs(#[trigger] after[i], call_ids(after) + declared) by {
        if i < rebuilt.len() {
            assert(after[i] == rebuilt[i]);
            if is_result(rebuilt[i]) {
                found_in_either(call_ids(rebuilt), call_ids(after), declared, rebuilt[i].text_at("tool_use_id"@).unwrap());
            }
        }
    }
}

proof fn found_in_either(few: Seq<Seq<char>>, many: Seq<Seq<char>>, declared: Seq<Seq<char>>, id: Seq<char>)
    requires
        (few + declared).contains(id),
        few.contains(id) ==> many.contains(id),
    ensures
        (many + declared).contains(id),
        few.contains(id) || declared.contains(id),
{
    let both = few + declared;
    let k = choose|k: int| 0 <= k < both.len() && both[k] == id;
    if k < few.len() {
        assert(few[k] == id);
        let j = choose|j: int| 0 <= j < many.len() && many[j] == id;
        assert((many + declared)[j] == id);
    } else {
        assert(declared[k - few.len()] == id);
        assert((many + declared)[many.len() + k - few.len()] == id);
    }
}

proof fn first_part_counts(ids: Seq<Seq<char>>, declared: Seq<Seq<char>>, id: Seq<char>)
    ensures
        ids.contains(id) ==> (ids + declared).contains(id),
        declared.contains(id) ==> (ids + declared).contains(id),
{
    if ids.contains(id) {
        let k = choose|k: int| 0 <= k < ids.len() && ids[k] == id;
        assert((ids + declared)[k] == id);
    }
    if declared.contains(id) {
        let k = choose|k: int| 0 <= k < declared.len() && declared[k] == id;
        assert((ids + declared)[ids.len() + k] == id);
    }
}

proof fn result_takes_id(block: JsonV, id: Seq<char>)
    requires
        is_result(block),
    ensures
        is_result(block.with("tool_use_id"@, JsonV::Str(id))),
        block.with("tool_use_id"@, JsonV::Str(id)).text_at("tool_use_id"@) == Some(id),
{
    kinds_differ();
    with_gives(block, "tool_use_id"@, JsonV::Str(id));
    assert(block.with("tool_use_id"@, JsonV::Str(id)).get("type"@) == block.get("type"@));
}

proof fn step_holds(state: PairingV, seen: Seq<JsonV>, block: JsonV, declared: Seq<Seq<char>>)
    requires
        pairing_holds(state, seen, declared),
    ensures
        pairing_holds(pairing_step(state, block, declared), seen.push(block), declared),
{
    kinds_differ();
    let next = pairing_step(state, block, declared);
    let kind = block.text_at("type"@);
    assert(seen.push(block).drop_last() =~= seen);
    ids_stay(seen, block);
    ids_stay(state.rebuilt, block);
    if kind == Some("server_tool_use"@) {
        pushed_block_holds(state.rebuilt, block, declared);
        assert forall|id: Seq<char>| #[trigger] call_ids(seen.push(block)).contains(id) implies call_ids(next.rebuilt).contains(id) by {
            let ids = call_ids(seen.push(block));
            let k = choose|k: int| 0 <= k < ids.len() && ids[k] == id;
            if k < call_ids(seen).len() {
                assert(call_ids(seen)[k] == id);
            }
        }
    } else {
        assert(call_ids(seen.push(block)) == call_ids(seen));
        if kind == Some("web_search_tool_result"@) {
            let current = block.text_at("tool_use_id"@);
            if current is Some && declared.contains(current.unwrap()) {
                first_part_counts(call_ids(state.rebuilt.push(block)), declared, current.unwrap());
                pushed_block_holds(state.rebuilt, block, declared);
            } else if let Some(target) = state.nearest {
                let given = block.with("tool_use_id"@, JsonV::Str(target));
                result_takes_id(block, target);
                ids_stay(state.rebuilt, given);
                first_part_counts(call_ids(state.rebuilt.push(given)), declared, target);
                pushed_block_holds(state.rebuilt, given, declared);
            } else if let Some(id) = current {
                call_and_result_hold(state.rebuilt, id, block, declared);
            } else if next.rebuilt.len() > state.rebuilt.len() {
                let id = made_id(next.made);
                result_takes_id(block, id);
                call_and_result_hold(state.rebuilt, id, block.with("tool_use_id"@, JsonV::Str(id)), declared);
            }
        } else {
            pushed_block_holds(state.rebuilt, block, declared);
        }
    }
}

proof fn call_and_result_hold(rebuilt: Seq<JsonV>, id: Seq<char>, result: JsonV, declared: Seq<Seq<char>>)
    requires
        forall|i: int| 0 <= i < rebuilt.len() ==> belongs(#[trigger] rebuilt[i], call_ids(rebuilt) + declared),
        is_result(result),
        result.text_at("tool_use_id"@) == Some(id),
    ensures
        ({
            let after = rebuilt.push(search_call(id)).push(result);
            &&& forall|i: int| 0 <= i < after.len() ==> belongs(#[trigger] after[i], call_ids(after) + declared)
            &&& forall|other: Seq<char>| call_ids(rebuilt).contains(other) ==> #[trigger] call_ids(after).contains(other)
        }),
{
    kinds_differ();
    calls_tell_their_id(id);
    let called = rebuilt.push(search_call(id));
    let after = called.push(result);
    pushed_block_holds(rebuilt, search_call(id), declared);
    ids_stay(rebuilt, search_call(id));
    ids_stay(called, result);
    first_part_counts(call_ids(after), declared, id);
    pushed_block_holds(called, result, declared);
    assert forall|other: Seq<char>| call_ids(rebuilt).contains(other) implies #[trigger] call_ids(after).contains(other) by {
        assert(call_ids(called).contains(other));
    }
}

proof fn scan_holds(blocks: Seq<JsonV>, declared: Seq<Seq<char>>, made: usize)
    ensures
        pairing_holds(pairing_scan(blocks, declared, made), blocks, declared),
    decreases blocks.len(),
{
    if blocks.len() > 0 {
        scan_holds(blocks.drop_last(), declared, made);
        step_holds(pairing_scan(blocks.drop_last(), declared, made), blocks.drop_last(), blocks.last(), declared);
        assert(blocks.drop_last().push(blocks.last()) =~= blocks);
    }
}

/// In the blocks of a message that was repaired, every search result belongs to a call of the message.
pub proof fn repaired_searches_are_paired(blocks: Seq<JsonV>, made: usize)
    ensures
        results_are_paired(pairing_scan(blocks, call_ids(blocks), made).rebuilt),
{
    let declared = call_ids(blocks);
    let scan = pairing_scan(blocks, declared, made);
    scan_holds(blocks, declared, made);
    assert forall|i: int| 0 <= i < scan.rebuilt.len() implies belongs(#[trigger] scan.rebuilt[i], call_ids(scan.rebuilt)) by {
        if is_result(scan.rebuilt[i]) {
            let id = scan.rebuilt[i].text_at("tool_use_id"@).unwrap();
            found_in_either(call_ids(scan.rebuilt), call_ids(scan.rebuilt), declared, id);
        }
    }
}

proof fn paired_scan_stays(blocks: Seq<JsonV>, declared: Seq<Seq<char>>, made: usize)
    requires
        forall|i: int| 0 <= i < blocks.len() ==> belongs(#[trigger] blocks[i], declared),
    ensures
        pairing_scan(blocks, declared, made).rebuilt == blocks,
        pairing_scan(blocks, declared, made).made == made,
        !pairing_scan(blocks, declared, made).changed,
    decreases blocks.len(),
{
    if blocks.len() > 0 {
        let before = blocks.drop_last();
        assert forall|i: int| 0 <= i < before.len() implies belongs(#[trigger] before[i], declared) by {
            assert(before[i] == blocks[i]);
        }
        paired_scan_stays(before, declared, made);
        assert(belongs(blocks[blocks.len() - 1], declared));
        assert(before.push(blocks.last()) =~= blocks);
    }
}

/// A message whose search results all belong to calls of it is left as it is.
pub proof fn paired_messages_stay(message: JsonV, made: usize)
    requires
        message.items_at("content"@) matches Some(blocks) ==> results_are_paired(blocks),
    ensures
        paired_message(message, made) == (message, made, false),
{
    if let Some(blocks) = message.items_at("content"@) {
        paired_scan_stays(blocks, call_ids(blocks), made);
    }
}

/// Repairing a message twice changes it no further.
pub proof fn repairs_are_done_once(message: JsonV, made: usize, again: usize)
    ensures
        paired_message(paired_message(message, made).0, again).0 == paired_message(message, made).0,
        !paired_message(paired_message(message, made).0, again).2,
{
    let (repaired, _, changed) = paired_message(message, made);
    if let Some(blocks) = message.items_at("content"@) {
        let scan = pairing_scan(blocks, call_ids(blocks), made);
        repaired_searches_are_paired(blocks, made);
        if changed {
            with_gives(message, "content"@, JsonV::Array(scan.rebuilt));
        } else {
            unchanged_scans_keep(blocks, call_ids(blocks), made);
        }
    }
    paired_messages_stay(repaired, again);
}

proof fn unchanged_scans_keep(blocks: Seq<JsonV>, declared: Seq<Seq<char>>, made: usize)
    ensures
        !pairing_scan(blocks, declared, made).changed ==> pairing_scan(blocks, declared, made).rebuilt == blocks,
    decreases blocks.len(),
{
    if blocks.len() > 0 {
        unchanged_scans_keep(blocks.drop_last(), declared, made);
        assert(blocks.drop_last().push(blocks.last()) =~= blocks);
    }
}

/// Whether the search results of a message all belong to calls of it.
pub open spec fn message_is_paired(message: JsonV) -> bool {
    match message.items_at("content"@) {
        Some(blocks) => results_are_paired(blocks),
        None => true,
    }
}

proof fn repaired_message_is_paired(message: JsonV, made: usize)
    ensures
        message_is_paired(paired_message(message, made).0),
{
    if let Some(blocks) = message.items_at("content"@) {
        let scan = pairing_scan(blocks, call_ids(blocks), made);
        repaired_searches_are_paired(blocks, made);
        if scan.changed {
            with_gives(message, "content"@, JsonV::Array(scan.rebuilt));
        } else {
            unchanged_scans_keep(blocks, call_ids(blocks), made);
        }
    }
}

proof fn all_messages_are_paired(messages: Seq<JsonV>)
    ensures
        paired_messages(messages).0.len() == messages.len(),
        forall|i: int| 0 <= i < messages.len() ==> message_is_paired(#[trigger] paired_messages(messages).0[i]),
    decreases messages.len(),
{
    if messages.len() > 0 {
        all_messages_are_paired(messages.drop_last());
        repaired_message_is_paired(messages.last(), paired_messages(messages.drop_last()).1);
    }
}

proof fn all_paired_messages_stay(messages: Seq<JsonV>)
    requires
        forall|i: int| 0 <= i < messages.len() ==> message_is_paired(#[trigger] messages[i]),
    ensures
        paired_messages(messages) == (messages, 0usize, false),
    decreases messages.len(),
{
    if messages.len() > 0 {
        let before = messages.drop_last();
        assert forall|i: int| 0 <= i < before.len() implies message_is_paired(#[trigger] before[i]) by {
            assert(before[i] == messages[i]);
        }
        all_paired_messages_stay(before);
        assert(message_is_paired(messages[messages.len() - 1]));
        paired_messages_stay(messages.last(), 0);
        assert(before.push(messages.last()) =~= messages);
    } else {
        assert(messages =~= Seq::empty());
    }
}

/// In a body that was repaired, every search result of every message belongs to a call of its message, and
/// repairing the body again changes nothing and reports nothing.
pub proof fn repaired_bodies_are_paired(body: JsonV)
    ensures
        search_paired_body(body).0.items_at("messages"@) matches Some(messages) ==> forall|i: int|
            0 <= i < messages.len() ==> message_is_paired(#[trigger] messages[i]),
        search_paired_body(search_paired_body(body).0) == (search_paired_body(body).0, false),
{
    if let Some(messages) = body.items_at("messages"@) {
        let done = paired_messages(messages).0;
        let repaired = search_paired_body(body).0;
        with_gives(body, "messages"@, JsonV::Array(done));
        all_messages_are_paired(messages);
        all_paired_messages_stay(done);
        with_same_value(repaired, "messages"@);
    }
}

/// Whether no key of an object stands twice.
pub open spec fn keys_are_distinct(tree: JsonV) -> bool {
    match tree {
        JsonV::Object(entries) => forall|i: int, j: int|
            0 <= i < j < entries.len() ==> (#[trigger] entries[i]).0 != (#[trigger] entries[j]).0,
        _ => true,
    }
}

/// A key that was taken out is gone.
pub proof fn taken_out_is_gone(tree: JsonV, key: Seq<char>)
    requires
        keys_are_distinct(tree),
    ensures
        tree.without(key).get(key) is None,
{
    if let JsonV::Object(entries) = tree {
        key_index_finds(entries, key);
        let at = key_index(entries, key);
        if at < entries.len() {
            let after = entries.update(at, entries.last()).drop_last();
            assert forall|i: int| 0 <= i < after.len() implies (#[trigger] after[i]).0 != key by {
                if i == at {
                    assert(entries[at].0 != entries[entries.len() - 1].0);
                } else if i < at {
                    assert(entries[i].0 != entries[at].0);
                } else {
                    assert(entries[at].0 != entries[i].0);
                }
            }
            key_index_is(after, key, after.len() as int);
        }
    }
}

/// A request that names the tool to call has that tool, its tools are those that it had, and a request
/// without tools chooses none.
pub proof fn chosen_tools_are_there(body: JsonV)
    requires
        keys_are_distinct(body),
    ensures
        ({
            let sent = fitting_tool_choice(body);
            match body.items_at("tools"@) {
                Some(tools) => if tools.len() > 0 {
                    &&& sent.items_at("tools"@) == Some(tools)
                    &&& type_at(sent, "tool_choice"@) == Some("tool"@) ==> names_tool(
                        tools,
                        match sent.get("tool_choice"@).unwrap().text_at("name"@) {
                            Some(name) => name,
                            None => ""@,
                        },
                    )
                } else {
                    sent.get("tool_choice"@) is None
                },
                None => sent.get("tool_choice"@) is None,
            }
        }),
{
    taken_out_is_gone(body, "tool_choice"@);
    if body is Object {
        with_gives(body, "tool_choice"@, type_only("auto"@));
        and_gives(JsonV::object(), "type"@, JsonV::Str("auto"@), "type"@);
    }
    reveal_strlit("auto");
    reveal_strlit("tool");
    reveal_strlit("tools");
    reveal_strlit("tool_choice");
    assert("auto"@[0] != "tool"@[0]);
    assert("tools"@.len() != "tool_choice"@.len());
}

/// No tool of a kind that the upstream lacks is left, and no other tool is lost.
pub proof fn unsupported_tools_go(
    tools: Seq<JsonV>,
    policy: AnthropicServerToolPolicy,
    dropped: usize,
    rules: Seq<Seq<char>>,
)
    ensures
        sifted(tools, policy, dropped, rules).kept == tools.filter(
            |tool: JsonV| server_tool_kind(tool) != Some(AnthropicServerToolKind::Unsupported),
        ),
    decreases tools.len(),
{
    reveal(Seq::filter);
    if tools.len() > 0 {
        unsupported_tools_go(tools.drop_last(), policy, dropped, rules);
    }
}

} // verus!
