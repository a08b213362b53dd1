//! What holds of the reasoning that is put back into a conversation.
use crate::crypto::{hex, hmac_sha256};
use crate::json::JsonV;
use crate::json_model::with_gives;
use crate::reasoning_state::{
    any_of, as_blocks, bindings, block_bindings, entry_name, entry_of_file, fingerprint, history_fingerprint,
    inserted, is_entry_name, needs_reasoning, next_needed, of_kind, restored_message, without_reasoning, BindingV,
    BlockKind, RestorePolicy, StoreV,
};
use crate::reasoning_state_laws::insertions_are_invisible;
use vstd::prelude::*;

verus! {

/// Whether a block is reasoning.
pub open spec fn is_thought(block: JsonV) -> bool {
    block.text_at("type"@) == Some("thinking"@) || block.text_at("type"@) == Some("redacted_thinking"@)
}

/// Whether a block calls a tool.
pub open spec fn calls_a_tool(block: JsonV) -> bool {
    block.text_at("type"@) == Some("tool_use"@) || block.text_at("type"@) == Some("server_tool_use"@)
}

/// Whether a turn of the assistant calls a tool and holds no reasoning.
pub open spec fn lacks_its_reasoning(message: JsonV) -> bool {
    message.text_at("role"@) == Some("assistant"@) && (message.items_at("content"@) matches Some(blocks) && (exists|i: int|
        0 <= i < blocks.len() && calls_a_tool(#[trigger] blocks[i])) && (forall|i: int|
        0 <= i < blocks.len() ==> !is_thought(#[trigger] blocks[i])))
}

proof fn what_lacks_is_needed(message: JsonV)
    ensures
        needs_reasoning(message) matches Ok(needed) ==> needed == lacks_its_reasoning(message),
{
    if let Some(blocks) = message.items_at("content"@) {
        if any_of(blocks, BlockKind::Call) {
            let i = choose|i: int| 0 <= i < blocks.len() && of_kind(#[trigger] blocks[i], BlockKind::Call);
            assert(calls_a_tool(blocks[i]));
        }
        if any_of(blocks, BlockKind::Reasoning) {
            let i = choose|i: int| 0 <= i < blocks.len() && of_kind(#[trigger] blocks[i], BlockKind::Reasoning);
            assert(is_thought(blocks[i]));
        }
        assert forall|i: int| 0 <= i < blocks.len() && calls_a_tool(#[trigger] blocks[i]) implies any_of(
            blocks,
            BlockKind::Call,
        ) by {
            assert(of_kind(blocks[i], BlockKind::Call));
        }
        assert forall|i: int| 0 <= i < blocks.len() && is_thought(#[trigger] blocks[i]) implies any_of(
            blocks,
            BlockKind::Reasoning,
        ) by {
            assert(of_kind(blocks[i], BlockKind::Reasoning));
        }
    }
}

/// The turn that is restored next is the first that calls a tool without its reasoning.
pub proof fn turns_are_restored_in_order(messages: Seq<JsonV>, from: int)
    requires
        0 <= from <= messages.len(),
    ensures
        next_needed(messages, from) matches Ok(Some(at)) ==> from <= at < messages.len() && lacks_its_reasoning(messages[at])
            && forall|i: int| from <= i < at ==> !lacks_its_reasoning(#[trigger] messages[i]),
        next_needed(messages, from) matches Ok(None) ==> forall|i: int|
            from <= i < messages.len() ==> !lacks_its_reasoning(#[trigger] messages[i]),
    decreases messages.len() - from,
{
    if from < messages.len() {
        what_lacks_is_needed(messages[from]);
        if needs_reasoning(messages[from]) == Ok::<bool, Seq<char>>(false) {
            turns_are_restored_in_order(messages, from + 1);
        }
    }
}

/// What is visible of content is everything but its reasoning, in its order.
pub proof fn visible_content_is_the_rest(items: Seq<JsonV>)
    ensures
        without_reasoning(items) == items.filter(|block: JsonV| !is_thought(block)),
    decreases items.len(),
{
    reveal(Seq::filter);
    if items.len() > 0 {
        visible_content_is_the_rest(items.drop_last());
    }
}

/// A turn that is restored says what it said and calls what it called; its entry was made for this history, this model
/// and these calls, and is no older than thirty days.
pub proof fn restored_turns_say_the_same(
    store: StoreV,
    messages: Seq<JsonV>,
    index: int,
    model: Seq<char>,
    policy: RestorePolicy,
    file: Option<Seq<u8>>,
    now: u64,
    key: Seq<char>,
)
    requires
        0 <= index < messages.len(),
    ensures
        restored_message(store, messages, index, model, policy, file, now) matches Ok(message) ==> {
            &&& file matches Some(bytes) && (entry_of_file(store.encryption_key, bytes) matches Ok(entry) && {
                &&& entry.model == model
                &&& Ok::<Seq<char>, Seq<char>>(entry.fingerprint) == history_fingerprint(
                    store.lookup_key,
                    messages,
                    index,
                    model,
                )
                &&& now - entry.created_at <= 2_592_000
                &&& bindings(messages[index]) == Ok::<Seq<BindingV>, Seq<char>>(entry.tools)
                &&& entry.no_reasoning ==> message == messages[index]
                &&& !entry.no_reasoning ==> (message.items_at("content"@) matches Some(after) && messages[index].get(
                    "content"@,
                ) is Some && (as_blocks(messages[index].get("content"@).unwrap()) matches Some(before) && after.filter(
                    |block: JsonV| !is_thought(block),
                ) == before.filter(|block: JsonV| !is_thought(block)) && after.len() == before.len() + entry.blocks.len()))
            })
            &&& key != "content"@ ==> message.get(key) == messages[index].get(key)
        },
{
    if let Ok(message) = restored_message(store, messages, index, model, policy, file, now) {
        let entry = entry_of_file(store.encryption_key, file.unwrap())->Ok_0;
        if !entry.no_reasoning {
            let before = as_blocks(messages[index].get("content"@).unwrap()).unwrap();
            let after = inserted(before, entry.blocks).unwrap();
            insertions_are_invisible(before, entry.blocks);
            visible_content_is_the_rest(before);
            visible_content_is_the_rest(after);
            insertions_count(before, entry.blocks);
            with_gives(messages[index], "content"@, JsonV::Array(after));
        }
    }
}

proof fn insertions_count(items: Seq<JsonV>, blocks: Seq<(usize, JsonV)>)
    requires
        inserted(items, blocks) is Some,
    ensures
        inserted(items, blocks).unwrap().len() == items.len() + blocks.len(),
    decreases blocks.len(),
{
    if blocks.len() > 0 {
        insertions_count(items, blocks.drop_last());
    }
}

/// The bindings of a turn are those of its calls: every call has one, with its id and its name.
pub proof fn every_call_is_bound(blocks: Seq<JsonV>)
    ensures
        block_bindings(blocks) matches Ok(tools) ==> {
            &&& tools.len() == blocks.filter(|block: JsonV| calls_a_tool(block)).len()
            &&& forall|i: int|
                0 <= i < tools.len() ==> blocks.filter(|block: JsonV| calls_a_tool(block))[i].text_at("id"@) == Some(
                    (#[trigger] tools[i]).id,
                ) && blocks.filter(|block: JsonV| calls_a_tool(block))[i].text_at("name"@) == Some(tools[i].name)
        },
    decreases blocks.len(),
{
    reveal(Seq::filter);
    let p = |block: JsonV| calls_a_tool(block);
    if blocks.len() > 0 {
        every_call_is_bound(blocks.drop_last());
        if let Ok(tools) = block_bindings(blocks) {
            let before = block_bindings(blocks.drop_last())->Ok_0;
            let calls = blocks.filter(p);
            assert forall|i: int| 0 <= i < tools.len() implies calls[i].text_at("id"@) == Some((#[trigger] tools[i]).id)
                && calls[i].text_at("name"@) == Some(tools[i].name) by {
                if i < before.len() {
                    assert(before[i] == tools[i]);
                    assert(calls[i] == blocks.drop_last().filter(p)[i]);
                }
            }
        }
    }
}

proof fn digits_are_lower(bytes: Seq<u8>)
    ensures
        hex(bytes).len() == 2 * bytes.len(),
        forall|i: int|
            0 <= i < hex(bytes).len() ==> ('0' <= (#[trigger] hex(bytes)[i]) && hex(bytes)[i] <= '9') || ('a' <= hex(bytes)[i]
                && hex(bytes)[i] <= 'f'),
    decreases bytes.len(),
{
    if bytes.len() > 0 {
        let before = hex(bytes.drop_last());
        digits_are_lower(bytes.drop_last());
        let all = hex(bytes);
        assert forall|i: int| 0 <= i < all.len() implies ('0' <= (#[trigger] all[i]) && all[i] <= '9') || ('a' <= all[i]
            && all[i] <= 'f') by {
            if i < before.len() {
                assert(all[i] == before[i]);
            }
        }
    }
}

/// The file that an entry is written to is known as one of an entry.
pub proof fn written_entries_are_known(lookup_key: Seq<u8>, bytes: Seq<u8>)
    requires
        fingerprint(lookup_key, bytes).len() == 64,
    ensures
        is_entry_name(entry_name(fingerprint(lookup_key, bytes))),
{
    reveal_strlit(".rsn");
    let digits = fingerprint(lookup_key, bytes);
    let name = entry_name(digits);
    let message = vstd::utf8::encode_utf8(crate::reasoning_state::FINGERPRINT_DOMAIN@) + crate::crypto::field(bytes);
    digits_are_lower(hmac_sha256(lookup_key, message));
    assert(name.take(0) =~= Seq::empty());
    assert(name.skip(64) =~= ".rsn"@);
    assert forall|i: int| 0 <= i < 64 implies crate::reasoning_state::lower_hex(#[trigger] name[i]) by {
        assert(name[i] == digits[i]);
    }
}

} // verus!
