//! What holds of stored reasoning as a whole.
use crate::json::{JsonV, NumberV};
use crate::json_model::{
    collected, key_index, key_index_finds, key_index_is, readable, settled, settled_entries, with_entry, with_gives,
};
use crate::reasoning_state::{
    aged, aged_with, any_of, as_blocks, assistant_message, binding_from, binding_json, binding_keys, bindings_from,
    block_bindings, block_from, block_json, block_keys, blocks_fault, blocks_from, captured, cleanup, entry_from,
    entry_json, entry_keys, entry_of_file, evictions, history_fingerprint, inserted, is_call, is_reasoning, normalized, of_kind,
    normalized_entries, object_of, planned, restored_message, size_of_name, size_sum, split, visible_message, visible_messages, with_reasoning,
    without_reasoning, BindingV, BlockKind, EntryV, InfoV, PlanV, RestorePolicy, StoreV, ENTRY_TTL_SECONDS, MAX_ENTRIES,
    MAX_REASONING_BLOCKS, MAX_TOTAL_BYTES,
};
use vstd::prelude::*;

verus! {

/// Reasoning that was taken out of a response's content and put back into its places gives that
/// content again.
pub proof fn parted_content_comes_together(content: Seq<JsonV>)
    requires
        content.len() <= usize::MAX,
        split(content) is Ok,
    ensures
        inserted(split(content)->Ok_0.visible, split(content)->Ok_0.blocks) == Some(content),
{
    parts_fit(content, Seq::empty());
    let parts = split(content)->Ok_0;
    assert(parts.visible + Seq::<JsonV>::empty() =~= parts.visible);
    assert(content + Seq::<JsonV>::empty() =~= content);
}

proof fn parts_fit(content: Seq<JsonV>, more: Seq<JsonV>)
    requires
        content.len() <= usize::MAX,
        split(content) is Ok,
    ensures
        inserted(split(content)->Ok_0.visible + more, split(content)->Ok_0.blocks) == Some(content + more),
        split(content)->Ok_0.blocks.len() + split(content)->Ok_0.visible.len() == content.len(),
        split(content)->Ok_0.blocks.len() > 0 ==> split(content)->Ok_0.blocks.last().0 < content.len(),
    decreases content.len(),
{
    if content.len() == 0 {
        assert(Seq::<JsonV>::empty() + more =~= more);
        assert(content + more =~= more);
    } else {
        let before = content.drop_last();
        let last = content.last();
        let s = split(before)->Ok_0;
        let parts = split(content)->Ok_0;
        if is_reasoning(last) {
            parts_fit(before, more);
            assert(parts.blocks.drop_last() =~= s.blocks);
            assert((before + more).insert(before.len() as int, last) =~= content + more);
        } else {
            parts_fit(before, seq![last] + more);
            assert(parts.visible + more =~= s.visible + (seq![last] + more));
            assert(before + (seq![last] + more) =~= content + more);
        }
    }
}

/// What is visible of a response's content is its content without the reasoning.
pub proof fn visible_parts_are_the_rest(content: Seq<JsonV>)
    requires
        split(content) is Ok,
    ensures
        split(content)->Ok_0.visible == without_reasoning(content),
    decreases content.len(),
{
    if content.len() > 0 {
        visible_parts_are_the_rest(content.drop_last());
    }
}

proof fn insertion_is_invisible(items: Seq<JsonV>, at: int, block: JsonV)
    requires
        0 <= at <= items.len(),
        is_reasoning(block),
    ensures
        without_reasoning(items.insert(at, block)) == without_reasoning(items),
    decreases items.len(),
{
    let after = items.insert(at, block);
    if at == items.len() {
        assert(after.drop_last() =~= items);
    } else {
        assert(after.drop_last() =~= items.drop_last().insert(at, block));
        insertion_is_invisible(items.drop_last(), at, block);
    }
}

/// Reasoning that is put into content is all that is put into it.
pub proof fn insertions_are_invisible(items: Seq<JsonV>, blocks: Seq<(usize, JsonV)>)
    requires
        inserted(items, blocks) is Some,
    ensures
        without_reasoning(inserted(items, blocks).unwrap()) == without_reasoning(items),
    decreases blocks.len(),
{
    if blocks.len() > 0 {
        insertions_are_invisible(items, blocks.drop_last());
        let so_far = inserted(items, blocks.drop_last()).unwrap();
        insertion_is_invisible(so_far, blocks.last().0 as int, blocks.last().1);
    }
}

/// Putting reasoning back into an assistant's message does not change how the fingerprint sees it.
pub proof fn restored_reasoning_is_invisible(message: JsonV, blocks: Seq<(usize, JsonV)>)
    requires
        message.text_at("role"@) == Some("assistant"@),
        with_reasoning(message, blocks) is Ok,
    ensures
        visible_message(with_reasoning(message, blocks)->Ok_0) == visible_message(message),
{
    let items = as_blocks(message.get("content"@).unwrap()).unwrap();
    let all = inserted(items, blocks).unwrap();
    let after = with_reasoning(message, blocks)->Ok_0;
    insertions_are_invisible(items, blocks);
    role_is_not_content();
    with_gives(message, "content"@, JsonV::Array(all));
    let kept = JsonV::Array(without_reasoning(items));
    with_twice(message, "content"@, JsonV::Array(all), kept);
}

proof fn role_is_not_content()
    ensures
        "role"@ != "content"@,
{
    reveal_strlit("role");
    reveal_strlit("content");
    assert("role"@.len() != "content"@.len());
}

proof fn with_twice(tree: JsonV, key: Seq<char>, first: JsonV, second: JsonV)
    requires
        tree is Object,
    ensures
        tree.with(key, first).with(key, second) == tree.with(key, second),
{
    let entries = tree->Object_0;
    key_index_finds(entries, key);
    let at = key_index(entries, key);
    let once = with_entry(entries, key, first);
    if at < entries.len() {
        assert forall|i: int| 0 <= i < at implies (#[trigger] once[i]).0 != key by {
            assert(entries[i].0 != key);
        }
        key_index_is(once, key, at);
        assert(with_entry(once, key, second) =~= with_entry(entries, key, second));
    } else {
        assert forall|i: int| 0 <= i < at implies (#[trigger] once[i]).0 != key by {
            assert(entries[i].0 != key);
        }
        key_index_is(once, key, at);
        assert(with_entry(once, key, second) =~= with_entry(entries, key, second));
    }
}

/// The fingerprint of a history is the same before and after the reasoning of one of its messages
/// is put back.
pub proof fn restored_histories_keep_their_fingerprint(
    messages: Seq<JsonV>,
    i: int,
    blocks: Seq<(usize, JsonV)>,
    lookup_key: Seq<u8>,
    end: int,
    model: Seq<char>,
)
    requires
        0 <= i < messages.len(),
        0 <= end < messages.len(),
        messages[i].text_at("role"@) == Some("assistant"@),
        with_reasoning(messages[i], blocks) is Ok,
    ensures
        history_fingerprint(lookup_key, messages.update(i, with_reasoning(messages[i], blocks)->Ok_0), end, model)
            == history_fingerprint(lookup_key, messages, end, model),
{
    let after = messages.update(i, with_reasoning(messages[i], blocks)->Ok_0);
    restored_reasoning_is_invisible(messages[i], blocks);
    same_visible(messages.take(end + 1), after.take(end + 1));
}

proof fn same_visible(a: Seq<JsonV>, b: Seq<JsonV>)
    requires
        a.len() == b.len(),
        forall|k: int| 0 <= k < a.len() ==> visible_message(#[trigger] a[k]) == visible_message(b[k]),
    ensures
        visible_messages(a) == visible_messages(b),
    decreases a.len(),
{
    if a.len() > 0 {
        assert forall|k: int| 0 <= k < a.drop_last().len() implies visible_message(#[trigger] a.drop_last()[k])
            == visible_message(b.drop_last()[k]) by {
            assert(a[k] == a.drop_last()[k]);
        }
        same_visible(a.drop_last(), b.drop_last());
        assert(a.last() == a[a.len() - 1]);
    }
}

/// A cache marker on a part of the history makes no difference to how the fingerprint sees it.
pub proof fn cache_markers_are_invisible(tree: JsonV, marker: JsonV)
    requires
        tree is Object,
        tree.get("cache_control"@) is None,
    ensures
        normalized(tree.with("cache_control"@, marker)) == normalized(tree),
{
    let key = "cache_control"@;
    let entries = tree->Object_0;
    key_index_finds(entries, key);
    assert(key_index(entries, key) == entries.len());
    let marked = entries.push((key, marker));
    assert(tree.with(key, marker) == JsonV::Object(marked));
    assert(marked.drop_last() =~= entries);
    normalized_keys(entries);
    let plain = normalized_entries(entries);
    let after = normalized_entries(marked);
    assert(after == plain.push((key, normalized(marker))));
    assert forall|i: int| 0 <= i < plain.len() implies (#[trigger] plain[i]).0 != key by {
        assert(entries[i].0 != key);
    }
    assert forall|i: int| 0 <= i < plain.len() implies (#[trigger] after[i]).0 != key by {
        assert(after[i] == plain[i]);
    }
    key_index_is(plain, key, plain.len() as int);
    key_index_is(after, key, plain.len() as int);
    assert(JsonV::Object(after).without(key)->Object_0 =~= plain);
    assert(JsonV::Object(plain).without(key) == JsonV::Object(plain));
}

proof fn normalized_keys(entries: Seq<(Seq<char>, JsonV)>)
    ensures
        normalized_entries(entries).len() == entries.len(),
        forall|i: int| 0 <= i < entries.len() ==> (#[trigger] normalized_entries(entries)[i]).0 == entries[i].0,
    decreases entries.len(),
{
    if entries.len() > 0 {
        normalized_keys(entries.drop_last());
        assert forall|i: int| 0 <= i < entries.len() implies (#[trigger] normalized_entries(entries)[i]).0
            == entries[i].0 by {
            if i < entries.len() - 1 {
                assert(normalized_entries(entries)[i] == normalized_entries(entries.drop_last())[i]);
                assert(entries.drop_last()[i] == entries[i]);
            }
        }
    }
}

proof fn entry_keys_differ()
    ensures
        forall|i: int, j: int| 0 <= i < j < 8 ==> entry_keys()[i] != entry_keys()[j],
{
    reveal_strlit("version");
    reveal_strlit("created_at");
    reveal_strlit("fingerprint");
    reveal_strlit("model");
    reveal_strlit("policy");
    reveal_strlit("tools");
    reveal_strlit("no_reasoning");
    reveal_strlit("blocks");
    let keys = entry_keys();
    assert(keys[0][0] == 'v' && keys[1][0] == 'c' && keys[2][0] == 'f' && keys[3][0] == 'm' && keys[4][0] == 'p'
        && keys[5][0] == 't' && keys[6][0] == 'n' && keys[7][0] == 'b');
}

proof fn entry_json_gives(entry: EntryV)
    ensures
        object_of(entry_json(entry), entry_keys()),
        entry_json(entry).get("version"@) == Some(JsonV::Number(NumberV::PosInt(entry.version as u64))),
        entry_json(entry).get("created_at"@) == Some(JsonV::Number(NumberV::PosInt(entry.created_at))),
        entry_json(entry).get("fingerprint"@) == Some(JsonV::Str(entry.fingerprint)),
        entry_json(entry).get("model"@) == Some(JsonV::Str(entry.model)),
        entry_json(entry).get("policy"@) == Some(JsonV::Str("DeepSeekToolUse"@)),
        entry_json(entry).get("tools"@) == Some(
            JsonV::Array(entry.tools.map_values(|t: BindingV| binding_json(t))),
        ),
        entry_json(entry).get("no_reasoning"@) == Some(JsonV::Bool(entry.no_reasoning)),
        entry_json(entry).get("blocks"@) == Some(
            JsonV::Array(entry.blocks.map_values(|b: (usize, JsonV)| block_json(b))),
        ),
{
    entry_keys_differ();
    let keys = entry_keys();
    let entries = entry_json(entry)->Object_0;
    assert(entries.len() == 8);
    assert forall|i: int| 0 <= i < 8 implies (#[trigger] entries[i]).0 == keys[i] by {}
    assert forall|i: int| 0 <= i < 8 implies keys.contains((#[trigger] entries[i]).0) by {
        assert(keys[i] == entries[i].0);
    }
    key_index_is(entries, keys[0], 0);
    key_index_is(entries, keys[1], 1);
    key_index_is(entries, keys[2], 2);
    key_index_is(entries, keys[3], 3);
    key_index_is(entries, keys[4], 4);
    key_index_is(entries, keys[5], 5);
    key_index_is(entries, keys[6], 6);
    key_index_is(entries, keys[7], 7);
}

proof fn binding_comes_back(tool: BindingV)
    ensures
        binding_from(binding_json(tool)) == Some(tool),
{
    reveal_strlit("id");
    reveal_strlit("name");
    reveal_strlit("input_digest");
    let keys = binding_keys();
    assert(keys[0].len() == 2 && keys[1].len() == 4 && keys[2].len() == 12);
    let entries = binding_json(tool)->Object_0;
    assert(entries.len() == 3);
    assert forall|i: int| 0 <= i < 3 implies keys.contains((#[trigger] entries[i]).0) by {
        assert(keys[i] == entries[i].0);
    }
    key_index_is(entries, keys[0], 0);
    key_index_is(entries, keys[1], 1);
    key_index_is(entries, keys[2], 2);
}

proof fn block_comes_back(block: (usize, JsonV))
    ensures
        block_from(block_json(block)) == Some(block),
{
    reveal_strlit("index");
    reveal_strlit("block");
    let keys = block_keys();
    assert(keys[0][0] == 'i' && keys[1][0] == 'b');
    let entries = block_json(block)->Object_0;
    assert(entries.len() == 2);
    assert forall|i: int| 0 <= i < 2 implies keys.contains((#[trigger] entries[i]).0) by {
        assert(keys[i] == entries[i].0);
    }
    key_index_is(entries, keys[0], 0);
    key_index_is(entries, keys[1], 1);
}

proof fn bindings_come_back(tools: Seq<BindingV>)
    ensures
        bindings_from(tools.map_values(|t: BindingV| binding_json(t))) == Some(tools),
    decreases tools.len(),
{
    let items = tools.map_values(|t: BindingV| binding_json(t));
    if tools.len() > 0 {
        bindings_come_back(tools.drop_last());
        assert(items.drop_last() =~= tools.drop_last().map_values(|t: BindingV| binding_json(t)));
        binding_comes_back(tools.last());
        assert(tools.drop_last().push(tools.last()) =~= tools);
    } else {
        assert(tools =~= Seq::empty());
    }
}

proof fn blocks_come_back(blocks: Seq<(usize, JsonV)>)
    ensures
        blocks_from(blocks.map_values(|b: (usize, JsonV)| block_json(b))) == Some(blocks),
    decreases blocks.len(),
{
    let items = blocks.map_values(|b: (usize, JsonV)| block_json(b));
    if blocks.len() > 0 {
        blocks_come_back(blocks.drop_last());
        assert(items.drop_last() =~= blocks.drop_last().map_values(|b: (usize, JsonV)| block_json(b)));
        block_comes_back(blocks.last());
        assert(blocks.drop_last().push(blocks.last()) =~= blocks);
    } else {
        assert(blocks =~= Seq::empty());
    }
}

/// An entry that was written as JSON is read back as it was.
pub proof fn entries_come_back(entry: EntryV)
    ensures
        entry_from(entry_json(entry)) == Some(entry),
{
    entry_json_gives(entry);
    bindings_come_back(entry.tools);
    blocks_come_back(entry.blocks);
    assert(entry.policy == RestorePolicy::DeepSeekToolUse);
}

/// A value whose text can be read back is filled entry by entry to itself.
pub proof fn readable_values_are_settled(tree: JsonV, depth: nat)
    requires
        readable(tree, depth),
    ensures
        settled(tree) == tree,
    decreases tree,
{
    match tree {
        JsonV::Array(items) => {
            assert forall|i: int| 0 <= i < items.len() implies settled(#[trigger] items[i]) == items[i] by {
                readable_values_are_settled(items[i], (depth - 1) as nat);
            }
            assert(settled(tree)->Array_0 =~= items);
        },
        JsonV::Object(entries) => {
            assert forall|i: int| 0 <= i < entries.len() implies settled((#[trigger] entries[i]).1) == entries[i].1 by {
                readable_values_are_settled(entries[i].1, (depth - 1) as nat);
            }
            settled_entries_are_entries(entries);
            distinct_entries_are_collected(entries);
        },
        _ => {},
    }
}

proof fn settled_entries_are_entries(entries: Seq<(Seq<char>, JsonV)>)
    requires
        forall|i: int| 0 <= i < entries.len() ==> settled((#[trigger] entries[i]).1) == entries[i].1,
    ensures
        settled_entries(entries) == entries,
    decreases entries.len(),
{
    if entries.len() > 0 {
        let shorter = entries.drop_last();
        assert forall|i: int| 0 <= i < shorter.len() implies settled((#[trigger] shorter[i]).1) == shorter[i].1 by {
            assert(shorter[i] == entries[i]);
        }
        settled_entries_are_entries(shorter);
        assert(entries.last() == entries[entries.len() - 1]);
        assert(settled_entries(entries) =~= entries);
    }
}

proof fn distinct_entries_are_collected(entries: Seq<(Seq<char>, JsonV)>)
    requires
        forall|i: int, j: int| 0 <= i < j < entries.len() ==> (#[trigger] entries[i]).0 != (#[trigger] entries[j]).0,
    ensures
        collected(entries) == entries,
    decreases entries.len(),
{
    if entries.len() > 0 {
        let shorter = entries.drop_last();
        assert forall|i: int, j: int| 0 <= i < j < shorter.len() implies (#[trigger] shorter[i]).0 != (
        #[trigger] shorter[j]).0 by {
            assert(shorter[i] == entries[i] && shorter[j] == entries[j]);
        }
        distinct_entries_are_collected(shorter);
        let key = entries.last().0;
        assert forall|i: int| 0 <= i < shorter.len() implies (#[trigger] shorter[i]).0 != key by {
            assert(entries[i].0 != entries[entries.len() - 1].0);
        }
        key_index_is(shorter, key, shorter.len() as int);
        assert(collected(entries) =~= entries);
    }
}

/// A turn that was captured is restored: when its visible history comes again in time, with the
/// file that holds its entry, the assistant's message gets its whole content back.
pub proof fn captured_turns_are_restored(
    store: StoreV,
    request: JsonV,
    response: JsonV,
    model: Seq<char>,
    policy: RestorePolicy,
    written: u64,
    file: Seq<u8>,
    now: u64,
)
    requires
        captured(store.lookup_key, request, response, model, policy, written) matches Ok(Some(_)),
        entry_of_file(store.encryption_key, file) == Ok::<EntryV, Seq<char>>(
            captured(store.lookup_key, request, response, model, policy, written)->Ok_0->Some_0,
        ),
        now - written <= ENTRY_TTL_SECONDS,
    ensures
        ({
            let messages = request.items_at("messages"@).unwrap();
            let content = response.items_at("content"@).unwrap();
            let visible = split(content)->Ok_0.visible;
            restored_message(
                store,
                messages.push(assistant_message(visible)),
                messages.len() as int,
                model,
                policy,
                Some(file),
                now,
            ) == Ok::<JsonV, Seq<char>>(assistant_message(content))
        }),
{
    let entry = captured(store.lookup_key, request, response, model, policy, written)->Ok_0->Some_0;
    let messages = request.items_at("messages"@).unwrap();
    let content = response.items_at("content"@).unwrap();
    let parts = split(content)->Ok_0;
    let message = assistant_message(parts.visible);
    let history = messages.push(message);
    assert(history[messages.len() as int] == message);
    assistant_content(parts.visible);
    split_is_bounded(content);
    bindings_are_bounded(parts.visible);
    parted_content_comes_together(content);
    calls_are_bound(parts.visible);
    if entry.no_reasoning {
        assert(parts.blocks =~= Seq::empty());
        assert(inserted(parts.visible, parts.blocks) == Some(parts.visible));
    } else {
        assistant_with(parts.visible, content);
    }
}

proof fn assistant_content(content: Seq<JsonV>)
    ensures
        assistant_message(content).get("content"@) == Some(JsonV::Array(content)),
{
    role_is_not_content();
    let entries = assistant_message(content)->Object_0;
    assert(entries.len() == 2 && entries[0].0 == "role"@ && entries[1].0 == "content"@);
    key_index_is(entries, "content"@, 1);
}

proof fn assistant_with(visible: Seq<JsonV>, content: Seq<JsonV>)
    ensures
        assistant_message(visible).with("content"@, JsonV::Array(content)) == assistant_message(content),
{
    role_is_not_content();
    let entries = assistant_message(visible)->Object_0;
    assert(entries.len() == 2 && entries[0].0 == "role"@ && entries[1].0 == "content"@);
    key_index_is(entries, "content"@, 1);
    assert(with_entry(entries, "content"@, JsonV::Array(content)) =~= assistant_message(content)->Object_0);
}

proof fn split_is_bounded(content: Seq<JsonV>)
    requires
        split(content) is Ok,
    ensures
        split(content)->Ok_0.blocks.len() <= MAX_REASONING_BLOCKS,
        blocks_fault(split(content)->Ok_0.blocks) is None,
    decreases content.len(),
{
    if content.len() > 0 {
        split_is_bounded(content.drop_last());
        let s = split(content.drop_last())->Ok_0;
        let parts = split(content)->Ok_0;
        if is_reasoning(content.last()) {
            assert(parts.blocks.drop_last() =~= s.blocks);
        }
    }
}

proof fn bindings_are_bounded(blocks: Seq<JsonV>)
    requires
        block_bindings(blocks) is Ok,
    ensures
        block_bindings(blocks)->Ok_0.len() <= MAX_REASONING_BLOCKS,
    decreases blocks.len(),
{
    if blocks.len() > 0 {
        bindings_are_bounded(blocks.drop_last());
    }
}

proof fn calls_are_bound(blocks: Seq<JsonV>)
    requires
        block_bindings(blocks) is Ok,
    ensures
        any_of(blocks, BlockKind::Call) ==> block_bindings(blocks)->Ok_0.len() > 0,
    decreases blocks.len(),
{
    if blocks.len() > 0 {
        calls_are_bound(blocks.drop_last());
        if any_of(blocks, BlockKind::Call) && !is_call(blocks.last()) {
            let i = choose|i: int| 0 <= i < blocks.len() && of_kind(#[trigger] blocks[i], BlockKind::Call);
            assert(of_kind(blocks.drop_last()[i], BlockKind::Call));
        }
    }
}

/// The entries that are left when those of some names are removed.
pub open spec fn left_over(entries: Seq<InfoV>, removed: Seq<Seq<char>>) -> Seq<InfoV>
    decreases entries.len(),
{
    if entries.len() == 0 {
        Seq::empty()
    } else if removed.contains(entries.last().name) {
        left_over(entries.drop_last(), removed)
    } else {
        left_over(entries.drop_last(), removed).push(entries.last())
    }
}

proof fn size_sum_of_more(entries: Seq<InfoV>, entry: InfoV)
    ensures
        size_sum(entries.push(entry)) == size_sum(entries) + entry.size,
{
    assert(entries.push(entry).drop_last() =~= entries);
}

/// What is left of one entry by itself.
spec fn own_size(entry: InfoV, removed: Seq<Seq<char>>) -> nat {
    if removed.contains(entry.name) {
        0
    } else {
        entry.size as nat
    }
}

spec fn own_count(entry: InfoV, removed: Seq<Seq<char>>) -> nat {
    if removed.contains(entry.name) {
        0
    } else {
        1
    }
}

proof fn left_over_of_more(entries: Seq<InfoV>, entry: InfoV, removed: Seq<Seq<char>>)
    ensures
        size_sum(left_over(entries.push(entry), removed)) == size_sum(left_over(entries, removed)) + own_size(entry, removed),
        left_over(entries.push(entry), removed).len() == left_over(entries, removed).len() + own_count(entry, removed),
{
    assert(entries.push(entry).drop_last() =~= entries);
    size_sum_of_more(left_over(entries, removed), entry);
}

/// The order of age makes no difference to what is left.
proof fn left_over_of_sorted(sorted: Seq<InfoV>, entry: InfoV, removed: Seq<Seq<char>>)
    ensures
        size_sum(left_over(aged_with(sorted, entry), removed)) == size_sum(left_over(sorted, removed)) + own_size(
            entry,
            removed,
        ),
        left_over(aged_with(sorted, entry), removed).len() == left_over(sorted, removed).len() + own_count(entry, removed),
        size_sum(aged_with(sorted, entry)) == size_sum(sorted) + entry.size,
        aged_with(sorted, entry).len() == sorted.len() + 1,
    decreases sorted.len(),
{
    if sorted.len() == 0 || sorted.last().modified <= entry.modified {
        left_over_of_more(sorted, entry, removed);
        size_sum_of_more(sorted, entry);
    } else {
        let fewer = sorted.drop_last();
        left_over_of_sorted(fewer, entry, removed);
        left_over_of_more(aged_with(fewer, entry), sorted.last(), removed);
        left_over_of_more(fewer, sorted.last(), removed);
        size_sum_of_more(aged_with(fewer, entry), sorted.last());
        assert(fewer.push(sorted.last()) =~= sorted);
    }
}

proof fn left_over_by_age(entries: Seq<InfoV>, removed: Seq<Seq<char>>)
    ensures
        size_sum(left_over(aged(entries), removed)) == size_sum(left_over(entries, removed)),
        left_over(aged(entries), removed).len() == left_over(entries, removed).len(),
        size_sum(aged(entries)) == size_sum(entries),
        aged(entries).len() == entries.len(),
    decreases entries.len(),
{
    if entries.len() > 0 {
        left_over_by_age(entries.drop_last(), removed);
        left_over_of_sorted(aged(entries.drop_last()), entries.last(), removed);
        left_over_of_more(entries.drop_last(), entries.last(), removed);
        assert(entries.drop_last().push(entries.last()) =~= entries);
    } else {
        assert(aged(entries) =~= entries);
    }
}

/// The more names are removed, the less is left.
proof fn more_removed_less_left(entries: Seq<InfoV>, removed: Seq<Seq<char>>, name: Seq<char>)
    ensures
        size_sum(left_over(entries, removed.push(name))) <= size_sum(left_over(entries, removed)),
        left_over(entries, removed.push(name)).len() <= left_over(entries, removed).len(),
    decreases entries.len(),
{
    if entries.len() > 0 {
        let fewer = entries.drop_last();
        more_removed_less_left(fewer, removed, name);
        left_over_of_more(fewer, entries.last(), removed);
        left_over_of_more(fewer, entries.last(), removed.push(name));
        assert(fewer.push(entries.last()) =~= entries);
        if removed.contains(entries.last().name) {
            let i = choose|i: int| 0 <= i < removed.len() && removed[i] == entries.last().name;
            assert(removed.push(name)[i] == entries.last().name);
        }
    }
}

/// What the running counts of a plan leave out is at most what was removed.
proof fn plans_count_what_is_left(
    sorted: Seq<InfoV>,
    start: PlanV,
    target: Option<Seq<char>>,
    max_total: nat,
    max_entries: nat,
)
    ensures
        ({
            let plan = planned(sorted, start, target, max_total, max_entries);
            &&& size_sum(left_over(sorted, plan.removed)) + start.total <= plan.total + size_sum(sorted)
            &&& left_over(sorted, plan.removed).len() + start.count <= plan.count + sorted.len()
        }),
    decreases sorted.len(),
{
    if sorted.len() > 0 {
        let fewer = sorted.drop_last();
        let entry = sorted.last();
        let before = planned(fewer, start, target, max_total, max_entries);
        let plan = planned(sorted, start, target, max_total, max_entries);
        plans_count_what_is_left(fewer, start, target, max_total, max_entries);
        assert(fewer.push(entry) =~= sorted);
        left_over_of_more(fewer, entry, plan.removed);
        size_sum_of_more(fewer, entry);
        if plan.removed != before.removed {
            more_removed_less_left(fewer, before.removed, entry.name);
            assert(plan.removed[before.removed.len() as int] == entry.name);
        }
    }
}

/// A plan that is made for a store keeps its bounds: what is left when its entries are removed has at most
/// so many bytes and so many entries.
pub proof fn plans_keep_the_bounds(entries: Seq<InfoV>, target: Option<Seq<char>>, max_total: nat, max_entries: nat)
    ensures
        evictions(entries, size_sum(entries), entries.len(), target, max_total, max_entries) matches Some(removed) ==> {
            &&& size_sum(left_over(entries, removed)) <= max_total
            &&& left_over(entries, removed).len() <= max_entries
        },
{
    let start = PlanV { total: size_sum(entries), count: entries.len(), removed: Seq::empty() };
    let plan = planned(aged(entries), start, target, max_total, max_entries);
    plans_count_what_is_left(aged(entries), start, target, max_total, max_entries);
    left_over_by_age(entries, plan.removed);
}

/// The entries beside the one that is written.
pub open spec fn beside(entries: Seq<InfoV>, removed: Seq<Seq<char>>, target: Option<Seq<char>>) -> Seq<InfoV> {
    match target {
        Some(name) => left_over(entries, removed.push(name)),
        None => left_over(entries, removed),
    }
}

proof fn the_replaced_goes(entries: Seq<InfoV>, removed: Seq<Seq<char>>, name: Seq<char>)
    requires
        !removed.contains(name),
    ensures
        size_of_name(entries, Some(name)) matches Some(size) ==> {
            &&& size_sum(left_over(entries, removed.push(name))) + size <= size_sum(left_over(entries, removed))
            &&& left_over(entries, removed.push(name)).len() + 1 <= left_over(entries, removed).len()
        },
        size_of_name(entries, Some(name)) matches Some(size) ==> size <= size_sum(entries),
    decreases entries.len(),
{
    if entries.len() > 0 {
        let fewer = entries.drop_last();
        let last = entries.last();
        the_replaced_goes(fewer, removed, name);
        more_removed_less_left(fewer, removed, name);
        left_over_of_more(fewer, last, removed);
        left_over_of_more(fewer, last, removed.push(name));
        assert(fewer.push(last) =~= entries);
        assert(removed.push(name)[removed.len() as int] == name);
        if removed.contains(last.name) {
            let i = choose|i: int| 0 <= i < removed.len() && removed[i] == last.name;
            assert(removed.push(name)[i] == last.name);
        }
    }
}

/// A store keeps its bounds through a write: when the planned entries are removed and an entry is written,
/// in place of the one of its name, the store has at most so many bytes and so many entries.
pub proof fn stores_keep_the_bounds(entries: Seq<InfoV>, incoming: u64, target: Option<Seq<char>>)
    requires
        size_sum(entries) + incoming <= u64::MAX,
    ensures
        cleanup(entries, incoming, target) matches Some(removed) ==> {
            &&& size_sum(beside(entries, removed, target)) + incoming <= MAX_TOTAL_BYTES
            &&& beside(entries, removed, target).len() + (if incoming > 0 {
                1nat
            } else {
                0nat
            }) <= MAX_ENTRIES
        },
{
    if let Some(removed) = cleanup(entries, incoming, target) {
        let replaced = size_of_name(entries, target);
        let taken = match replaced {
            Some(size) => size as nat,
            None => 0,
        };
        if let Some(name) = target {
            the_replaced_goes(entries, Seq::empty(), name);
        } else {
            nothing_has_no_name(entries);
        }
        let total = (size_sum(entries) - taken + incoming) as nat;
        let count = entries.len() + if incoming > 0 && replaced is None {
            1nat
        } else {
            0nat
        };
        let start = PlanV { total, count, removed: Seq::empty() };
        let plan = planned(aged(entries), start, target, MAX_TOTAL_BYTES as nat, MAX_ENTRIES as nat);
        assert(plan.removed == removed);
        plans_count_what_is_left(aged(entries), start, target, MAX_TOTAL_BYTES as nat, MAX_ENTRIES as nat);
        left_over_by_age(entries, removed);
        if let Some(name) = target {
            the_target_stays(entries, total, count, name, MAX_TOTAL_BYTES as nat, MAX_ENTRIES as nat);
            the_replaced_goes(entries, removed, name);
            more_removed_less_left(entries, removed, name);
        }
    }
}

proof fn nothing_has_no_name(entries: Seq<InfoV>)
    ensures
        size_of_name(entries, None) is None,
    decreases entries.len(),
{
    if entries.len() > 0 {
        nothing_has_no_name(entries.drop_last());
    }
}

/// The entry that is about to be written is never removed to make room for itself.
pub proof fn the_target_stays(
    entries: Seq<InfoV>,
    total: nat,
    count: nat,
    target: Seq<char>,
    max_total: nat,
    max_entries: nat,
)
    requires
        evictions(entries, total, count, Some(target), max_total, max_entries) is Some,
    ensures
        !evictions(entries, total, count, Some(target), max_total, max_entries).unwrap().contains(target),
{
    target_is_passed_over(
        aged(entries),
        PlanV { total, count, removed: Seq::empty() },
        target,
        max_total,
        max_entries,
    );
}

proof fn target_is_passed_over(
    sorted: Seq<InfoV>,
    start: PlanV,
    target: Seq<char>,
    max_total: nat,
    max_entries: nat,
)
    requires
        !start.removed.contains(target),
    ensures
        !planned(sorted, start, Some(target), max_total, max_entries).removed.contains(target),
    decreases sorted.len(),
{
    if sorted.len() > 0 {
        target_is_passed_over(sorted.drop_last(), start, target, max_total, max_entries);
        let before = planned(sorted.drop_last(), start, Some(target), max_total, max_entries).removed;
        let after = planned(sorted, start, Some(target), max_total, max_entries).removed;
        if after.contains(target) {
            let i = choose|i: int| 0 <= i < after.len() && after[i] == target;
            if i < before.len() {
                assert(before[i] == target);
            }
        }
    }
}

/// Nothing is removed from a store that keeps its bounds.
pub proof fn roomy_stores_lose_nothing(
    entries: Seq<InfoV>,
    total: nat,
    count: nat,
    target: Option<Seq<char>>,
    max_total: nat,
    max_entries: nat,
)
    requires
        total <= max_total,
        count <= max_entries,
    ensures
        evictions(entries, total, count, target, max_total, max_entries) == Some(Seq::<Seq<char>>::empty()),
{
    nothing_happens(
        aged(entries),
        PlanV { total, count, removed: Seq::empty() },
        target,
        max_total,
        max_entries,
    );
}

proof fn nothing_happens(
    sorted: Seq<InfoV>,
    start: PlanV,
    target: Option<Seq<char>>,
    max_total: nat,
    max_entries: nat,
)
    requires
        start.total <= max_total,
        start.count <= max_entries,
    ensures
        planned(sorted, start, target, max_total, max_entries) == start,
    decreases sorted.len(),
{
    if sorted.len() > 0 {
        nothing_happens(sorted.drop_last(), start, target, max_total, max_entries);
    }
}

/// Entries are considered from the oldest to the newest, each of them once.
pub proof fn entries_are_considered_by_age(entries: Seq<InfoV>)
    ensures
        aged(entries).len() == entries.len(),
        aged(entries).to_multiset() == entries.to_multiset(),
        forall|i: int, j: int|
            0 <= i <= j < aged(entries).len() ==> (#[trigger] aged(entries)[i]).modified <= (
            #[trigger] aged(entries)[j]).modified,
    decreases entries.len(),
{
    broadcast use vstd::seq_lib::group_to_multiset_ensures;

    if entries.len() > 0 {
        entries_are_considered_by_age(entries.drop_last());
        aged_with_keeps_order(aged(entries.drop_last()), entries.last());
        assert(entries =~= entries.drop_last().push(entries.last()));
    } else {
        assert(aged(entries) =~= entries);
    }
}

proof fn aged_with_keeps_order(sorted: Seq<InfoV>, entry: InfoV)
    requires
        forall|i: int, j: int|
            0 <= i <= j < sorted.len() ==> (#[trigger] sorted[i]).modified <= (#[trigger] sorted[j]).modified,
    ensures
        aged_with(sorted, entry).len() == sorted.len() + 1,
        aged_with(sorted, entry).to_multiset() == sorted.to_multiset().insert(entry),
        forall|i: int, j: int|
            0 <= i <= j < aged_with(sorted, entry).len() ==> (#[trigger] aged_with(sorted, entry)[i]).modified <= (
            #[trigger] aged_with(sorted, entry)[j]).modified,
        forall|i: int|
            0 <= i < aged_with(sorted, entry).len() ==> (#[trigger] aged_with(sorted, entry)[i]) == entry
                || sorted.contains(aged_with(sorted, entry)[i]),
    decreases sorted.len(),
{
    broadcast use vstd::seq_lib::group_to_multiset_ensures;

    let out = aged_with(sorted, entry);
    if sorted.len() == 0 || sorted.last().modified <= entry.modified {
        assert forall|i: int| 0 <= i < out.len() implies (#[trigger] out[i]) == entry || sorted.contains(out[i]) by {
            if i < sorted.len() {
                assert(out[i] == sorted[i]);
            }
        }
        assert forall|i: int, j: int| 0 <= i <= j < out.len() implies (#[trigger] out[i]).modified <= (
        #[trigger] out[j]).modified by {
            if i < sorted.len() {
                assert(sorted[i].modified <= sorted[sorted.len() - 1].modified);
            }
        }
    } else {
        let shorter = sorted.drop_last();
        let last = sorted.last();
        assert forall|i: int, j: int| 0 <= i <= j < shorter.len() implies (#[trigger] shorter[i]).modified <= (
        #[trigger] shorter[j]).modified by {
            assert(shorter[i] == sorted[i] && shorter[j] == sorted[j]);
        }
        aged_with_keeps_order(shorter, entry);
        let before = aged_with(shorter, entry);
        assert(out == before.push(last));
        assert(sorted =~= shorter.push(last));
        assert(out.to_multiset() =~= sorted.to_multiset().insert(entry));
        assert forall|i: int| 0 <= i < before.len() implies (#[trigger] before[i]).modified <= last.modified by {
            if before[i] != entry {
                assert(shorter.contains(before[i]));
                let k = choose|k: int| 0 <= k < shorter.len() && shorter[k] == before[i];
                assert(sorted[k].modified <= sorted[sorted.len() - 1].modified);
            }
        }
        assert forall|i: int, j: int| 0 <= i <= j < out.len() implies (#[trigger] out[i]).modified <= (
        #[trigger] out[j]).modified by {
            if j < before.len() {
                assert(out[i] == before[i] && out[j] == before[j]);
            } else if i < before.len() {
                assert(out[i] == before[i]);
            }
        }
        assert forall|i: int| 0 <= i < out.len() implies (#[trigger] out[i]) == entry || sorted.contains(out[i]) by {
            if i < before.len() {
                assert(out[i] == before[i]);
                if before[i] != entry {
                    assert(shorter.contains(before[i]));
                    let k = choose|k: int| 0 <= k < shorter.len() && shorter[k] == before[i];
                    assert(sorted[k] == before[i]);
                }
            } else {
                assert(sorted[sorted.len() - 1] == last);
            }
        }
    }
}

} // verus!
