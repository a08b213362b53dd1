//! A request that was normalised is normal: normalising it again changes nothing and names no rule.
use crate::anthropic_compat_laws::{keys_are_distinct, taken_out_is_gone};
use crate::deepseek_compat::{
    adopted, adopted_blocks, adopted_content, adopted_message, answered, any_malformed, auto_made_adaptive, block_text,
    called_before, calls_a_tool, clamped, clamped_body, disabled_thinking, distinct, has_orphans, holds_malformed,
    holds_thinking, is_malformed, is_role, is_thinking_block, lacking_at_head, lacking_results, lacks_answers,
    message_is_malformed, names_one_tool, needs_thinking, normalized, paired_body, repaired_blocks, repaired_body,
    repaired_message, repaired_messages, replay_changes, replayed_block, replayed_blocks, replayed_body, replayed_message,
    result_ids, results_message, synthetic_result, thinking_is_disabled, thinking_turned_off, thinks_auto, use_ids,
    with_results, without_effort, OMITTED_ORPHAN_TOOL_RESULT, REDACTED_THINKING_PLACEHOLDER, THINKING_PLACEHOLDER,
};
use crate::deepseek_compat_laws::{
    answered_histories_are_kept, called_histories_are_kept, content_keeps_role, repaired_histories_are_paired, synthetic_ids,
};
use crate::json::{JsonV, NumberV};
use crate::json_model::{
    and_gives, group_json_views, json_eq, key_index, key_index_finds, key_index_is, text_block, typed_block, with_gives,
    with_same_value,
};
use crate::text::{is_blank, is_space};
use vstd::prelude::*;

verus! {

broadcast use group_json_views;

/// Whether no object of a tree has a key twice.
pub open spec fn well_keyed(tree: JsonV) -> bool
    decreases tree,
{
    match tree {
        JsonV::Array(items) => forall|i: int| 0 <= i < items.len() ==> well_keyed(#[trigger] items[i]),
        JsonV::Object(entries) => keys_are_distinct(tree) && forall|i: int|
            0 <= i < entries.len() ==> well_keyed((#[trigger] entries[i]).1),
        _ => true,
    }
}

/// What stands under a key of a tree without repeated keys has none either.
pub proof fn values_are_well_keyed(tree: JsonV, key: Seq<char>)
    requires
        well_keyed(tree),
    ensures
        keys_are_distinct(tree),
        tree.get(key) matches Some(value) ==> well_keyed(value),
{
    if let JsonV::Object(entries) = tree {
        key_index_finds(entries, key);
    }
}

/// Taking a key out leaves the others alone.
pub proof fn taking_out_keeps_the_rest(tree: JsonV, key: Seq<char>, other: Seq<char>)
    requires
        keys_are_distinct(tree),
    ensures
        keys_are_distinct(tree.without(key)),
        tree is Object ==> tree.without(key) is Object,
        tree.get(key) is None ==> tree.without(key) == tree,
        other != key ==> tree.without(key).get(other) == tree.get(other),
{
    if let JsonV::Object(entries) = tree {
        key_index_finds(entries, key);
        key_index_finds(entries, other);
        let at = key_index(entries, key);
        if at < entries.len() {
            let end = entries.len() - 1;
            let after = entries.update(at, entries.last()).drop_last();
            assert forall|i: int, j: int| 0 <= i < j < after.len() implies (#[trigger] after[i]).0 != (#[trigger] after[j]).0 by {
                if i == at {
                    assert(entries[j].0 != entries[end].0);
                } else if j == at {
                    assert(entries[i].0 != entries[end].0);
                } else {
                    assert(entries[i].0 != entries[j].0);
                }
            }
            if other != key {
                let place = key_index(entries, other);
                if place == entries.len() {
                    assert forall|i: int| 0 <= i < after.len() implies (#[trigger] after[i]).0 != other by {
                        assert(entries[i].0 != other);
                        assert(entries[end].0 != other);
                    }
                    key_index_is(after, other, after.len() as int);
                } else {
                    let now = if place == end {
                        at
                    } else {
                        place
                    };
                    assert(after[now] == entries[place]);
                    key_index_finds(after, other);
                    let found = key_index(after, other);
                    if found < after.len() && found != now {
                        if found < now {
                            assert(after[found].0 != after[now].0);
                        } else {
                            assert(after[now].0 != other);
                        }
                    }
                }
            }
        }
    }
}

/// Giving a key a value repeats no key.
pub proof fn giving_keeps_keys(tree: JsonV, key: Seq<char>, value: JsonV)
    requires
        keys_are_distinct(tree),
    ensures
        keys_are_distinct(tree.with(key, value)),
{
    if let JsonV::Object(entries) = tree {
        key_index_finds(entries, key);
        let after = crate::json_model::with_entry(entries, key, value);
        assert forall|i: int, j: int| 0 <= i < j < after.len() implies (#[trigger] after[i]).0 != (#[trigger] after[j]).0 by {
            if j < entries.len() {
                assert(entries[i].0 != entries[j].0);
            } else {
                assert(entries[i].0 != key);
            }
        }
    }
}

/// Whether a body has no effort settings that could be taken out.
pub open spec fn effortless(body: JsonV) -> bool {
    &&& body.get("reasoning_effort"@) is None
    &&& body.get("output_config"@) matches Some(JsonV::Object(entries)) ==> {
        &&& JsonV::Object(entries).get("effort"@) is None
        &&& JsonV::Object(entries) != JsonV::object()
    }
}

proof fn settings_differ()
    ensures
        "reasoning_effort"@ != "output_config"@,
        "max_tokens"@ != "thinking"@,
        "max_tokens"@ != "reasoning_effort"@,
        "max_tokens"@ != "output_config"@,
        "max_tokens"@ != "messages"@,
        "tool_choice"@ != "max_tokens"@,
        "tool_choice"@ != "thinking"@,
        "tool_choice"@ != "reasoning_effort"@,
        "tool_choice"@ != "output_config"@,
        "tool_choice"@ != "messages"@,
        "thinking"@ != "reasoning_effort"@,
        "thinking"@ != "output_config"@,
        "thinking"@ != "messages"@,
        "reasoning_effort"@ != "messages"@,
        "output_config"@ != "messages"@,
{
    reveal_strlit("reasoning_effort");
    reveal_strlit("output_config");
    reveal_strlit("max_tokens");
    reveal_strlit("thinking");
    reveal_strlit("tool_choice");
    reveal_strlit("messages");
    assert("reasoning_effort"@.len() == 16 && "output_config"@.len() == 13 && "max_tokens"@.len() == 10);
    assert("thinking"@.len() == 8 && "tool_choice"@.len() == 11 && "messages"@.len() == 8);
    assert("thinking"@[0] == 't' && "messages"@[0] == 'm');
}

proof fn effort_goes(body: JsonV, other: Seq<char>)
    requires
        keys_are_distinct(body),
        body.get("output_config"@) matches Some(config) ==> keys_are_distinct(config),
    ensures
        effortless(without_effort(body).0),
        keys_are_distinct(without_effort(body).0),
        other != "reasoning_effort"@ && other != "output_config"@ ==> without_effort(body).0.get(other) == body.get(other),
{
    settings_differ();
    let plain = body.without("reasoning_effort"@);
    taken_out_is_gone(body, "reasoning_effort"@);
    taking_out_keeps_the_rest(body, "reasoning_effort"@, "output_config"@);
    taking_out_keeps_the_rest(body, "reasoning_effort"@, other);
    if let Some(JsonV::Object(entries)) = plain.get("output_config"@) {
        let config = JsonV::Object(entries).without("effort"@);
        let kept = plain.with("output_config"@, config);
        taken_out_is_gone(JsonV::Object(entries), "effort"@);
        taking_out_keeps_the_rest(JsonV::Object(entries), "effort"@, other);
        with_gives(plain, "output_config"@, config);
        giving_keeps_keys(plain, "output_config"@, config);
        if config == JsonV::object() {
            taken_out_is_gone(kept, "output_config"@);
            taking_out_keeps_the_rest(kept, "output_config"@, other);
            taking_out_keeps_the_rest(kept, "output_config"@, "reasoning_effort"@);
        }
    }
}

proof fn the_effortless_stays(body: JsonV)
    requires
        keys_are_distinct(body),
        body.get("output_config"@) matches Some(config) ==> keys_are_distinct(config),
        effortless(body),
    ensures
        without_effort(body) == (body, false),
{
    taking_out_keeps_the_rest(body, "reasoning_effort"@, "output_config"@);
    if let Some(JsonV::Object(entries)) = body.get("output_config"@) {
        taking_out_keeps_the_rest(JsonV::Object(entries), "effort"@, ""@);
        with_same_value(body, "output_config"@);
    }
}

/// Whether the settings of a request need no change.
pub open spec fn settings_are_normal(body: JsonV, model: Seq<char>) -> bool {
    &&& body.unsigned_at("max_tokens"@) matches Some(limit) ==> clamped(limit, model) == limit
    &&& names_one_tool(body) ==> body.get("thinking"@) == Some(disabled_thinking())
    &&& !names_one_tool(body) ==> !thinks_auto(body)
    &&& thinking_is_disabled(body) ==> effortless(body)
}

/// A request with its settings made normal.
pub open spec fn with_normal_settings(body: JsonV, model: Seq<char>) -> JsonV {
    let capped = clamped_body(body, model);
    let thought = if names_one_tool(capped) {
        thinking_turned_off(capped).0
    } else {
        auto_made_adaptive(capped)
    };
    if thinking_is_disabled(thought) {
        without_effort(thought).0
    } else {
        thought
    }
}

proof fn disabled_is_disabled()
    ensures
        disabled_thinking().text_at("type"@) == Some("disabled"@),
        json_eq(disabled_thinking(), disabled_thinking()),
        "adaptive"@ != "auto"@,
{
    reveal_strlit("adaptive");
    reveal_strlit("auto");
    assert("adaptive"@.len() == 8 && "auto"@.len() == 4);
    let entries = Seq::<(Seq<char>, JsonV)>::empty().push(("type"@, JsonV::Str("disabled"@)));
    assert(disabled_thinking() == JsonV::Object(entries));
    assert(entries[0] == ("type"@, JsonV::Str("disabled"@)));
    key_index_is(entries, "type"@, 0);
    assert(json_eq(JsonV::Str("disabled"@), JsonV::Str("disabled"@)));
    assert forall|i: int| 0 <= i < entries.len() implies match disabled_thinking().get((#[trigger] entries[i]).0) {
        Some(v) => json_eq(entries[i].1, v),
        None => false,
    } by {
        assert(i == 0);
    }
}

spec fn is_capped(body: JsonV, model: Seq<char>) -> bool {
    body.unsigned_at("max_tokens"@) matches Some(limit) ==> clamped(limit, model) == limit
}

/// The settings of a body whose token limit fits.
proof fn capped_thought_is_normal(capped: JsonV, model: Seq<char>)
    requires
        capped is Object,
        keys_are_distinct(capped),
        capped.get("output_config"@) matches Some(config) ==> keys_are_distinct(config),
        is_capped(capped, model),
    ensures
        ({
            let thought = if names_one_tool(capped) {
                thinking_turned_off(capped).0
            } else {
                auto_made_adaptive(capped)
            };
            let calm = if thinking_is_disabled(thought) {
                without_effort(thought).0
            } else {
                thought
            };
            &&& settings_are_normal(calm, model)
            &&& calm is Object
            &&& keys_are_distinct(calm)
            &&& calm.get("messages"@) == capped.get("messages"@)
            &&& calm.get("output_config"@) matches Some(config) ==> keys_are_distinct(config)
        }),
{
    settings_differ();
    disabled_is_disabled();
    if names_one_tool(capped) {
        let told = capped.with("thinking"@, disabled_thinking());
        with_gives(capped, "thinking"@, disabled_thinking());
        giving_keeps_keys(capped, "thinking"@, disabled_thinking());
        let off = without_effort(told).0;
        stripped_settings(told);
        the_effortless_stays(off);
    } else {
        let thought = auto_made_adaptive(capped);
        if thinks_auto(capped) {
            let thinking = capped.get("thinking"@).unwrap();
            let adaptive = thinking.with("type"@, JsonV::Str("adaptive"@));
            with_gives(thinking, "type"@, JsonV::Str("adaptive"@));
            with_gives(capped, "thinking"@, adaptive);
            giving_keeps_keys(capped, "thinking"@, adaptive);
        }
        stripped_settings(thought);
    }
}

proof fn stripped_settings(body: JsonV)
    requires
        body is Object,
        keys_are_distinct(body),
        body.get("output_config"@) matches Some(config) ==> keys_are_distinct(config),
    ensures
        ({
            let stripped = without_effort(body).0;
            &&& effortless(stripped)
            &&& stripped is Object
            &&& keys_are_distinct(stripped)
            &&& stripped.get("output_config"@) matches Some(config) ==> keys_are_distinct(config)
            &&& stripped.get("max_tokens"@) == body.get("max_tokens"@)
            &&& stripped.get("tool_choice"@) == body.get("tool_choice"@)
            &&& stripped.get("thinking"@) == body.get("thinking"@)
            &&& stripped.get("messages"@) == body.get("messages"@)
        }),
{
    settings_differ();
    effort_goes(body, "max_tokens"@);
    effort_goes(body, "tool_choice"@);
    effort_goes(body, "thinking"@);
    effort_goes(body, "messages"@);
    let plain = body.without("reasoning_effort"@);
    taking_out_keeps_the_rest(body, "reasoning_effort"@, "output_config"@);
    if let Some(JsonV::Object(entries)) = plain.get("output_config"@) {
        let config = JsonV::Object(entries).without("effort"@);
        let kept = plain.with("output_config"@, config);
        taking_out_keeps_the_rest(JsonV::Object(entries), "effort"@, ""@);
        with_gives(plain, "output_config"@, config);
        giving_keeps_keys(plain, "output_config"@, config);
        taken_out_is_gone(kept, "output_config"@);
        taking_out_keeps_the_rest(kept, "output_config"@, ""@);
    }
}

/// The steps on settings make them normal, and leave the messages alone.
pub proof fn settings_become_normal(body: JsonV, model: Seq<char>)
    requires
        well_keyed(body),
        body is Object,
    ensures
        settings_are_normal(with_normal_settings(body, model), model),
        keys_are_distinct(with_normal_settings(body, model)),
        with_normal_settings(body, model) is Object,
        with_normal_settings(body, model).get("messages"@) == body.get("messages"@),
        with_normal_settings(body, model).get("output_config"@) matches Some(config) ==> keys_are_distinct(config),
{
    settings_differ();
    disabled_is_disabled();
    values_are_well_keyed(body, "output_config"@);
    if let Some(config) = body.get("output_config"@) {
        values_are_well_keyed(config, ""@);
    }
    let capped = clamped_body(body, model);
    if let Some(limit) = body.unsigned_at("max_tokens"@) {
        let value = JsonV::Number(NumberV::PosInt(clamped(limit, model)));
        with_gives(body, "max_tokens"@, value);
        giving_keeps_keys(body, "max_tokens"@, value);
    }
    capped_thought_is_normal(capped, model);
}

proof fn normal_settings_stay(body: JsonV, model: Seq<char>)
    requires
        keys_are_distinct(body),
        body.get("output_config"@) matches Some(config) ==> keys_are_distinct(config),
        settings_are_normal(body, model),
    ensures
        clamped_body(body, model) == body,
        names_one_tool(body) ==> thinking_turned_off(body) == (body, false),
        !names_one_tool(body) ==> auto_made_adaptive(body) == body && !thinks_auto(body),
        thinking_is_disabled(body) ==> without_effort(body) == (body, false),
{
    disabled_is_disabled();
    with_same_value(body, "thinking"@);
    if thinking_is_disabled(body) {
        the_effortless_stays(body);
    }
}

/// Whether the replay of thinking leaves a block alone.
pub open spec fn block_is_replayed(block: JsonV) -> bool {
    replayed_block(block) == (block, false)
}

/// Whether a turn that must carry thinking carries it, in the form that the upstream takes back.
pub open spec fn message_is_replayed(message: JsonV) -> bool {
    needs_thinking(message) ==> {
        let blocks = message.items_at("content"@).unwrap();
        &&& holds_thinking(blocks)
        &&& forall|i: int| 0 <= i < blocks.len() ==> block_is_replayed(#[trigger] blocks[i])
    }
}

proof fn kinds_differ()
    ensures
        "thinking"@ != "redacted_thinking"@,
        "thinking"@ != "tool_use"@,
        "thinking"@ != "text"@,
        "thinking"@ != "signature"@,
        "type"@ != "signature"@,
        "type"@ != "thinking"@,
        "redacted_thinking"@ != "tool_use"@,
        "redacted_thinking"@ != "text"@,
        "tool_use"@ != "text"@,
        "role"@ != "content"@,
        "user"@ != "assistant"@,
        !is_blank(THINKING_PLACEHOLDER@),
        !is_blank(REDACTED_THINKING_PLACEHOLDER@),
{
    reveal_strlit("thinking");
    reveal_strlit("redacted_thinking");
    reveal_strlit("tool_use");
    reveal_strlit("text");
    reveal_strlit("signature");
    reveal_strlit("type");
    reveal_strlit("role");
    reveal_strlit("content");
    reveal_strlit("user");
    reveal_strlit("assistant");
    reveal_strlit("tool call");
    reveal_strlit("[redacted thinking]");
    assert("thinking"@.len() == 8 && "redacted_thinking"@.len() == 17 && "tool_use"@.len() == 8 && "text"@.len() == 4);
    assert("signature"@.len() == 9 && "type"@.len() == 4 && "role"@.len() == 4 && "content"@.len() == 7);
    assert("user"@.len() == 4 && "assistant"@.len() == 9);
    assert("thinking"@[1] == 'h' && "tool_use"@[1] == 'o');
    assert(THINKING_PLACEHOLDER@[0] == 't' && !is_space('t'));
    assert(REDACTED_THINKING_PLACEHOLDER@[0] == '[' && !is_space('['));
}

proof fn server_kinds_differ()
    ensures
        !is_server_kind("text"@),
        !is_server_kind("thinking"@),
        !is_server_kind("redacted_thinking"@),
        !is_server_kind("tool_use"@),
        !is_server_kind("tool_result"@),
{
    reveal_strlit("text");
    reveal_strlit("thinking");
    reveal_strlit("redacted_thinking");
    reveal_strlit("tool_use");
    reveal_strlit("tool_result");
    reveal_strlit("web_search_tool_result");
    reveal_strlit("web_fetch_tool_result");
    reveal_strlit("code_execution_tool_result");
    reveal_strlit("server_tool_use");
    assert("text"@.len() == 4 && "thinking"@.len() == 8 && "redacted_thinking"@.len() == 17 && "tool_use"@.len() == 8);
    assert("tool_result"@.len() == 11 && "web_search_tool_result"@.len() == 22 && "web_fetch_tool_result"@.len() == 21);
    assert("code_execution_tool_result"@.len() == 26 && "server_tool_use"@.len() == 15);
}

/// Whether blocks of a kind must have an id.
spec fn is_server_kind(kind: Seq<char>) -> bool {
    kind == "web_search_tool_result"@ || kind == "web_fetch_tool_result"@ || kind == "code_execution_tool_result"@ || kind
        == "server_tool_use"@
}

proof fn typed_block_gives(kind: Seq<char>, key: Seq<char>, text: Seq<char>)
    requires
        key != "type"@,
    ensures
        typed_block(kind, key, text).text_at("type"@) == Some(kind),
        typed_block(kind, key, text).text_at(key) == Some(text),
        forall|other: Seq<char>|
            other != "type"@ && other != key ==> #[trigger] typed_block(kind, key, text).get(other) is None,
{
    let one = JsonV::object().and("type"@, JsonV::Str(kind));
    and_gives(JsonV::object(), "type"@, JsonV::Str(kind), "type"@);
    and_gives(JsonV::object(), "type"@, JsonV::Str(kind), key);
    and_gives(one, key, JsonV::Str(text), "type"@);
    and_gives(one, key, JsonV::Str(text), key);
    assert forall|other: Seq<char>| other != "type"@ && other != key implies #[trigger] typed_block(kind, key, text).get(
        other,
    ) is None by {
        and_gives(JsonV::object(), "type"@, JsonV::Str(kind), other);
        and_gives(one, key, JsonV::Str(text), other);
    }
}

proof fn placeholders_are_replayed(text: Seq<char>)
    requires
        !is_blank(text),
    ensures
        block_is_replayed(typed_block("thinking"@, "thinking"@, text)),
        is_thinking_block(typed_block("thinking"@, "thinking"@, text)),
{
    kinds_differ();
    typed_block_gives("thinking"@, "thinking"@, text);
    let block = typed_block("thinking"@, "thinking"@, text);
    assert(block.get("signature"@) is None);
    let entries = block->Object_0;
    key_index_finds(entries, "signature"@);
}

proof fn texts_are_replayed(text: Seq<char>)
    ensures
        block_is_replayed(text_block(text)),
        !is_thinking_block(text_block(text)),
        text_block(text).text_at("type"@) == Some("text"@),
        !is_malformed(text_block(text)),
{
    kinds_differ();
    server_kinds_differ();
    reveal_strlit("text");
    reveal_strlit("type");
    assert("text"@[1] == 'e' && "type"@[1] == 'y');
    typed_block_gives("text"@, "text"@, text);
}

proof fn blocks_become_replayed(block: JsonV)
    requires
        keys_are_distinct(block),
    ensures
        block_is_replayed(replayed_block(block).0),
        is_thinking_block(block) ==> is_thinking_block(replayed_block(block).0),
        !is_thinking_block(block) ==> replayed_block(block).0 == block,
{
    kinds_differ();
    if block.text_at("type"@) == Some("thinking"@) {
        let unsigned = block.without("signature"@);
        taken_out_is_gone(block, "signature"@);
        taking_out_keeps_the_rest(block, "signature"@, "type"@);
        taking_out_keeps_the_rest(block, "signature"@, "thinking"@);
        with_gives(unsigned, "thinking"@, JsonV::Str(THINKING_PLACEHOLDER@));
        giving_keeps_keys(unsigned, "thinking"@, JsonV::Str(THINKING_PLACEHOLDER@));
        let now = replayed_block(block).0;
        assert(now.get("signature"@) is None);
        taking_out_keeps_the_rest(now, "signature"@, "type"@);
    } else if block.text_at("type"@) == Some("redacted_thinking"@) {
        placeholders_are_replayed(REDACTED_THINKING_PLACEHOLDER@);
    }
}

proof fn messages_become_replayed(message: JsonV)
    requires
        well_keyed(message),
    ensures
        message_is_replayed(replayed_message(message)),
{
    if needs_thinking(message) {
        let blocks = message.items_at("content"@).unwrap();
        let now = replayed_blocks(blocks);
        let kept = blocks.map_values(|block: JsonV| replayed_block(block).0);
        values_are_well_keyed(message, "content"@);
        with_gives(message, "content"@, JsonV::Array(now));
        kinds_differ();
        placeholders_are_replayed(THINKING_PLACEHOLDER@);
        assert forall|i: int| 0 <= i < blocks.len() implies block_is_replayed(#[trigger] kept[i]) by {
            assert(well_keyed(blocks[i]));
            values_are_well_keyed(blocks[i], ""@);
            blocks_become_replayed(blocks[i]);
        }
        if holds_thinking(blocks) {
            let i = choose|i: int| 0 <= i < blocks.len() && is_thinking_block(#[trigger] blocks[i]);
            assert(well_keyed(blocks[i]));
            values_are_well_keyed(blocks[i], ""@);
            blocks_become_replayed(blocks[i]);
            assert(is_thinking_block(now[i]));
        } else {
            assert(is_thinking_block(now[0]));
            assert forall|i: int| 0 <= i < now.len() implies block_is_replayed(#[trigger] now[i]) by {
                if i > 0 {
                    assert(now[i] == kept[i - 1]);
                }
            }
        }
    }
}

proof fn replayed_messages_stay(message: JsonV)
    requires
        message_is_replayed(message),
    ensures
        replayed_message(message) == message,
        !replay_changes(message),
{
    if needs_thinking(message) {
        let blocks = message.items_at("content"@).unwrap();
        assert(replayed_blocks(blocks) =~= blocks) by {
            assert forall|i: int| 0 <= i < blocks.len() implies replayed_block(#[trigger] blocks[i]).0 == blocks[i] by {
                assert(block_is_replayed(blocks[i]));
            }
        }
        with_same_value(message, "content"@);
    }
}

proof fn blocks_become_sound(blocks: Seq<JsonV>)
    ensures
        !holds_malformed(repaired_blocks(blocks)),
        calls_a_tool(repaired_blocks(blocks)) ==> calls_a_tool(blocks),
        holds_thinking(blocks) ==> holds_thinking(repaired_blocks(blocks)),
        (forall|i: int| 0 <= i < blocks.len() ==> block_is_replayed(#[trigger] blocks[i])) ==> forall|i: int|
            0 <= i < repaired_blocks(blocks).len() ==> block_is_replayed(#[trigger] repaired_blocks(blocks)[i]),
    decreases blocks.len(),
{
    if blocks.len() > 0 {
        let fewer = blocks.drop_last();
        let last = blocks.last();
        let before = repaired_blocks(fewer);
        let after = repaired_blocks(blocks);
        blocks_become_sound(fewer);
        kinds_differ();
        server_kinds_differ();
        if let Some(text) = block_text(last) {
            texts_are_replayed(text);
        }
        assert(forall|i: int| 0 <= i < fewer.len() ==> fewer[i] == #[trigger] blocks[i]);
        assert(forall|i: int| 0 <= i < before.len() ==> before[i] == #[trigger] after[i]);
        if calls_a_tool(after) {
            let i = choose|i: int| 0 <= i < after.len() && (#[trigger] after[i]).text_at("type"@) == Some("tool_use"@);
            if i < before.len() {
                assert(before[i].text_at("type"@) == Some("tool_use"@));
                let k = choose|k: int| 0 <= k < fewer.len() && (#[trigger] fewer[k]).text_at("type"@) == Some("tool_use"@);
                assert(blocks[k].text_at("type"@) == Some("tool_use"@));
            } else {
                assert(blocks[blocks.len() - 1].text_at("type"@) == Some("tool_use"@));
            }
        }
        if holds_thinking(blocks) {
            let i = choose|i: int| 0 <= i < blocks.len() && is_thinking_block(#[trigger] blocks[i]);
            if i < fewer.len() {
                assert(is_thinking_block(fewer[i]));
                let k = choose|k: int| 0 <= k < before.len() && is_thinking_block(#[trigger] before[k]);
                assert(is_thinking_block(after[k]));
            } else {
                assert(!is_malformed(last));
                assert(is_thinking_block(after[before.len() as int]));
            }
        }
        if forall|i: int| 0 <= i < blocks.len() ==> block_is_replayed(#[trigger] blocks[i]) {
            assert forall|i: int| 0 <= i < fewer.len() implies block_is_replayed(#[trigger] fewer[i]) by {
                assert(block_is_replayed(blocks[i]));
            }
            assert(block_is_replayed(blocks[blocks.len() - 1]));
        }
    }
}

proof fn sound_blocks_stay(blocks: Seq<JsonV>)
    requires
        !holds_malformed(blocks),
    ensures
        repaired_blocks(blocks) == blocks,
    decreases blocks.len(),
{
    if blocks.len() > 0 {
        let fewer = blocks.drop_last();
        assert forall|i: int| 0 <= i < fewer.len() implies !is_malformed(#[trigger] fewer[i]) by {
            assert(!is_malformed(blocks[i]));
        }
        sound_blocks_stay(fewer);
        assert(!is_malformed(blocks[blocks.len() - 1]));
        assert(fewer.push(blocks.last()) =~= blocks);
    } else {
        assert(blocks =~= Seq::empty());
    }
}

/// Whether a message needs no replay and no repair.
pub open spec fn message_is_sound(message: JsonV) -> bool {
    message_is_replayed(message) && !message_is_malformed(message)
}

proof fn messages_become_sound(message: JsonV, changed: bool)
    requires
        message_is_replayed(message),
    ensures
        message_is_sound(repaired_message(message, changed)),
{
    kinds_differ();
    if let Some(blocks) = message.items_at("content"@) {
        let kept = repaired_blocks(blocks);
        let note = text_block(OMITTED_ORPHAN_TOOL_RESULT@);
        blocks_become_sound(blocks);
        texts_are_replayed(OMITTED_ORPHAN_TOOL_RESULT@);
        content_keeps_role(message, JsonV::Array(kept));
        content_keeps_role(message, JsonV::Array(seq![note]));
        assert(!holds_malformed(seq![note]));
        assert(!calls_a_tool(seq![note]));
        if calls_a_tool(kept) && needs_thinking(repaired_message(message, changed)) {
            assert(needs_thinking(message));
        }
    }
}

proof fn added_messages_are_sound(message: JsonV, content: Seq<JsonV>)
    requires
        is_role(message, "user"@),
        message.items_at("content"@) == Some(content),
        !holds_malformed(content),
    ensures
        message_is_sound(message),
{
    kinds_differ();
}

proof fn synthetic_results_are_sound(order: Seq<Seq<char>>, calls: Seq<Seq<char>>, answers: Seq<Seq<char>>)
    ensures
        !holds_malformed(lacking_results(order, calls, answers)),
    decreases order.len(),
{
    if order.len() > 0 {
        let fewer = lacking_results(order.drop_last(), calls, answers);
        let all = lacking_results(order, calls, answers);
        synthetic_results_are_sound(order.drop_last(), calls, answers);
        synthetic_ids(order.last());
        server_kinds_differ();
        assert forall|i: int| 0 <= i < all.len() implies !is_malformed(#[trigger] all[i]) by {
            if i < fewer.len() {
                assert(!is_malformed(fewer[i]));
            } else {
                assert(all[i] == synthetic_result(order.last()));
            }
        }
    }
}

proof fn results_keep_soundness(message: JsonV, results: Seq<JsonV>)
    requires
        is_role(message, "user"@),
        message_is_sound(message),
        !holds_malformed(results),
    ensures
        message_is_sound(with_results(message, results)),
{
    match message.get("content"@) {
        Some(JsonV::Array(blocks)) => {
            let all = results + blocks;
            content_keeps_role(message, JsonV::Array(all));
            assert forall|i: int| 0 <= i < all.len() implies !is_malformed(#[trigger] all[i]) by {
                if i < results.len() {
                    assert(!is_malformed(results[i]));
                } else {
                    assert(!is_malformed(blocks[i - results.len()]));
                }
            }
            added_messages_are_sound(with_results(message, results), all);
        },
        Some(JsonV::Str(text)) => {
            let all = results.push(text_block(text));
            content_keeps_role(message, JsonV::Array(all));
            texts_are_replayed(text);
            assert forall|i: int| 0 <= i < all.len() implies !is_malformed(#[trigger] all[i]) by {
                if i < results.len() {
                    assert(!is_malformed(results[i]));
                }
            }
            added_messages_are_sound(with_results(message, results), all);
        },
        _ => {
            content_keeps_role(message, JsonV::Array(results));
            added_messages_are_sound(with_results(message, results), results);
        },
    }
}

proof fn own_messages_are_sound(results: Seq<JsonV>)
    requires
        !holds_malformed(results),
    ensures
        message_is_sound(results_message(results)),
{
    kinds_differ();
    let one = JsonV::object().and("role"@, JsonV::Str("user"@));
    and_gives(JsonV::object(), "role"@, JsonV::Str("user"@), "role"@);
    and_gives(JsonV::object(), "role"@, JsonV::Str("user"@), "content"@);
    and_gives(one, "content"@, JsonV::Array(results), "role"@);
    and_gives(one, "content"@, JsonV::Array(results), "content"@);
    added_messages_are_sound(results_message(results), results);
}

pub open spec fn all_sound(messages: Seq<JsonV>) -> bool {
    forall|i: int| 0 <= i < messages.len() ==> message_is_sound(#[trigger] messages[i])
}

proof fn answers_keep_soundness(messages: Seq<JsonV>)
    requires
        all_sound(messages),
    ensures
        all_sound(answered(messages)),
    decreases messages.len(),
{
    if messages.len() > 0 {
        let missing = lacking_at_head(messages);
        let rest = messages.drop_first();
        let head = messages[0];
        assert(message_is_sound(head));
        assert forall|i: int| 0 <= i < rest.len() implies message_is_sound(#[trigger] rest[i]) by {
            assert(message_is_sound(messages[i + 1]));
        }
        if missing.len() == 0 {
            answers_keep_soundness(rest);
        } else {
            missing_results_are_sound(messages);
            if rest.len() > 0 && is_role(rest[0], "user"@) {
                results_keep_soundness(rest[0], missing);
                answers_keep_soundness(rest.update(0, with_results(rest[0], missing)));
            } else {
                own_messages_are_sound(missing);
                answers_keep_soundness(rest);
            }
        }
        let after = answered(messages);
        assert forall|i: int| 0 <= i < after.len() implies message_is_sound(#[trigger] after[i]) by {
            if missing.len() == 0 {
                assert(i > 0 ==> after[i] == answered(rest)[i - 1]);
            } else if rest.len() > 0 && is_role(rest[0], "user"@) {
                assert(i > 0 ==> after[i] == answered(rest.update(0, with_results(rest[0], missing)))[i - 1]);
            } else {
                assert(i > 1 ==> after[i] == answered(rest)[i - 2]);
            }
        }
    }
}

proof fn missing_results_are_sound(messages: Seq<JsonV>)
    ensures
        !holds_malformed(lacking_at_head(messages)),
{
    if messages.len() > 0 && is_role(messages[0], "assistant"@) {
        let answers = if messages.len() > 1 && is_role(messages[1], "user"@) {
            result_ids(messages[1])
        } else {
            Seq::empty()
        };
        let calls = use_ids(messages[0]);
        synthetic_results_are_sound(distinct(calls), calls, answers);
    }
}

proof fn adopted_blocks_are_sound(blocks: Seq<JsonV>, ids: Seq<Seq<char>>)
    requires
        !holds_malformed(blocks),
    ensures
        !holds_malformed(adopted_blocks(blocks, ids)),
    decreases blocks.len(),
{
    if blocks.len() > 0 {
        let fewer = blocks.drop_last();
        assert forall|i: int| 0 <= i < fewer.len() implies !is_malformed(#[trigger] fewer[i]) by {
            assert(!is_malformed(blocks[i]));
        }
        adopted_blocks_are_sound(fewer, ids);
        assert(!is_malformed(blocks[blocks.len() - 1]));
        if let Some(text) = block_text(blocks.last()) {
            texts_are_replayed(text);
        }
        let before = adopted_blocks(fewer, ids);
        let after = adopted_blocks(blocks, ids);
        assert forall|i: int| 0 <= i < after.len() implies !is_malformed(#[trigger] after[i]) by {
            if i < before.len() {
                assert(after[i] == before[i]);
            }
        }
    }
}

proof fn adopted_keeps_soundness(messages: Seq<JsonV>)
    requires
        all_sound(messages),
    ensures
        all_sound(adopted(messages)),
    decreases messages.len(),
{
    if messages.len() > 0 {
        let fewer = messages.drop_last();
        let last = messages.last();
        assert forall|i: int| 0 <= i < fewer.len() implies message_is_sound(#[trigger] fewer[i]) by {
            assert(message_is_sound(messages[i]));
        }
        adopted_keeps_soundness(fewer);
        let done = adopted(fewer);
        assert(message_is_sound(messages[messages.len() - 1]));
        if is_role(last, "user"@) {
            if let Some(blocks) = last.items_at("content"@) {
                let ids = called_before(done);
                let content = adopted_content(blocks, ids);
                adopted_blocks_are_sound(blocks, ids);
                texts_are_replayed(OMITTED_ORPHAN_TOOL_RESULT@);
                content_keeps_role(last, JsonV::Array(content));
                added_messages_are_sound(adopted_message(done, last), content);
            }
        }
        let after = adopted(messages);
        assert forall|i: int| 0 <= i < after.len() implies message_is_sound(#[trigger] after[i]) by {
            if i < done.len() {
                assert(after[i] == done[i]);
            }
        }
    }
}

/// The history of a normal request.
pub open spec fn normal_history(messages: Seq<JsonV>) -> Seq<JsonV> {
    adopted(answered(repaired_messages(messages.map_values(|message: JsonV| replayed_message(message)))))
}

proof fn histories_become_sound(messages: Seq<JsonV>)
    requires
        forall|i: int| 0 <= i < messages.len() ==> well_keyed(#[trigger] messages[i]),
    ensures
        all_sound(normal_history(messages)),
{
    let replayed = messages.map_values(|message: JsonV| replayed_message(message));
    let repaired = repaired_messages(replayed);
    assert forall|i: int| 0 <= i < repaired.len() implies message_is_sound(#[trigger] repaired[i]) by {
        assert(well_keyed(messages[i]));
        messages_become_replayed(messages[i]);
        assert(replayed[i] == replayed_message(messages[i]));
        messages_become_sound(replayed[i], any_malformed(replayed.take(i)));
    }
    answers_keep_soundness(repaired);
    adopted_keeps_soundness(answered(repaired));
}

proof fn sound_histories_stay(messages: Seq<JsonV>)
    requires
        all_sound(messages),
    ensures
        messages.map_values(|message: JsonV| replayed_message(message)) == messages,
        forall|i: int| 0 <= i < messages.len() ==> !replay_changes(#[trigger] messages[i]),
        repaired_messages(messages) == messages,
        !any_malformed(messages),
{
    assert forall|i: int| 0 <= i < messages.len() implies !replay_changes(#[trigger] messages[i]) && replayed_message(
        messages[i],
    ) == messages[i] && !message_is_malformed(messages[i]) by {
        assert(message_is_sound(messages[i]));
        replayed_messages_stay(messages[i]);
    }
    assert(messages.map_values(|message: JsonV| replayed_message(message)) =~= messages);
    assert forall|i: int| 0 <= i < messages.len() implies repaired_message(
        #[trigger] messages[i],
        any_malformed(messages.take(i)),
    ) == messages[i] by {
        assert(message_is_sound(messages[i]));
        assert(!any_malformed(messages.take(i))) by {
            assert forall|k: int| 0 <= k < i implies !message_is_malformed(#[trigger] messages.take(i)[k]) by {
                assert(messages.take(i)[k] == messages[k]);
            }
        }
        if let Some(blocks) = messages[i].items_at("content"@) {
            sound_blocks_stay(blocks);
            with_same_value(messages[i], "content"@);
        }
    }
    assert(repaired_messages(messages) =~= messages);
}

/// The history that the steps on messages leave.
pub proof fn history_of_normal(calm: JsonV)
    requires
        calm is Object,
    ensures
        ({
            let paired = paired_body(repaired_body(replayed_body(calm)));
            &&& paired is Object
            &&& calm.items_at("messages"@) matches Some(messages) ==> paired.items_at("messages"@) == Some(
                normal_history(messages),
            )
            &&& calm.items_at("messages"@) is None ==> paired == calm
            &&& forall|key: Seq<char>| key != "messages"@ ==> #[trigger] paired.get(key) == calm.get(key)
        }),
{
    if let Some(messages) = calm.items_at("messages"@) {
        let replayed = messages.map_values(|message: JsonV| replayed_message(message));
        let one = replayed_body(calm);
        with_gives(calm, "messages"@, JsonV::Array(replayed));
        let two = repaired_body(one);
        with_gives(one, "messages"@, JsonV::Array(repaired_messages(replayed)));
        with_gives(two, "messages"@, JsonV::Array(normal_history(messages)));
    }
}

proof fn normal_requests_stay(body: JsonV, model: Seq<char>, rules: Seq<Seq<char>>)
    requires
        keys_are_distinct(body),
        body.get("output_config"@) matches Some(config) ==> keys_are_distinct(config),
        settings_are_normal(body, model),
        body.items_at("messages"@) matches Some(messages) ==> {
            &&& all_sound(messages)
            &&& answered(messages) == messages
            &&& adopted(messages) == messages
            &&& !lacks_answers(messages)
            &&& !has_orphans(messages)
        },
    ensures
        normalized(body, model, rules) == (body, rules),
{
    normal_settings_stay(body, model);
    if let Some(messages) = body.items_at("messages"@) {
        sound_histories_stay(messages);
        with_same_value(body, "messages"@);
    }
}

proof fn steps_keep_keys(calm: JsonV)
    requires
        keys_are_distinct(calm),
    ensures
        keys_are_distinct(paired_body(repaired_body(replayed_body(calm)))),
{
    if let Some(messages) = calm.items_at("messages"@) {
        giving_keeps_keys(calm, "messages"@, JsonV::Array(messages.map_values(|message: JsonV| replayed_message(message))));
    }
    let one = replayed_body(calm);
    if let Some(messages) = one.items_at("messages"@) {
        giving_keeps_keys(one, "messages"@, JsonV::Array(repaired_messages(messages)));
    }
    let two = repaired_body(one);
    if let Some(messages) = two.items_at("messages"@) {
        giving_keeps_keys(two, "messages"@, JsonV::Array(adopted(answered(messages))));
    }
}

/// A request that was normalised is normal: to normalise it again, for the same model, changes nothing
/// and names no rule.
pub proof fn normal_requests_are_left_alone(body: JsonV, model: Seq<char>, rules: Seq<Seq<char>>, again: Seq<Seq<char>>)
    requires
        well_keyed(body),
    ensures
        normalized(normalized(body, model, rules).0, model, again) == (normalized(body, model, rules).0, again),
{
    let sent = normalized(body, model, rules).0;
    if let JsonV::Object(_) = body {
        let calm = with_normal_settings(body, model);
        settings_become_normal(body, model);
        assert(sent == paired_body(repaired_body(replayed_body(calm))));
        history_of_normal(calm);
        steps_keep_keys(calm);
        settings_differ();
        if let Some(messages) = calm.items_at("messages"@) {
            values_are_well_keyed(body, "messages"@);
            assert(well_keyed(JsonV::Array(messages)));
            histories_become_sound(messages);
            let repaired = repaired_messages(messages.map_values(|message: JsonV| replayed_message(message)));
            let once = normal_history(messages);
            repaired_histories_are_paired(repaired);
            answered_histories_are_kept(once);
            called_histories_are_kept(once);
        }
        normal_requests_stay(sent, model, again);
    }
}

/// What normalising leaves of the settings: every key but those of the token limit, of thinking and effort, and
/// of the messages.
pub proof fn other_settings_are_kept(body: JsonV, model: Seq<char>, rules: Seq<Seq<char>>, key: Seq<char>)
    requires
        well_keyed(body),
        body is Object,
    ensures
        normalized(body, model, rules).0 is Object,
        keys_are_distinct(normalized(body, model, rules).0),
        key != "max_tokens"@ && key != "thinking"@ && key != "reasoning_effort"@ && key != "output_config"@ && key
            != "messages"@ ==> normalized(body, model, rules).0.get(key) == body.get(key),
        normalized(body, model, rules).0.get("messages"@) == (match body.items_at("messages"@) {
            Some(messages) => Some(
                JsonV::Array(
                    adopted(
                        answered(repaired_messages(messages.map_values(|message: JsonV| replayed_message(message)))),
                    ),
                ),
            ),
            None => body.get("messages"@),
        }),
        normalized(body, model, rules).0.get("max_tokens"@) == (match body.unsigned_at("max_tokens"@) {
            Some(limit) => Some(JsonV::Number(NumberV::PosInt(clamped(limit, model)))),
            None => body.get("max_tokens"@),
        }),
        names_one_tool(body) ==> normalized(body, model, rules).0.get("thinking"@) == Some(disabled_thinking()),
        !names_one_tool(body) ==> normalized(body, model, rules).0.get("thinking"@) == (if thinks_auto(body) {
            Some(body.get("thinking"@).unwrap().with("type"@, JsonV::Str("adaptive"@)))
        } else {
            body.get("thinking"@)
        }),
{
    settings_differ();
    disabled_is_disabled();
    values_are_well_keyed(body, "output_config"@);
    if let Some(config) = body.get("output_config"@) {
        values_are_well_keyed(config, ""@);
    }
    let capped = clamped_body(body, model);
    if let Some(limit) = body.unsigned_at("max_tokens"@) {
        let value = JsonV::Number(NumberV::PosInt(clamped(limit, model)));
        with_gives(body, "max_tokens"@, value);
        giving_keeps_keys(body, "max_tokens"@, value);
    }
    let told = capped.with("thinking"@, disabled_thinking());
    with_gives(capped, "thinking"@, disabled_thinking());
    giving_keeps_keys(capped, "thinking"@, disabled_thinking());
    let thought = if names_one_tool(capped) {
        thinking_turned_off(capped).0
    } else {
        auto_made_adaptive(capped)
    };
    if names_one_tool(capped) {
        stripped_settings(told);
        effort_goes(told, key);
    } else if thinks_auto(capped) {
        let adaptive = capped.get("thinking"@).unwrap().with("type"@, JsonV::Str("adaptive"@));
        with_gives(capped, "thinking"@, adaptive);
        giving_keeps_keys(capped, "thinking"@, adaptive);
    }
    let calm = if thinking_is_disabled(thought) {
        without_effort(thought).0
    } else {
        thought
    };
    stripped_settings(thought);
    effort_goes(thought, key);
    if let Some(messages) = body.items_at("messages"@) {
        assert(calm.items_at("messages"@) == Some(messages));
        let replayed = JsonV::Array(messages.map_values(|message: JsonV| replayed_message(message)));
        let second = replayed_body(calm);
        with_gives(calm, "messages"@, replayed);
        giving_keeps_keys(calm, "messages"@, replayed);
        let repaired = JsonV::Array(repaired_messages(replayed->Array_0));
        let third = repaired_body(second);
        with_gives(second, "messages"@, repaired);
        giving_keeps_keys(second, "messages"@, repaired);
        let paired = JsonV::Array(adopted(answered(repaired->Array_0)));
        with_gives(third, "messages"@, paired);
        giving_keeps_keys(third, "messages"@, paired);
    }
}

} // verus!
