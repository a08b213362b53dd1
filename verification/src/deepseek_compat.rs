//! Request compensations for DeepSeek's Anthropic-compatible endpoint.
//!
//! Every rewrite is stateless: it looks at the request alone and keeps no history between calls.
use crate::json::{Json, JsonV, NumberV};
use crate::json_model::{group_json_views, json_eq, list_view, text_block, typed_block, with_same_value};
use crate::text::{blank, contains_text, group_texts, is_blank, join, joined, same, texts};
use vstd::prelude::*;

verus! {

broadcast use {group_json_views, group_texts};

pub const RULE_THINKING_AUTO_ADAPTIVE: &'static str = "provider.deepseek.thinking-auto-adaptive";

pub const RULE_TOOL_CHOICE_DISABLES_THINKING: &'static str = "provider.deepseek.specified-tool-choice-disables-thinking";

pub const RULE_THINKING_DISABLED_STRIPS_EFFORT: &'static str = "provider.deepseek.thinking-disabled-strips-effort";

pub const RULE_TOOL_THINKING_HISTORY_REPLAY: &'static str = "provider.deepseek.tool-thinking-history-replay";

pub const RULE_MALFORMED_SERVER_TOOL_REPAIR: &'static str = "provider.deepseek.malformed-server-tool-block-repair";

pub const RULE_ORPHAN_TOOL_PAIRING_REPAIR: &'static str = "provider.deepseek.orphan-tool-pairing-repair";

/// Stands in for the thinking that a past assistant turn lacks. The upstream asks only that it is
/// there and not empty.
pub const THINKING_PLACEHOLDER: &'static str = "tool call";

pub const REDACTED_THINKING_PLACEHOLDER: &'static str = "[redacted thinking]";

pub const ORPHAN_TOOL_RESULT_PLACEHOLDER: &'static str = "[tool execution was interrupted or its result is unavailable]";

pub const OMITTED_ORPHAN_TOOL_RESULT: &'static str = "(omitted orphan tool result)";

/// The largest `max_tokens` that the upstream takes for a model.
pub open spec fn token_cap(model: Seq<char>) -> u64 {
    if model == "deepseek-v4-pro"@ {
        65_536
    } else if model == "deepseek-v4-flash"@ {
        32_768
    } else {
        8_192
    }
}

/// The smaller of a token limit and the model's cap.
pub open spec fn clamped(value: u64, model: Seq<char>) -> u64 {
    if value <= token_cap(model) {
        value
    } else {
        token_cap(model)
    }
}

/// Caps a token limit at what the model takes.
pub fn clamp_max_tokens(value: Option<u64>, model: &str) -> (limit: Option<u64>)
    ensures
        limit == (match value {
            Some(v) => Some(clamped(v, model@)),
            None => None,
        }),
{
    let cap: u64 = if same(model, "deepseek-v4-pro") {
        65_536
    } else if same(model, "deepseek-v4-flash") {
        32_768
    } else {
        8_192
    };
    match value {
        Some(v) => if v <= cap {
            Some(v)
        } else {
            Some(cap)
        },
        None => None,
    }
}

/// Rule names with one more, which is named once only.
pub open spec fn with_rule(rules: Seq<Seq<char>>, rule: Seq<char>) -> Seq<Seq<char>> {
    if rules.contains(rule) {
        rules
    } else {
        rules.push(rule)
    }
}

/// Rule names with one more where it applied.
pub open spec fn with_rule_if(rules: Seq<Seq<char>>, applied: bool, rule: Seq<char>) -> Seq<Seq<char>> {
    if applied {
        with_rule(rules, rule)
    } else {
        rules
    }
}

/// Adds a rule name unless it is there already.
pub fn append_rule(rule_ids: &mut Vec<String>, rule: &str)
    ensures
        texts(final(rule_ids)@) == with_rule(texts(old(rule_ids)@), rule@),
{
    if !contains_text(rule_ids, rule) {
        rule_ids.push(rule.to_owned());
    }
}

/// A request body with the token limit capped.
pub open spec fn clamped_body(body: JsonV, model: Seq<char>) -> JsonV {
    match body.unsigned_at("max_tokens"@) {
        Some(current) => if clamped(current, model) != current {
            body.with("max_tokens"@, JsonV::Number(NumberV::PosInt(clamped(current, model))))
        } else {
            body
        },
        None => body,
    }
}

fn clamp_body_max_tokens(body: &mut Json, target_model: &str)
    ensures
        final(body)@ == clamped_body(old(body)@, target_model@),
{
    if let Some(current) = body.u64_at("max_tokens") {
        if let Some(limit) = clamp_max_tokens(Some(current), target_model) {
            if limit != current {
                body.set("max_tokens", Json::unsigned(limit));
            }
        }
    }
}

/// Whether a body asks for thinking of the type `auto`, which the upstream does not know.
pub open spec fn thinks_auto(body: JsonV) -> bool {
    match body.get("thinking"@) {
        Some(thinking) => thinking.text_at("type"@) == Some("auto"@),
        None => false,
    }
}

/// A body whose thinking of the type `auto` has become `adaptive`.
pub open spec fn auto_made_adaptive(body: JsonV) -> JsonV {
    match body.get("thinking"@) {
        Some(thinking) => if thinks_auto(body) {
            body.with("thinking"@, thinking.with("type"@, JsonV::Str("adaptive"@)))
        } else {
            body
        },
        None => body,
    }
}

fn normalize_thinking_auto(body: &mut Json, rule_ids: &mut Vec<String>)
    ensures
        final(body)@ == auto_made_adaptive(old(body)@),
        texts(final(rule_ids)@) == with_rule_if(texts(old(rule_ids)@), thinks_auto(old(body)@), RULE_THINKING_AUTO_ADAPTIVE@),
{
    let ghost before = body@;
    match body.get_mut("thinking") {
        Some(thinking) => {
            if thinking.has_text("type", "auto") {
                thinking.set("type", Json::text("adaptive"));
                append_rule(rule_ids, RULE_THINKING_AUTO_ADAPTIVE);
            } else {
                proof {
                    with_same_value(before, "thinking"@);
                }
            }
        },
        None => {},
    }
}

/// Whether a body names one tool that must be called, which the upstream refuses while thinking.
pub open spec fn names_one_tool(body: JsonV) -> bool {
    match body.get("tool_choice"@) {
        Some(choice) => choice.text_at("type"@) == Some("tool"@),
        None => false,
    }
}

/// The value `{"type": "disabled"}`.
pub open spec fn disabled_thinking() -> JsonV {
    JsonV::object().and("type"@, JsonV::Str("disabled"@))
}

fn disabled() -> (thinking: Json)
    ensures
        thinking@ == disabled_thinking(),
{
    Json::object().and("type", Json::text("disabled"))
}

/// A body without effort settings, and whether anything went.
pub open spec fn without_effort(body: JsonV) -> (JsonV, bool) {
    let plain = body.without("reasoning_effort"@);
    let had_effort = body.get("reasoning_effort"@) is Some;
    match plain.get("output_config"@) {
        Some(JsonV::Object(entries)) => {
            let config = JsonV::Object(entries).without("effort"@);
            let kept = plain.with("output_config"@, config);
            if config == JsonV::object() {
                (kept.without("output_config"@), true)
            } else {
                (kept, had_effort || JsonV::Object(entries).get("effort"@) is Some)
            }
        },
        _ => (plain, had_effort),
    }
}

fn strip_effort_fields(body: &mut Json) -> (changed: bool)
    ensures
        final(body)@ == without_effort(old(body)@).0,
        changed == without_effort(old(body)@).1,
{
    let mut changed = body.unset("reasoning_effort").is_some();
    let mut drop_output_config = false;
    let ghost plain = body@;
    if let Some(config) = body.get_mut("output_config") {
        if config.is_object() {
            let removed = config.unset("effort").is_some();
            changed = changed || removed;
            drop_output_config = config.is_empty_object();
        } else {
            proof {
                with_same_value(plain, "output_config"@);
            }
        }
    }
    if drop_output_config {
        let _ = body.unset("output_config");
        changed = true;
    }
    changed
}

/// A body that names one tool, with thinking off and no effort settings.
pub open spec fn thinking_turned_off(body: JsonV) -> (JsonV, bool) {
    let already = match body.get("thinking"@) {
        Some(thinking) => json_eq(thinking, disabled_thinking()),
        None => false,
    };
    let (stripped, removed) = without_effort(body.with("thinking"@, disabled_thinking()));
    (stripped, !already || removed)
}

/// Turns thinking off where one tool must be called; tells whether it did.
fn disable_thinking_for_tool_choice(body: &mut Json, rule_ids: &mut Vec<String>) -> (off: bool)
    ensures
        off == names_one_tool(old(body)@),
        !off ==> final(body)@ == old(body)@ && texts(final(rule_ids)@) == texts(old(rule_ids)@),
        off ==> final(body)@ == thinking_turned_off(old(body)@).0 && texts(final(rule_ids)@) == with_rule_if(
            texts(old(rule_ids)@),
            thinking_turned_off(old(body)@).1,
            RULE_TOOL_CHOICE_DISABLES_THINKING@,
        ),
{
    if !has_thinking_incompatible_tool_choice(body) {
        return false;
    }
    let already_disabled = match body.get("thinking") {
        Some(thinking) => thinking.equals(&disabled()),
        None => false,
    };
    body.set("thinking", disabled());
    let removed_effort = strip_effort_fields(body);
    if !already_disabled || removed_effort {
        append_rule(rule_ids, RULE_TOOL_CHOICE_DISABLES_THINKING);
    }
    true
}

fn has_thinking_incompatible_tool_choice(body: &Json) -> (yes: bool)
    ensures
        yes == names_one_tool(body@),
{
    match body.get("tool_choice") {
        Some(choice) => choice.has_text("type", "tool"),
        None => false,
    }
}

/// Whether thinking is turned off.
pub open spec fn thinking_is_disabled(body: JsonV) -> bool {
    match body.get("thinking"@) {
        Some(thinking) => thinking.text_at("type"@) == Some("disabled"@),
        None => false,
    }
}

fn strip_effort_when_thinking_disabled(body: &mut Json, rule_ids: &mut Vec<String>)
    ensures
        !thinking_is_disabled(old(body)@) ==> final(body)@ == old(body)@ && texts(final(rule_ids)@) == texts(
            old(rule_ids)@,
        ),
        thinking_is_disabled(old(body)@) ==> final(body)@ == without_effort(old(body)@).0 && texts(final(rule_ids)@)
            == with_rule_if(texts(old(rule_ids)@), without_effort(old(body)@).1, RULE_THINKING_DISABLED_STRIPS_EFFORT@),
{
    let disabled = match body.get("thinking") {
        Some(thinking) => thinking.has_text("type", "disabled"),
        None => false,
    };
    if disabled {
        if strip_effort_fields(body) {
            append_rule(rule_ids, RULE_THINKING_DISABLED_STRIPS_EFFORT);
        }
    }
}

/// A past thinking block as the upstream takes it back, and whether that changed it: without a
/// signature, never blank, never redacted.
pub open spec fn replayed_block(block: JsonV) -> (JsonV, bool) {
    if block.text_at("type"@) == Some("thinking"@) {
        let non_empty = match block.text_at("thinking"@) {
            Some(text) => !is_blank(text),
            None => false,
        };
        let unsigned = block.without("signature"@);
        if non_empty {
            (unsigned, block.get("signature"@) is Some)
        } else {
            (unsigned.with("thinking"@, JsonV::Str(THINKING_PLACEHOLDER@)), true)
        }
    } else if block.text_at("type"@) == Some("redacted_thinking"@) {
        (typed_block("thinking"@, "thinking"@, REDACTED_THINKING_PLACEHOLDER@), true)
    } else {
        (block, false)
    }
}

/// Whether a block is thinking, redacted or not.
pub open spec fn is_thinking_block(block: JsonV) -> bool {
    block.text_at("type"@) == Some("thinking"@) || block.text_at("type"@) == Some("redacted_thinking"@)
}

/// Whether one of the blocks calls a tool.
pub open spec fn calls_a_tool(blocks: Seq<JsonV>) -> bool {
    exists|i: int| 0 <= i < blocks.len() && (#[trigger] blocks[i]).text_at("type"@) == Some("tool_use"@)
}

/// Whether one of the blocks is thinking.
pub open spec fn holds_thinking(blocks: Seq<JsonV>) -> bool {
    exists|i: int| 0 <= i < blocks.len() && is_thinking_block(#[trigger] blocks[i])
}

/// Whether a message is a past assistant turn that calls a tool; such a turn must carry thinking.
pub open spec fn needs_thinking(message: JsonV) -> bool {
    message.text_at("role"@) == Some("assistant"@) && match message.items_at("content"@) {
        Some(blocks) => calls_a_tool(blocks),
        None => false,
    }
}

/// The blocks of a turn that must carry thinking.
pub open spec fn replayed_blocks(blocks: Seq<JsonV>) -> Seq<JsonV> {
    let kept = blocks.map_values(|block: JsonV| replayed_block(block).0);
    if holds_thinking(blocks) {
        kept
    } else {
        seq![typed_block("thinking"@, "thinking"@, THINKING_PLACEHOLDER@)] + kept
    }
}

/// A message after the replay of thinking.
pub open spec fn replayed_message(message: JsonV) -> JsonV {
    if needs_thinking(message) {
        message.with("content"@, JsonV::Array(replayed_blocks(message.items_at("content"@).unwrap())))
    } else {
        message
    }
}

/// Whether the replay of thinking changes a message.
pub open spec fn replay_changes(message: JsonV) -> bool {
    needs_thinking(message) && {
        let blocks = message.items_at("content"@).unwrap();
        !holds_thinking(blocks) || exists|i: int| 0 <= i < blocks.len() && replayed_block(#[trigger] blocks[i]).1
    }
}

/// A body after the replay of thinking.
pub open spec fn replayed_body(body: JsonV) -> JsonV {
    match body.items_at("messages"@) {
        Some(messages) => body.with(
            "messages"@,
            JsonV::Array(messages.map_values(|message: JsonV| replayed_message(message))),
        ),
        None => body,
    }
}

/// Whether the replay of thinking changes a body.
pub open spec fn replay_changes_body(body: JsonV) -> bool {
    match body.items_at("messages"@) {
        Some(messages) => exists|i: int| 0 <= i < messages.len() && replay_changes(#[trigger] messages[i]),
        None => false,
    }
}

fn replay_block(block: &mut Json) -> (changed: bool)
    ensures
        final(block)@ == replayed_block(old(block)@).0,
        changed == replayed_block(old(block)@).1,
{
    if block.has_text("type", "thinking") {
        let non_empty = match block.str_at("thinking") {
            Some(text) => !blank(text),
            None => false,
        };
        let changed = block.unset("signature").is_some();
        if non_empty {
            changed
        } else {
            block.set("thinking", Json::text(THINKING_PLACEHOLDER));
            true
        }
    } else if block.has_text("type", "redacted_thinking") {
        *block = Json::typed("thinking", "thinking", REDACTED_THINKING_PLACEHOLDER);
        true
    } else {
        false
    }
}

fn replay_blocks(blocks: &mut Vec<Json>) -> (changed: bool)
    ensures
        list_view(final(blocks)@) == replayed_blocks(list_view(old(blocks)@)),
        changed == (!holds_thinking(list_view(old(blocks)@)) || exists|i: int|
            0 <= i < old(blocks)@.len() && replayed_block(#[trigger] list_view(old(blocks)@)[i]).1),
{
    let ghost before = list_view(blocks@);
    let mut changed = false;
    let mut has_thinking = false;
    let mut i: usize = 0;
    let n: usize = blocks.len();
    while i < n
        invariant
            i <= n,
            n == blocks@.len(),
            n == before.len(),
            forall|k: int| 0 <= k < i ==> (#[trigger] list_view(blocks@)[k]) == replayed_block(before[k]).0,
            forall|k: int| i <= k < n ==> (#[trigger] list_view(blocks@)[k]) == before[k],
            changed == exists|k: int| 0 <= k < i && replayed_block(#[trigger] before[k]).1,
            has_thinking == exists|k: int| 0 <= k < i && is_thinking_block(#[trigger] before[k]),
        decreases n - i,
    {
        assert(list_view(blocks@)[i as int] == before[i as int]);
        if blocks[i].has_text("type", "thinking") || blocks[i].has_text("type", "redacted_thinking") {
            has_thinking = true;
            assert(is_thinking_block(before[i as int]));
        }
        let one = replay_block(&mut blocks[i]);
        if one {
            changed = true;
            assert(replayed_block(before[i as int]).1);
        }
        i = i + 1;
    }
    assert(list_view(blocks@) =~= before.map_values(|block: JsonV| replayed_block(block).0));
    if !has_thinking {
        blocks.insert(0, Json::typed("thinking", "thinking", THINKING_PLACEHOLDER));
        assert(list_view(blocks@) =~= replayed_blocks(before));
        changed = true;
    }
    changed
}

/// Whether a message's content calls a tool.
fn calls_tool(blocks: &Vec<Json>) -> (yes: bool)
    ensures
        yes == calls_a_tool(list_view(blocks@)),
{
    let mut i: usize = 0;
    while i < blocks.len()
        invariant
            i <= blocks@.len(),
            forall|k: int| 0 <= k < i ==> (#[trigger] list_view(blocks@)[k]).text_at("type"@) != Some("tool_use"@),
        decreases blocks@.len() - i,
    {
        if blocks[i].has_text("type", "tool_use") {
            assert(list_view(blocks@)[i as int].text_at("type"@) == Some("tool_use"@));
            return true;
        }
        i = i + 1;
    }
    false
}

fn replay_message(message: &mut Json) -> (changed: bool)
    ensures
        final(message)@ == replayed_message(old(message)@),
        changed == replay_changes(old(message)@),
{
    if !message.has_text("role", "assistant") {
        return false;
    }
    let calls = match message.array_at("content") {
        Some(blocks) => calls_tool(blocks),
        None => false,
    };
    if !calls {
        return false;
    }
    match message.get_mut("content") {
        Some(content) => match content.as_array_mut() {
            Some(blocks) => replay_blocks(blocks),
            None => false,
        },
        None => false,
    }
}

fn replay_messages(messages: &mut Vec<Json>) -> (changed: bool)
    ensures
        list_view(final(messages)@) == list_view(old(messages)@).map_values(|message: JsonV| replayed_message(message)),
        changed == exists|i: int| 0 <= i < old(messages)@.len() && replay_changes(#[trigger] list_view(old(messages)@)[i]),
{
    let ghost before = list_view(messages@);
    let mut changed = false;
    let mut i: usize = 0;
    let n: usize = messages.len();
    while i < n
        invariant
            i <= n,
            n == messages@.len(),
            n == before.len(),
            forall|k: int| 0 <= k < i ==> (#[trigger] list_view(messages@)[k]) == replayed_message(before[k]),
            forall|k: int| i <= k < n ==> (#[trigger] list_view(messages@)[k]) == before[k],
            changed == exists|k: int| 0 <= k < i && replay_changes(#[trigger] before[k]),
        decreases n - i,
    {
        assert(list_view(messages@)[i as int] == before[i as int]);
        let one = replay_message(&mut messages[i]);
        if one {
            changed = true;
            assert(replay_changes(before[i as int]));
        }
        i = i + 1;
    }
    assert(list_view(messages@) =~= before.map_values(|message: JsonV| replayed_message(message)));
    changed
}

fn replay_tool_thinking_history(body: &mut Json, rule_ids: &mut Vec<String>)
    ensures
        final(body)@ == replayed_body(old(body)@),
        texts(final(rule_ids)@) == with_rule_if(
            texts(old(rule_ids)@),
            replay_changes_body(old(body)@),
            RULE_TOOL_THINKING_HISTORY_REPLAY@,
        ),
{
    let ghost before = body@;
    if let Some(value) = body.get_mut("messages") {
        if let Some(messages) = value.as_array_mut() {
            let changed = replay_messages(messages);
            if changed {
                append_rule(rule_ids, RULE_TOOL_THINKING_HISTORY_REPLAY);
            }
        } else {
            proof {
                with_same_value(before, "messages"@);
            }
        }
    }
}

/// The texts of the items that have one, in order.
pub open spec fn item_texts(items: Seq<JsonV>) -> Seq<Seq<char>>
    decreases items.len(),
{
    if items.len() == 0 {
        Seq::empty()
    } else {
        let before = item_texts(items.drop_last());
        match items.last().text_at("text"@) {
            Some(text) => before.push(text),
            None => before,
        }
    }
}

/// The text that a block's content holds, unless it is blank.
pub open spec fn block_text(block: JsonV) -> Option<Seq<char>> {
    let text = match block.get("content"@) {
        Some(JsonV::Str(text)) => Some(text),
        Some(JsonV::Array(items)) => Some(joined(item_texts(items), "\n"@)),
        _ => None,
    };
    match text {
        Some(t) => if is_blank(t) {
            None
        } else {
            Some(t)
        },
        None => None,
    }
}

fn extract_block_text(block: &Json) -> (text: Option<String>)
    ensures
        match text {
            Some(t) => block_text(block@) == Some(t@),
            None => block_text(block@) is None,
        },
{
    let text = match block.get("content") {
        Some(Json::Str(text)) => text.clone(),
        Some(Json::Array(items)) => {
            let mut parts: Vec<String> = Vec::new();
            let mut i: usize = 0;
            while i < items.len()
                invariant
                    i <= items@.len(),
                    texts(parts@) == item_texts(list_view(items@).take(i as int)),
                decreases items@.len() - i,
            {
                assert(list_view(items@).take(i + 1).drop_last() =~= list_view(items@).take(i as int));
                if let Some(part) = items[i].str_at("text") {
                    parts.push(part.to_owned());
                }
                i = i + 1;
            }
            assert(list_view(items@).take(i as int) =~= list_view(items@));
            join(&parts, "\n")
        },
        _ => {
            return None;
        },
    };
    if blank(text.as_str()) {
        None
    } else {
        Some(text)
    }
}

/// Whether a server tool block lacks the id by which it is paired.
pub open spec fn is_malformed(block: JsonV) -> bool {
    let kind = block.text_at("type"@);
    if kind == Some("web_search_tool_result"@) || kind == Some("web_fetch_tool_result"@) || kind == Some(
        "code_execution_tool_result"@,
    ) {
        block.text_at("tool_use_id"@) is None
    } else if kind == Some("server_tool_use"@) {
        block.text_at("id"@) is None
    } else {
        false
    }
}

/// Blocks with each malformed one replaced by its text, or left out where it has none.
pub open spec fn repaired_blocks(blocks: Seq<JsonV>) -> Seq<JsonV>
    decreases blocks.len(),
{
    if blocks.len() == 0 {
        Seq::empty()
    } else {
        let before = repaired_blocks(blocks.drop_last());
        if !is_malformed(blocks.last()) {
            before.push(blocks.last())
        } else {
            match block_text(blocks.last()) {
                Some(text) => before.push(text_block(text)),
                None => before,
            }
        }
    }
}

/// Whether one of the blocks is malformed.
pub open spec fn holds_malformed(blocks: Seq<JsonV>) -> bool {
    exists|i: int| 0 <= i < blocks.len() && is_malformed(#[trigger] blocks[i])
}

/// A message after the repair of malformed blocks. `changed` tells whether an earlier message was
/// repaired; a message whose content is empty is then filled too.
pub open spec fn repaired_message(message: JsonV, changed: bool) -> JsonV {
    match message.items_at("content"@) {
        Some(blocks) => {
            let kept = repaired_blocks(blocks);
            if kept.len() == 0 && (changed || holds_malformed(blocks)) {
                message.with("content"@, JsonV::Array(seq![text_block(OMITTED_ORPHAN_TOOL_RESULT@)]))
            } else {
                message.with("content"@, JsonV::Array(kept))
            }
        },
        None => message,
    }
}

/// Whether a message holds a malformed block.
pub open spec fn message_is_malformed(message: JsonV) -> bool {
    match message.items_at("content"@) {
        Some(blocks) => holds_malformed(blocks),
        None => false,
    }
}

/// Whether one of the messages holds a malformed block.
pub open spec fn any_malformed(messages: Seq<JsonV>) -> bool {
    exists|i: int| 0 <= i < messages.len() && message_is_malformed(#[trigger] messages[i])
}

/// Messages after the repair of malformed blocks.
pub open spec fn repaired_messages(messages: Seq<JsonV>) -> Seq<JsonV> {
    Seq::new(messages.len(), |i: int| repaired_message(messages[i], any_malformed(messages.take(i))))
}

fn repair_blocks(blocks: &mut Vec<Json>, changed: bool) -> (malformed: bool)
    ensures
        malformed == holds_malformed(list_view(old(blocks)@)),
        list_view(final(blocks)@) == (if repaired_blocks(list_view(old(blocks)@)).len() == 0 && (changed || malformed) {
            seq![text_block(OMITTED_ORPHAN_TOOL_RESULT@)]
        } else {
            repaired_blocks(list_view(old(blocks)@))
        }),
{
    let ghost before = list_view(blocks@);
    let mut malformed = false;
    let mut rewritten: Vec<Json> = Vec::new();
    let mut i: usize = 0;
    while i < blocks.len()
        invariant
            i <= blocks@.len(),
            before == list_view(blocks@),
            list_view(rewritten@) == repaired_blocks(before.take(i as int)),
            malformed == exists|k: int| 0 <= k < i && is_malformed(#[trigger] before[k]),
        decreases blocks@.len() - i,
    {
        assert(before.take(i + 1).drop_last() =~= before.take(i as int));
        let block = &blocks[i];
        let bad = if block.has_text("type", "web_search_tool_result") || block.has_text("type", "web_fetch_tool_result")
            || block.has_text("type", "code_execution_tool_result") {
            block.str_at("tool_use_id").is_none()
        } else if block.has_text("type", "server_tool_use") {
            block.str_at("id").is_none()
        } else {
            false
        };
        assert(bad == is_malformed(before[i as int]));
        if !bad {
            rewritten.push(block.copy());
        } else {
            malformed = true;
            if let Some(text) = extract_block_text(block) {
                rewritten.push(Json::typed("text", "text", text.as_str()));
            }
        }
        i = i + 1;
    }
    assert(before.take(i as int) =~= before);
    if rewritten.len() == 0 && (changed || malformed) {
        rewritten.push(Json::typed("text", "text", OMITTED_ORPHAN_TOOL_RESULT));
        assert(list_view(rewritten@) =~= seq![text_block(OMITTED_ORPHAN_TOOL_RESULT@)]);
    }
    *blocks = rewritten;
    malformed
}

fn repair_malformed_messages(messages: &mut Vec<Json>) -> (changed: bool)
    ensures
        list_view(final(messages)@) == repaired_messages(list_view(old(messages)@)),
        changed == any_malformed(list_view(old(messages)@)),
{
    let ghost before = list_view(messages@);
    let mut changed = false;
    let mut i: usize = 0;
    let n: usize = messages.len();
    while i < n
        invariant
            i <= n,
            n == messages@.len(),
            n == before.len(),
            forall|k: int|
                0 <= k < i ==> (#[trigger] list_view(messages@)[k]) == repaired_message(
                    before[k],
                    any_malformed(before.take(k)),
                ),
            forall|k: int| i <= k < n ==> (#[trigger] list_view(messages@)[k]) == before[k],
            changed == any_malformed(before.take(i as int)),
        decreases n - i,
    {
        assert(list_view(messages@)[i as int] == before[i as int]);
        let mut malformed = false;
        if let Some(content) = messages[i].get_mut("content") {
            if let Some(blocks) = content.as_array_mut() {
                malformed = repair_blocks(blocks, changed);
            } else {
                proof {
                    with_same_value(before[i as int], "content"@);
                }
            }
        }
        proof {
            let next = before.take(i + 1);
            assert(forall|k: int| 0 <= k < i ==> next[k] == before.take(i as int)[k]);
            assert(next[i as int] == before[i as int]);
            if any_malformed(before.take(i as int)) {
                let k = choose|k: int| 0 <= k < i && message_is_malformed(before.take(i as int)[k]);
                assert(message_is_malformed(next[k]));
            }
            if any_malformed(next) && !malformed {
                let k = choose|k: int| 0 <= k < next.len() && message_is_malformed(next[k]);
                assert(message_is_malformed(before.take(i as int)[k]));
            }
        }
        if malformed {
            changed = true;
        }
        i = i + 1;
    }
    assert(before.take(i as int) =~= before);
    assert(list_view(messages@) =~= repaired_messages(before));
    changed
}

/// A body after the repair of malformed server tool blocks.
pub open spec fn repaired_body(body: JsonV) -> JsonV {
    match body.items_at("messages"@) {
        Some(messages) => body.with("messages"@, JsonV::Array(repaired_messages(messages))),
        None => body,
    }
}

/// Whether a body holds a malformed server tool block.
pub open spec fn body_is_malformed(body: JsonV) -> bool {
    match body.items_at("messages"@) {
        Some(messages) => any_malformed(messages),
        None => false,
    }
}

fn repair_malformed_server_tool_blocks(body: &mut Json, rule_ids: &mut Vec<String>)
    ensures
        final(body)@ == repaired_body(old(body)@),
        texts(final(rule_ids)@) == with_rule_if(
            texts(old(rule_ids)@),
            body_is_malformed(old(body)@),
            RULE_MALFORMED_SERVER_TOOL_REPAIR@,
        ),
{
    let ghost before = body@;
    if let Some(value) = body.get_mut("messages") {
        if let Some(messages) = value.as_array_mut() {
            let changed = repair_malformed_messages(messages);
            if changed {
                append_rule(rule_ids, RULE_MALFORMED_SERVER_TOOL_REPAIR);
            }
        } else {
            proof {
                with_same_value(before, "messages"@);
            }
        }
    }
}

/// The ids under `key` of the blocks of one kind, in order.
pub open spec fn block_ids(blocks: Seq<JsonV>, kind: Seq<char>, key: Seq<char>) -> Seq<Seq<char>>
    decreases blocks.len(),
{
    if blocks.len() == 0 {
        Seq::empty()
    } else {
        let before = block_ids(blocks.drop_last(), kind, key);
        match blocks.last().text_at(key) {
            Some(id) => if blocks.last().text_at("type"@) == Some(kind) {
                before.push(id)
            } else {
                before
            },
            None => before,
        }
    }
}

/// The ids under `key` of a message's blocks of one kind.
pub open spec fn message_ids(message: JsonV, kind: Seq<char>, key: Seq<char>) -> Seq<Seq<char>> {
    match message.items_at("content"@) {
        Some(blocks) => block_ids(blocks, kind, key),
        None => Seq::empty(),
    }
}

/// The ids of the tools that a message calls.
pub open spec fn use_ids(message: JsonV) -> Seq<Seq<char>> {
    message_ids(message, "tool_use"@, "id"@)
}

/// The ids of the tool calls that a message answers.
pub open spec fn result_ids(message: JsonV) -> Seq<Seq<char>> {
    message_ids(message, "tool_result"@, "tool_use_id"@)
}

/// How often an id occurs.
pub open spec fn occurrences(ids: Seq<Seq<char>>, id: Seq<char>) -> nat
    decreases ids.len(),
{
    if ids.len() == 0 {
        0
    } else {
        occurrences(ids.drop_last(), id) + if ids.last() == id {
            1nat
        } else {
            0nat
        }
    }
}

/// Each id once, in the order of first occurrence.
pub open spec fn distinct(ids: Seq<Seq<char>>) -> Seq<Seq<char>>
    decreases ids.len(),
{
    if ids.len() == 0 {
        Seq::empty()
    } else {
        let before = distinct(ids.drop_last());
        if before.contains(ids.last()) {
            before
        } else {
            before.push(ids.last())
        }
    }
}

/// The result that stands for a tool call without an answer.
pub open spec fn synthetic_result(id: Seq<char>) -> JsonV {
    JsonV::object().and("type"@, JsonV::Str("tool_result"@)).and("tool_use_id"@, JsonV::Str(id)).and(
        "is_error"@,
        JsonV::Bool(true),
    ).and("content"@, JsonV::Str(ORPHAN_TOOL_RESULT_PLACEHOLDER@))
}

/// How many calls of an id have no answer.
pub open spec fn shortfall(calls: Seq<Seq<char>>, answers: Seq<Seq<char>>, id: Seq<char>) -> nat {
    if occurrences(calls, id) > occurrences(answers, id) {
        (occurrences(calls, id) - occurrences(answers, id)) as nat
    } else {
        0
    }
}

/// The results that the calls of the given ids lack.
pub open spec fn lacking_results(order: Seq<Seq<char>>, calls: Seq<Seq<char>>, answers: Seq<Seq<char>>) -> Seq<JsonV>
    decreases order.len(),
{
    if order.len() == 0 {
        Seq::empty()
    } else {
        lacking_results(order.drop_last(), calls, answers) + Seq::new(
            shortfall(calls, answers, order.last()),
            |i: int| synthetic_result(order.last()),
        )
    }
}

/// The results that a list of calls lacks.
pub open spec fn missing_results(calls: Seq<Seq<char>>, answers: Seq<Seq<char>>) -> Seq<JsonV> {
    lacking_results(distinct(calls), calls, answers)
}

pub open spec fn is_role(message: JsonV, role: Seq<char>) -> bool {
    message.text_at("role"@) == Some(role)
}

/// A user message with results put in front of its content.
pub open spec fn with_results(message: JsonV, results: Seq<JsonV>) -> JsonV {
    match message.get("content"@) {
        Some(JsonV::Array(blocks)) => message.with("content"@, JsonV::Array(results + blocks)),
        Some(JsonV::Str(text)) => message.with("content"@, JsonV::Array(results.push(text_block(text)))),
        _ => message.with("content"@, JsonV::Array(results)),
    }
}

/// The user message that carries results alone.
pub open spec fn results_message(results: Seq<JsonV>) -> JsonV {
    JsonV::object().and("role"@, JsonV::Str("user"@)).and("content"@, JsonV::Array(results))
}

/// The results that the first message's calls lack in the second.
pub open spec fn lacking_at_head(messages: Seq<JsonV>) -> Seq<JsonV> {
    if messages.len() > 0 && is_role(messages[0], "assistant"@) {
        let answers = if messages.len() > 1 && is_role(messages[1], "user"@) {
            result_ids(messages[1])
        } else {
            Seq::empty()
        };
        missing_results(use_ids(messages[0]), answers)
    } else {
        Seq::empty()
    }
}

/// Messages in which every tool call is answered: what is missing comes first in the user message
/// after the call, or in a user message of its own.
pub open spec fn answered(messages: Seq<JsonV>) -> Seq<JsonV>
    decreases messages.len(),
{
    if messages.len() == 0 {
        messages
    } else {
        let missing = lacking_at_head(messages);
        let rest = messages.drop_first();
        if missing.len() == 0 {
            seq![messages[0]] + answered(rest)
        } else if rest.len() > 0 && is_role(rest[0], "user"@) {
            seq![messages[0]] + answered(rest.update(0, with_results(rest[0], missing)))
        } else {
            seq![messages[0], results_message(missing)] + answered(rest)
        }
    }
}

/// Whether a tool call is left without an answer.
pub open spec fn lacks_answers(messages: Seq<JsonV>) -> bool
    decreases messages.len(),
{
    if messages.len() == 0 {
        false
    } else {
        lacking_at_head(messages).len() > 0 || lacks_answers(messages.drop_first())
    }
}

fn ids_in(message: &Json, kind: &str, key: &str) -> (ids: Vec<String>)
    ensures
        texts(ids@) == message_ids(message@, kind@, key@),
{
    let mut ids: Vec<String> = Vec::new();
    if let Some(blocks) = message.array_at("content") {
        let ghost all = list_view(blocks@);
        let mut i: usize = 0;
        while i < blocks.len()
            invariant
                i <= blocks@.len(),
                all == list_view(blocks@),
                texts(ids@) == block_ids(all.take(i as int), kind@, key@),
            decreases blocks@.len() - i,
        {
            assert(all.take(i + 1).drop_last() =~= all.take(i as int));
            if blocks[i].has_text("type", kind) {
                if let Some(id) = blocks[i].str_at(key) {
                    ids.push(id.to_owned());
                }
            }
            i = i + 1;
        }
        assert(all.take(i as int) =~= all);
    }
    ids
}

/// The ids of the tools that a message calls, and each of them once in order.
fn tool_use_counts(message: &Json) -> (found: (Vec<String>, Vec<String>))
    ensures
        texts(found.0@) == use_ids(message@),
        texts(found.1@) == distinct(use_ids(message@)),
{
    let ids = ids_in(message, "tool_use", "id");
    let ghost all = texts(ids@);
    let mut order: Vec<String> = Vec::new();
    let mut i: usize = 0;
    while i < ids.len()
        invariant
            i <= ids@.len(),
            all == texts(ids@),
            texts(order@) == distinct(all.take(i as int)),
        decreases ids@.len() - i,
    {
        assert(all.take(i + 1).drop_last() =~= all.take(i as int));
        if !contains_text(&order, ids[i].as_str()) {
            order.push(ids[i].clone());
        }
        i = i + 1;
    }
    assert(all.take(i as int) =~= all);
    (ids, order)
}

/// The ids of the tool calls that a message answers.
fn tool_result_counts(message: &Json) -> (ids: Vec<String>)
    ensures
        texts(ids@) == result_ids(message@),
{
    ids_in(message, "tool_result", "tool_use_id")
}

fn count_of(ids: &Vec<String>, id: &str) -> (n: usize)
    ensures
        n == occurrences(texts(ids@), id@),
{
    let ghost all = texts(ids@);
    let mut n: usize = 0;
    let mut i: usize = 0;
    while i < ids.len()
        invariant
            i <= ids@.len(),
            n <= i,
            all == texts(ids@),
            n == occurrences(all.take(i as int), id@),
        decreases ids@.len() - i,
    {
        assert(all.take(i + 1).drop_last() =~= all.take(i as int));
        if same(ids[i].as_str(), id) {
            n = n + 1;
        }
        i = i + 1;
    }
    assert(all.take(i as int) =~= all);
    n
}

fn results_for(order: &Vec<String>, calls: &Vec<String>, answers: &Vec<String>) -> (results: Vec<Json>)
    ensures
        list_view(results@) == lacking_results(texts(order@), texts(calls@), texts(answers@)),
{
    let ghost all = texts(order@);
    let ghost cs = texts(calls@);
    let ghost ans = texts(answers@);
    let mut results: Vec<Json> = Vec::new();
    let mut i: usize = 0;
    while i < order.len()
        invariant
            i <= order@.len(),
            all == texts(order@),
            cs == texts(calls@),
            ans == texts(answers@),
            list_view(results@) == lacking_results(all.take(i as int), cs, ans),
        decreases order@.len() - i,
    {
        assert(all.take(i + 1).drop_last() =~= all.take(i as int));
        let ghost done = list_view(results@);
        let ghost id = all[i as int];
        let needed = count_of(calls, order[i].as_str());
        let got = count_of(answers, order[i].as_str());
        let lacking: usize = if needed > got {
            needed - got
        } else {
            0
        };
        let mut k: usize = 0;
        while k < lacking
            invariant
                k <= lacking,
                i < order@.len(),
                all == texts(order@),
                id == all[i as int],
                list_view(results@) == done + Seq::new(k as nat, |j: int| synthetic_result(id)),
            decreases lacking - k,
        {
            let result = Json::object().and("type", Json::text("tool_result")).and(
                "tool_use_id",
                Json::text(order[i].as_str()),
            ).and("is_error", Json::Bool(true)).and("content", Json::text(ORPHAN_TOOL_RESULT_PLACEHOLDER));
            results.push(result);
            k = k + 1;
            assert(list_view(results@) =~= done + Seq::new(k as nat, |j: int| synthetic_result(id)));
        }
        i = i + 1;
        assert(list_view(results@) =~= lacking_results(all.take(i as int), cs, ans));
    }
    assert(all.take(i as int) =~= all);
    results
}

/// Puts results in front of a user message's content.
fn put_results(message: &mut Json, results: Vec<Json>)
    ensures
        final(message)@ == with_results(old(message)@, list_view(results@)),
{
    let mut merged = results;
    let ghost first = list_view(merged@);
    match message.get("content") {
        Some(Json::Array(blocks)) => {
            let mut i: usize = 0;
            while i < blocks.len()
                invariant
                    i <= blocks@.len(),
                    list_view(merged@) == first + list_view(blocks@).take(i as int),
                decreases blocks@.len() - i,
            {
                merged.push(blocks[i].copy());
                i = i + 1;
                assert(list_view(merged@) =~= first + list_view(blocks@).take(i as int));
            }
            assert(list_view(blocks@).take(i as int) =~= list_view(blocks@));
        },
        Some(Json::Str(text)) => {
            merged.push(Json::typed("text", "text", text.as_str()));
        },
        _ => {},
    }
    message.set("content", Json::array(merged));
}

/// Answers every tool call that lacks an answer; tells whether there was one.
fn answer_tool_calls(messages: &mut Vec<Json>) -> (changed: bool)
    ensures
        list_view(final(messages)@) == answered(list_view(old(messages)@)),
        changed == lacks_answers(list_view(old(messages)@)),
{
    let ghost before = list_view(messages@);
    let mut changed = false;
    let mut index: usize = 0;
    proof {
        assert(before.take(0) + answered(before.skip(0)) =~= answered(before)) by {
            assert(before.skip(0) =~= before);
        }
        assert(before.skip(0) =~= before);
    }
    while index < messages.len()
        invariant
            index <= messages@.len(),
            list_view(messages@).take(index as int) + answered(list_view(messages@).skip(index as int)) == answered(before),
            (changed || lacks_answers(list_view(messages@).skip(index as int))) == lacks_answers(before),
            changed ==> lacks_answers(before),
        decreases messages@.len() - index,
    {
        let ghost now = list_view(messages@);
        let ghost tail = now.skip(index as int);
        let ghost done = now.take(index as int);
        assert(tail[0] == now[index as int]);
        assert(tail.drop_first() =~= now.skip(index + 1));
        assert(now.take(index + 1) =~= done + seq![tail[0]]);
        if !messages[index].has_text("role", "assistant") {
            assert(done + (seq![tail[0]] + answered(tail.drop_first())) =~= now.take(index + 1) + answered(tail.drop_first()));
            index = index + 1;
            continue;
        }
        let (calls, order) = tool_use_counts(&messages[index]);
        let next_is_user = index + 1 < messages.len() && messages[index + 1].has_text("role", "user");
        let answers = if next_is_user {
            tool_result_counts(&messages[index + 1])
        } else {
            Vec::new()
        };
        assert(next_is_user ==> tail[1] == now[index + 1]);
        let synthetic = results_for(&order, &calls, &answers);
        assert(list_view(synthetic@) == lacking_at_head(tail));
        if synthetic.len() == 0 {
            assert(done + (seq![tail[0]] + answered(tail.drop_first())) =~= now.take(index + 1) + answered(tail.drop_first()));
            index = index + 1;
            continue;
        }
        changed = true;
        if next_is_user {
            let ghost missing = list_view(synthetic@);
            put_results(&mut messages[index + 1], synthetic);
            proof {
                let rest = tail.drop_first();
                assert(list_view(messages@).skip(index + 1) =~= rest.update(0, with_results(rest[0], missing)));
                assert(list_view(messages@).take(index + 1) =~= done + seq![tail[0]]);
                assert(done + (seq![tail[0]] + answered(rest.update(0, with_results(rest[0], missing)))) =~= (done + seq![tail[0]])
                    + answered(rest.update(0, with_results(rest[0], missing))));
            }
            index = index + 1;
        } else {
            let ghost missing = list_view(synthetic@);
            messages.insert(index + 1, Json::object().and("role", Json::text("user")).and("content", Json::array(synthetic)));
            let grown: usize = messages.len();
            assert(index + 2 <= grown);
            proof {
                let rest = tail.drop_first();
                let now2 = list_view(messages@);
                assert(now2 =~= now.insert(index + 1, results_message(missing)));
                assert(now2.skip(index + 2) =~= rest);
                assert(now2.take(index + 2) =~= done + seq![tail[0], results_message(missing)]);
                assert(done + (seq![tail[0], results_message(missing)] + answered(rest)) =~= now2.take(index + 2) + answered(rest));
            }
            index = index + 2;
        }
    }
    proof {
        let now = list_view(messages@);
        assert(now.skip(index as int) =~= Seq::empty());
        assert(now.take(index as int) =~= now);
        assert(now + answered(Seq::<JsonV>::empty()) =~= now);
    }
    changed
}

/// Whether a block answers a call that none of the ids names.
pub open spec fn is_orphan(block: JsonV, ids: Seq<Seq<char>>) -> bool {
    block.text_at("type"@) == Some("tool_result"@) && !(match block.text_at("tool_use_id"@) {
        Some(id) => ids.contains(id),
        None => false,
    })
}

/// Whether one of the blocks answers a call that none of the ids names.
pub open spec fn holds_orphan(blocks: Seq<JsonV>, ids: Seq<Seq<char>>) -> bool {
    exists|i: int| 0 <= i < blocks.len() && is_orphan(#[trigger] blocks[i], ids)
}

/// Blocks with each orphan replaced by its text, or left out where it has none.
pub open spec fn adopted_blocks(blocks: Seq<JsonV>, ids: Seq<Seq<char>>) -> Seq<JsonV>
    decreases blocks.len(),
{
    if blocks.len() == 0 {
        Seq::empty()
    } else {
        let before = adopted_blocks(blocks.drop_last(), ids);
        if !is_orphan(blocks.last(), ids) {
            before.push(blocks.last())
        } else {
            match block_text(blocks.last()) {
                Some(text) => before.push(text_block(text)),
                None => before,
            }
        }
    }
}

/// The content of a user message after a message that calls the given ids; never empty where an
/// orphan was taken out.
pub open spec fn adopted_content(blocks: Seq<JsonV>, ids: Seq<Seq<char>>) -> Seq<JsonV> {
    let kept = adopted_blocks(blocks, ids);
    if holds_orphan(blocks, ids) && kept.len() == 0 {
        seq![text_block(OMITTED_ORPHAN_TOOL_RESULT@)]
    } else {
        kept
    }
}

/// The ids that the message before the last of these calls, if it is an assistant turn.
pub open spec fn called_before(done: Seq<JsonV>) -> Seq<Seq<char>> {
    if done.len() > 0 && is_role(done.last(), "assistant"@) {
        use_ids(done.last())
    } else {
        Seq::empty()
    }
}

/// A message without results that answer nothing in the messages before it.
pub open spec fn adopted_message(done: Seq<JsonV>, message: JsonV) -> JsonV {
    if is_role(message, "user"@) {
        match message.items_at("content"@) {
            Some(blocks) => message.with("content"@, JsonV::Array(adopted_content(blocks, called_before(done)))),
            None => message,
        }
    } else {
        message
    }
}

/// Whether a message holds a result that answers nothing in the messages before it.
pub open spec fn message_holds_orphan(done: Seq<JsonV>, message: JsonV) -> bool {
    is_role(message, "user"@) && match message.items_at("content"@) {
        Some(blocks) => holds_orphan(blocks, called_before(done)),
        None => false,
    }
}

/// Messages without results that answer nothing.
pub open spec fn adopted(messages: Seq<JsonV>) -> Seq<JsonV>
    decreases messages.len(),
{
    if messages.len() == 0 {
        messages
    } else {
        let done = adopted(messages.drop_last());
        done.push(adopted_message(done, messages.last()))
    }
}

/// Whether a result answers nothing.
pub open spec fn has_orphans(messages: Seq<JsonV>) -> bool
    decreases messages.len(),
{
    if messages.len() == 0 {
        false
    } else {
        has_orphans(messages.drop_last()) || message_holds_orphan(adopted(messages.drop_last()), messages.last())
    }
}

proof fn adopted_keeps_length(messages: Seq<JsonV>)
    ensures
        adopted(messages).len() == messages.len(),
    decreases messages.len(),
{
    if messages.len() > 0 {
        adopted_keeps_length(messages.drop_last());
    }
}

fn adopt_blocks(blocks: &mut Vec<Json>, ids: &Vec<String>) -> (changed: bool)
    ensures
        list_view(final(blocks)@) == adopted_content(list_view(old(blocks)@), texts(ids@)),
        changed == holds_orphan(list_view(old(blocks)@), texts(ids@)),
{
    let ghost before = list_view(blocks@);
    let mut changed = false;
    let mut rewritten: Vec<Json> = Vec::new();
    let mut i: usize = 0;
    while i < blocks.len()
        invariant
            i <= blocks@.len(),
            before == list_view(blocks@),
            list_view(rewritten@) == adopted_blocks(before.take(i as int), texts(ids@)),
            changed == exists|k: int| 0 <= k < i && is_orphan(#[trigger] before[k], texts(ids@)),
        decreases blocks@.len() - i,
    {
        assert(before.take(i + 1).drop_last() =~= before.take(i as int));
        let block = &blocks[i];
        let orphan = block.has_text("type", "tool_result") && !(match block.str_at("tool_use_id") {
            Some(id) => contains_text(ids, id),
            None => false,
        });
        assert(orphan == is_orphan(before[i as int], texts(ids@)));
        if orphan {
            if let Some(text) = extract_block_text(block) {
                rewritten.push(Json::typed("text", "text", text.as_str()));
            }
            changed = true;
        } else {
            rewritten.push(block.copy());
        }
        i = i + 1;
    }
    assert(before.take(i as int) =~= before);
    if changed && rewritten.len() == 0 {
        rewritten.push(Json::typed("text", "text", OMITTED_ORPHAN_TOOL_RESULT));
        assert(list_view(rewritten@) =~= seq![text_block(OMITTED_ORPHAN_TOOL_RESULT@)]);
    }
    *blocks = rewritten;
    changed
}

/// Turns results that answer nothing into text; tells whether there was one.
fn adopt_orphans(messages: &mut Vec<Json>) -> (changed: bool)
    ensures
        list_view(final(messages)@) == adopted(list_view(old(messages)@)),
        changed == has_orphans(list_view(old(messages)@)),
{
    let ghost before = list_view(messages@);
    let mut changed = false;
    let mut index: usize = 0;
    let n: usize = messages.len();
    proof {
        assert(before.skip(0) =~= before);
        assert(list_view(messages@).take(0) =~= before.take(0));
    }
    while index < n
        invariant
            index <= n,
            n == messages@.len(),
            n == before.len(),
            list_view(messages@).take(index as int) == adopted(before.take(index as int)),
            list_view(messages@).skip(index as int) == before.skip(index as int),
            changed == has_orphans(before.take(index as int)),
        decreases n - index,
    {
        let ghost now = list_view(messages@);
        let ghost done = now.take(index as int);
        assert(before.take(index + 1).drop_last() =~= before.take(index as int));
        assert(now.skip(index as int)[0] == now[index as int]);
        assert(before.skip(index as int)[0] == before[index as int]);
        assert(index > 0 ==> done.last() == now[index - 1]);
        if messages[index].has_text("role", "user") {
            let ids = if index > 0 && messages[index - 1].has_text("role", "assistant") {
                ids_in(&messages[index - 1], "tool_use", "id")
            } else {
                Vec::new()
            };
            assert(texts(ids@) == called_before(done));
            if let Some(content) = messages[index].get_mut("content") {
                if let Some(blocks) = content.as_array_mut() {
                    let one = adopt_blocks(blocks, &ids);
                    changed = changed || one;
                } else {
                    proof {
                        with_same_value(before[index as int], "content"@);
                    }
                }
            }
        }
        assert(list_view(messages@)[index as int] == adopted_message(done, before[index as int]));
        assert(forall|k: int| 0 <= k < n && k != index ==> list_view(messages@)[k] == now[k]);
        assert(list_view(messages@).take(index + 1) =~= done.push(adopted_message(done, before[index as int])));
        assert(list_view(messages@).skip(index + 1) =~= before.skip(index + 1)) by {
            assert forall|k: int| 0 <= k < n - index - 1 implies #[trigger] list_view(messages@).skip(index + 1)[k]
                == before.skip(index + 1)[k] by {
                assert(now.skip(index as int)[k + 1] == now[index + k + 1]);
                assert(before.skip(index as int)[k + 1] == before[index + k + 1]);
            }
        }
        index = index + 1;
    }
    assert(before.take(index as int) =~= before);
    assert(list_view(messages@).take(index as int) =~= list_view(messages@));
    changed
}

/// A body in which calls and results are paired.
pub open spec fn paired_body(body: JsonV) -> JsonV {
    match body.items_at("messages"@) {
        Some(messages) => body.with("messages"@, JsonV::Array(adopted(answered(messages)))),
        None => body,
    }
}

/// Whether a body holds a call without a result or a result without a call.
pub open spec fn body_is_unpaired(body: JsonV) -> bool {
    match body.items_at("messages"@) {
        Some(messages) => lacks_answers(messages) || has_orphans(answered(messages)),
        None => false,
    }
}

/// Pairs tool calls and results: first every call gets an answer, then every result without a call
/// in the turn before becomes text.
fn repair_orphan_tool_pairing(body: &mut Json, rule_ids: &mut Vec<String>)
    ensures
        final(body)@ == paired_body(old(body)@),
        texts(final(rule_ids)@) == with_rule_if(
            texts(old(rule_ids)@),
            body_is_unpaired(old(body)@),
            RULE_ORPHAN_TOOL_PAIRING_REPAIR@,
        ),
{
    let ghost before = body@;
    if let Some(value) = body.get_mut("messages") {
        if let Some(messages) = value.as_array_mut() {
            let filled = answer_tool_calls(messages);
            let adopted_any = adopt_orphans(messages);
            if filled || adopted_any {
                append_rule(rule_ids, RULE_ORPHAN_TOOL_PAIRING_REPAIR);
            }
        } else {
            proof {
                with_same_value(before, "messages"@);
            }
        }
    }
}

/// A request body after every DeepSeek compensation, and the rules that applied.
pub open spec fn normalized(body: JsonV, model: Seq<char>, rules: Seq<Seq<char>>) -> (JsonV, Seq<Seq<char>>) {
    let capped = clamped_body(body, model);
    let (thought, rules1) = if names_one_tool(capped) {
        (
            thinking_turned_off(capped).0,
            with_rule_if(rules, thinking_turned_off(capped).1, RULE_TOOL_CHOICE_DISABLES_THINKING@),
        )
    } else {
        (auto_made_adaptive(capped), with_rule_if(rules, thinks_auto(capped), RULE_THINKING_AUTO_ADAPTIVE@))
    };
    let (calm, rules2) = if thinking_is_disabled(thought) {
        (
            without_effort(thought).0,
            with_rule_if(rules1, without_effort(thought).1, RULE_THINKING_DISABLED_STRIPS_EFFORT@),
        )
    } else {
        (thought, rules1)
    };
    let replayed = replayed_body(calm);
    let rules3 = with_rule_if(rules2, replay_changes_body(calm), RULE_TOOL_THINKING_HISTORY_REPLAY@);
    let repaired = repaired_body(replayed);
    let rules4 = with_rule_if(rules3, body_is_malformed(replayed), RULE_MALFORMED_SERVER_TOOL_REPAIR@);
    let rules5 = with_rule_if(rules4, body_is_unpaired(repaired), RULE_ORPHAN_TOOL_PAIRING_REPAIR@);
    (paired_body(repaired), rules5)
}

/// Applies every DeepSeek compensation to a request body, in the order in which they depend on
/// each other, and names the rules that changed it.
pub fn normalize_request(body: &mut Json, target_model: &str, rule_ids: &mut Vec<String>)
    ensures
        (final(body)@, texts(final(rule_ids)@)) == normalized(old(body)@, target_model@, texts(old(rule_ids)@)),
{
    clamp_body_max_tokens(body, target_model);
    // A named tool turns thinking off altogether, whatever it was before.
    if !disable_thinking_for_tool_choice(body, rule_ids) {
        normalize_thinking_auto(body, rule_ids);
    }
    strip_effort_when_thinking_disabled(body, rule_ids);
    replay_tool_thinking_history(body, rule_ids);
    repair_malformed_server_tool_blocks(body, rule_ids);
    repair_orphan_tool_pairing(body, rule_ids);
}

} // verus!
