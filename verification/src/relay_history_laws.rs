//! Histories that are sound as they come are sent, whatever the repairs make of them.
use crate::anthropic_compat::{
    answers_of, blocks_fault, calls_of, flavor_of, history_fault, history_of, is_assistant, message_blocks,
    message_fault, messages_fault, pairing_of, relayed, HistoryV, RelayFlavor,
};
use crate::anthropic_compat_laws::keys_are_distinct;
use crate::deepseek_compat::{
    any_malformed, block_ids, block_text, called_before, distinct, has_orphans, is_malformed, is_orphan, is_role,
    lacking_at_head, lacks_answers, needs_thinking, normalized, occurrences, paired_body, repaired_blocks,
    repaired_body, repaired_message, repaired_messages, replayed_block, replayed_blocks, replayed_body,
    replayed_message, result_ids, shortfall, use_ids, OMITTED_ORPHAN_TOOL_RESULT, THINKING_PLACEHOLDER,
};
use crate::deepseek_compat_laws::{
    answered_histories_are_kept, called_histories_are_kept, contains_is_occurrence, content_keeps_role, distinct_facts, nothing_lacks, open_calls,
};
use crate::deepseek_normal_laws::{
    giving_keeps_keys, history_of_normal, normal_history, settings_become_normal, taking_out_keeps_the_rest,
    values_are_well_keyed, well_keyed, with_normal_settings,
};
use crate::json::JsonV;
use crate::json_model::{and_gives, group_json_views, key_index_finds, text_block, typed_block, with_gives};
use vstd::prelude::*;

verus! {

broadcast use group_json_views;

/// Whether a block plays no part in the pairing of calls and results.
pub open spec fn is_inert(block: JsonV) -> bool {
    block.text_at("type"@) != Some("tool_use"@) && block.text_at("type"@) != Some("tool_result"@)
}

proof fn kinds_differ()
    ensures
        "tool_use"@ != "tool_result"@,
        "text"@ != "tool_use"@,
        "text"@ != "tool_result"@,
        "thinking"@ != "tool_use"@,
        "thinking"@ != "tool_result"@,
        "redacted_thinking"@ != "tool_use"@,
        "redacted_thinking"@ != "tool_result"@,
        "web_search_tool_result"@ != "tool_use"@,
        "web_search_tool_result"@ != "tool_result"@,
        "web_fetch_tool_result"@ != "tool_use"@,
        "web_fetch_tool_result"@ != "tool_result"@,
        "code_execution_tool_result"@ != "tool_use"@,
        "code_execution_tool_result"@ != "tool_result"@,
        "server_tool_use"@ != "tool_use"@,
        "server_tool_use"@ != "tool_result"@,
        "type"@ != "text"@,
        "type"@ != "thinking"@,
        "type"@ != "signature"@,
        "role"@ != "content"@,
        "user"@ != "assistant"@,
        "model"@ != "messages"@,
{
    reveal_strlit("tool_use");
    reveal_strlit("tool_result");
    reveal_strlit("text");
    reveal_strlit("thinking");
    reveal_strlit("redacted_thinking");
    reveal_strlit("web_search_tool_result");
    reveal_strlit("web_fetch_tool_result");
    reveal_strlit("code_execution_tool_result");
    reveal_strlit("server_tool_use");
    reveal_strlit("type");
    reveal_strlit("signature");
    reveal_strlit("role");
    reveal_strlit("content");
    reveal_strlit("user");
    reveal_strlit("assistant");
    reveal_strlit("model");
    reveal_strlit("messages");
    assert("tool_use"@.len() == 8 && "tool_result"@.len() == 11 && "text"@.len() == 4 && "thinking"@.len() == 8);
    assert("redacted_thinking"@.len() == 17 && "web_search_tool_result"@.len() == 22 && "web_fetch_tool_result"@.len() == 21);
    assert("code_execution_tool_result"@.len() == 26 && "server_tool_use"@.len() == 15 && "type"@.len() == 4);
    assert("signature"@.len() == 9 && "role"@.len() == 4 && "content"@.len() == 7 && "user"@.len() == 4);
    assert("assistant"@.len() == 9 && "model"@.len() == 5 && "messages"@.len() == 8);
    assert("thinking"@[1] == 'h' && "tool_use"@[1] == 'o');
    assert("type"@[1] == 'y' && "text"@[1] == 'e');
}

proof fn written_blocks_are_inert(text: Seq<char>)
    ensures
        is_inert(text_block(text)),
        is_inert(typed_block("thinking"@, "thinking"@, text)),
{
    kinds_differ();
    let told = JsonV::object().and("type"@, JsonV::Str("text"@));
    and_gives(JsonV::object(), "type"@, JsonV::Str("text"@), "type"@);
    and_gives(told, "text"@, JsonV::Str(text), "type"@);
    let thought = JsonV::object().and("type"@, JsonV::Str("thinking"@));
    and_gives(JsonV::object(), "type"@, JsonV::Str("thinking"@), "type"@);
    and_gives(thought, "thinking"@, JsonV::Str(text), "type"@);
}

proof fn replayed_blocks_are_inert(block: JsonV)
    requires
        keys_are_distinct(block),
    ensures
        replayed_block(block).0 == block || (is_inert(block) && is_inert(replayed_block(block).0)),
{
    kinds_differ();
    if block.text_at("type"@) == Some("thinking"@) {
        let unsigned = block.without("signature"@);
        taking_out_keeps_the_rest(block, "signature"@, "type"@);
        with_gives(unsigned, "thinking"@, JsonV::Str(THINKING_PLACEHOLDER@));
    } else if block.text_at("type"@) == Some("redacted_thinking"@) {
        written_blocks_are_inert(crate::deepseek_compat::REDACTED_THINKING_PLACEHOLDER@);
    }
}

proof fn malformed_blocks_are_inert(block: JsonV)
    ensures
        is_malformed(block) ==> is_inert(block),
{
    kinds_differ();
}

/// Calls among blocks of which some are replaced, neither those nor what replaces them playing a part.
proof fn replaced_blocks_call_alike(h: HistoryV, blocks: Seq<JsonV>, now: Seq<JsonV>)
    requires
        now.len() == blocks.len(),
        forall|i: int| 0 <= i < blocks.len() ==> #[trigger] now[i] == blocks[i] || (is_inert(blocks[i]) && is_inert(now[i])),
    ensures
        calls_of(h, now) == calls_of(h, blocks),
    decreases blocks.len(),
{
    if blocks.len() > 0 {
        let (a, b) = (blocks.drop_last(), now.drop_last());
        assert forall|i: int| 0 <= i < a.len() implies #[trigger] b[i] == a[i] || (is_inert(a[i]) && is_inert(b[i])) by {
            assert(b[i] == now[i] && a[i] == blocks[i]);
        }
        replaced_blocks_call_alike(h, a, b);
        let end = blocks.len() - 1;
        assert(now[end] == blocks[end] || (is_inert(blocks[end]) && is_inert(now[end])));
    }
}

proof fn a_block_in_front_calls_nothing(h: HistoryV, front: JsonV, blocks: Seq<JsonV>)
    requires
        is_inert(front),
    ensures
        calls_of(h, seq![front] + blocks) == calls_of(h, blocks),
    decreases blocks.len(),
{
    let all = seq![front] + blocks;
    if blocks.len() == 0 {
        assert(all.drop_last() =~= Seq::empty());
        assert(all.last() == front);
        assert(calls_of(h, all.drop_last()) == Ok::<HistoryV, Seq<char>>(h));
        assert(blocks =~= Seq::empty());
    } else {
        assert(all.drop_last() =~= seq![front] + blocks.drop_last());
        assert(all.last() == blocks.last());
        a_block_in_front_calls_nothing(h, front, blocks.drop_last());
    }
}

proof fn repaired_blocks_pair_alike(h: HistoryV, pending: Set<Seq<char>>, blocks: Seq<JsonV>)
    ensures
        calls_of(h, repaired_blocks(blocks)) == calls_of(h, blocks),
        answers_of(pending, repaired_blocks(blocks)) == answers_of(pending, blocks),
    decreases blocks.len(),
{
    if blocks.len() > 0 {
        let last = blocks.last();
        let before = repaired_blocks(blocks.drop_last());
        let now = repaired_blocks(blocks);
        repaired_blocks_pair_alike(h, pending, blocks.drop_last());
        malformed_blocks_are_inert(last);
        if let Some(text) = block_text(last) {
            written_blocks_are_inert(text);
        }
        if now.len() > before.len() {
            assert(now.drop_last() =~= before);
        }
    } else {
        assert(blocks =~= Seq::empty());
    }
}

proof fn replays_pair_alike(h: HistoryV, message: JsonV)
    requires
        well_keyed(message),
    ensures
        pairing_of(h, replayed_message(message)) == pairing_of(h, message),
        message_fault(message, true) is None ==> message_fault(replayed_message(message), false) is None,
        replayed_message(message).text_at("role"@) == message.text_at("role"@),
{
    if needs_thinking(message) {
        kinds_differ();
        let blocks = message.items_at("content"@).unwrap();
        let now = replayed_blocks(blocks);
        let kept = blocks.map_values(|block: JsonV| replayed_block(block).0);
        content_keeps_role(message, JsonV::Array(now));
        values_are_well_keyed(message, "content"@);
        assert forall|i: int| 0 <= i < blocks.len() implies #[trigger] kept[i] == blocks[i] || (is_inert(blocks[i]) && is_inert(
            kept[i],
        )) by {
            assert(well_keyed(blocks[i]));
            values_are_well_keyed(blocks[i], ""@);
            replayed_blocks_are_inert(blocks[i]);
        }
        replaced_blocks_call_alike(h, blocks, kept);
        let front = typed_block("thinking"@, "thinking"@, THINKING_PLACEHOLDER@);
        written_blocks_are_inert(THINKING_PLACEHOLDER@);
        a_block_in_front_calls_nothing(h, front, kept);
        assert(message_blocks(replayed_message(message)) == now);
    }
}

proof fn repairs_pair_alike(h: HistoryV, message: JsonV, changed: bool)
    ensures
        pairing_of(h, repaired_message(message, changed)) == pairing_of(h, message),
        message_fault(message, false) is None ==> message_fault(repaired_message(message, changed), false) is None,
{
    kinds_differ();
    if let Some(blocks) = message.items_at("content"@) {
        let kept = repaired_blocks(blocks);
        let note = text_block(OMITTED_ORPHAN_TOOL_RESULT@);
        let noted = seq![note];
        repaired_blocks_pair_alike(h, h.pending, blocks);
        content_keeps_role(message, JsonV::Array(kept));
        content_keeps_role(message, JsonV::Array(noted));
        written_blocks_are_inert(OMITTED_ORPHAN_TOOL_RESULT@);
        assert(noted.drop_last() =~= Seq::empty());
        assert(noted.last() == note);
        assert(calls_of(h, noted.drop_last()) == Ok::<HistoryV, Seq<char>>(h));
        assert(answers_of(h.pending, noted.drop_last()) == Ok::<Set<Seq<char>>, Seq<char>>(Set::empty()));
        assert(calls_of(h, noted) == Ok::<HistoryV, Seq<char>>(h));
        assert(answers_of(h.pending, noted) == Ok::<Set<Seq<char>>, Seq<char>>(Set::empty()));
        if kept.len() == 0 {
            assert(kept =~= Seq::empty());
        }
    }
}

/// The repairs of thinking and of malformed blocks, message by message, leave the pairing alone.
proof fn histories_pair_alike(messages: Seq<JsonV>, now: Seq<JsonV>, i: int)
    requires
        0 <= i <= messages.len(),
        now == repaired_messages(messages.map_values(|message: JsonV| replayed_message(message))),
        forall|k: int| 0 <= k < messages.len() ==> well_keyed(#[trigger] messages[k]),
        history_of(messages.take(i), true) is Ok,
    ensures
        history_of(now.take(i), false) == history_of(messages.take(i), true),
    decreases i,
{
    if i > 0 {
        let replayed = messages.map_values(|message: JsonV| replayed_message(message));
        let message = messages[i - 1];
        assert(messages.take(i).drop_last() =~= messages.take(i - 1));
        assert(now.take(i).drop_last() =~= now.take(i - 1));
        histories_pair_alike(messages, now, i - 1);
        let h = history_of(messages.take(i - 1), true)->Ok_0;
        assert(well_keyed(message));
        assert(replayed[i - 1] == replayed_message(message));
        replays_pair_alike(h, message);
        repairs_pair_alike(h, replayed_message(message), any_malformed(replayed.take(i - 1)));
    }
}

/// The ids of the calls of a message, as a set.
spec fn called(message: JsonV) -> Set<Seq<char>> {
    if is_assistant(message) {
        Set::new(|id: Seq<char>| use_ids(message).contains(id))
    } else {
        Set::empty()
    }
}

proof fn calls_are_collected(h: HistoryV, blocks: Seq<JsonV>)
    requires
        calls_of(h, blocks) is Ok,
    ensures
        ({
            let ids = block_ids(blocks, "tool_use"@, "id"@);
            let now = calls_of(h, blocks)->Ok_0;
            &&& forall|id: Seq<char>| #[trigger] now.pending.contains(id) <==> h.pending.contains(id) || ids.contains(id)
            &&& forall|id: Seq<char>| #[trigger] now.seen.contains(id) <==> h.seen.contains(id) || ids.contains(id)
            &&& forall|id: Seq<char>| #[trigger] occurrences(ids, id) <= 1
        }),
    decreases blocks.len(),
{
    if blocks.len() > 0 {
        calls_are_collected(h, blocks.drop_last());
        let before = block_ids(blocks.drop_last(), "tool_use"@, "id"@);
        let ids = block_ids(blocks, "tool_use"@, "id"@);
        let was = calls_of(h, blocks.drop_last())->Ok_0;
        let now = calls_of(h, blocks)->Ok_0;
        if blocks.last().text_at("type"@) == Some("tool_use"@) {
            let id = blocks.last().text_at("id"@).unwrap();
            assert(ids == before.push(id));
            assert(ids.drop_last() =~= before);
            assert(!was.seen.contains(id));
            contains_is_occurrence(before, id);
            assert forall|x: Seq<char>| ids.contains(x) == (before.contains(x) || x == id) by {
                contains_is_occurrence(ids, x);
                contains_is_occurrence(before, x);
            }
            assert forall|x: Seq<char>| #[trigger] occurrences(ids, x) <= 1 by {
                assert(occurrences(before, x) <= 1);
            }
        } else {
            assert(ids == before);
            assert(now == was);
        }
    }
}

proof fn answers_are_collected(pending: Set<Seq<char>>, blocks: Seq<JsonV>)
    requires
        answers_of(pending, blocks) is Ok,
    ensures
        ({
            let ids = block_ids(blocks, "tool_result"@, "tool_use_id"@);
            let answers = answers_of(pending, blocks)->Ok_0;
            &&& forall|id: Seq<char>| #[trigger] answers.contains(id) ==> occurrences(ids, id) > 0
            &&& forall|i: int| 0 <= i < blocks.len() && (#[trigger] blocks[i]).text_at("type"@) == Some("tool_result"@) ==> {
                blocks[i].text_at("tool_use_id"@) matches Some(id) && pending.contains(id)
            }
        }),
    decreases blocks.len(),
{
    if blocks.len() > 0 {
        kinds_differ();
        let fewer = blocks.drop_last();
        answers_are_collected(pending, fewer);
        let before = block_ids(fewer, "tool_result"@, "tool_use_id"@);
        let ids = block_ids(blocks, "tool_result"@, "tool_use_id"@);
        if ids.len() > before.len() {
            assert(ids.drop_last() =~= before);
        }
        assert forall|i: int| 0 <= i < blocks.len() && (#[trigger] blocks[i]).text_at("type"@) == Some(
            "tool_result"@,
        ) implies (blocks[i].text_at("tool_use_id"@) matches Some(id) && pending.contains(id)) by {
            if i < fewer.len() {
                assert(fewer[i] == blocks[i]);
            }
        }
    }
}

/// The calls that wait are those of the last turn.
proof fn the_last_turn_waits(messages: Seq<JsonV>, limited: bool)
    requires
        history_of(messages, limited) is Ok,
    ensures
        history_of(messages, limited)->Ok_0.pending == if messages.len() > 0 {
            called(messages.last())
        } else {
            Set::empty()
        },
    decreases messages.len(),
{
    if messages.len() > 0 {
        let last = messages.last();
        let h = history_of(messages.drop_last(), limited)->Ok_0;
        let now = history_of(messages, limited)->Ok_0;
        if is_assistant(last) {
            calls_are_collected(h, message_blocks(last));
            assert(h.pending =~= Set::empty());
            assert(now.pending =~= called(last));
        }
    }
}

/// A history of paired calls and results needs no repair.
proof fn paired_histories_lack_nothing(messages: Seq<JsonV>, limited: bool)
    requires
        history_of(messages, limited) matches Ok(h) && h.pending.is_empty(),
    ensures
        !lacks_answers(messages),
{
    kinds_differ();
    open_calls(messages);
    assert forall|i: int| 0 <= i < messages.len() implies lacking_at_head(#[trigger] messages.skip(i)).len() == 0 by {
        let tail = messages.skip(i);
        let head = messages[i];
        assert(tail[0] == head);
        if is_assistant(head) {
            turns_are_answered(messages, limited, i);
        }
    }
}

proof fn prefixes_are_sound(messages: Seq<JsonV>, limited: bool, i: int)
    requires
        0 <= i <= messages.len(),
        history_of(messages, limited) is Ok,
    ensures
        history_of(messages.take(i), limited) is Ok,
    decreases messages.len() - i,
{
    if i < messages.len() {
        prefixes_are_sound(messages, limited, i + 1);
        assert(messages.take(i + 1).drop_last() =~= messages.take(i));
    } else {
        assert(messages.take(i) =~= messages);
    }
}

proof fn turns_are_answered(messages: Seq<JsonV>, limited: bool, i: int)
    requires
        0 <= i < messages.len(),
        is_assistant(messages[i]),
        history_of(messages, limited) matches Ok(h) && h.pending.is_empty(),
    ensures
        lacking_at_head(messages.skip(i)).len() == 0,
{
    kinds_differ();
    let head = messages[i];
    let tail = messages.skip(i);
    let calls = use_ids(head);
    assert(tail[0] == head);
    prefixes_are_sound(messages, limited, i + 1);
    let upto = messages.take(i + 1);
    assert(upto.last() == head);
    assert(upto.drop_last() =~= messages.take(i));
    the_last_turn_waits(upto, limited);
    let h = history_of(messages.take(i), limited)->Ok_0;
    calls_are_collected(h, message_blocks(head));
    assert(calls == block_ids(message_blocks(head), "tool_use"@, "id"@));
    let waiting = history_of(upto, limited)->Ok_0.pending;
    distinct_facts(calls);
    if i + 1 < messages.len() {
        let next = messages[i + 1];
        assert(tail[1] == next);
        prefixes_are_sound(messages, limited, i + 2);
        let further = messages.take(i + 2);
        assert(further.last() == next);
        assert(further.drop_last() =~= upto);
        if is_assistant(next) {
            assert(waiting.is_empty());
            assert forall|k: int| 0 <= k < distinct(calls).len() implies shortfall(
                calls,
                Seq::empty(),
                #[trigger] distinct(calls)[k],
            ) == 0 by {
                assert(distinct(calls).contains(distinct(calls)[k]));
                contains_is_occurrence(calls, distinct(calls)[k]);
                assert(waiting.contains(distinct(calls)[k]));
            }
            nothing_lacks(distinct(calls), calls, Seq::empty());
        } else {
            answers_are_collected(waiting, message_blocks(next));
            let answers = result_ids(next);
            assert(answers == block_ids(message_blocks(next), "tool_result"@, "tool_use_id"@));
            assert forall|k: int| 0 <= k < distinct(calls).len() implies shortfall(
                calls,
                answers,
                #[trigger] distinct(calls)[k],
            ) == 0 by {
                let id = distinct(calls)[k];
                assert(distinct(calls).contains(id));
                contains_is_occurrence(calls, id);
                assert(waiting.contains(id));
                assert(answers_of(waiting, message_blocks(next))->Ok_0.contains(id));
                assert(occurrences(calls, id) <= 1);
            }
            nothing_lacks(distinct(calls), calls, answers);
        }
    } else {
        assert(upto =~= messages);
        assert forall|k: int| 0 <= k < distinct(calls).len() implies shortfall(
            calls,
            Seq::empty(),
            #[trigger] distinct(calls)[k],
        ) == 0 by {
            assert(distinct(calls).contains(distinct(calls)[k]));
            contains_is_occurrence(calls, distinct(calls)[k]);
            assert(waiting.contains(distinct(calls)[k]));
        }
        nothing_lacks(distinct(calls), calls, Seq::empty());
    }
}

proof fn paired_histories_have_no_orphans(messages: Seq<JsonV>, limited: bool)
    requires
        history_of(messages, limited) is Ok,
    ensures
        !has_orphans(messages),
    decreases messages.len(),
{
    if messages.len() > 0 {
        kinds_differ();
        let done = messages.drop_last();
        let last = messages.last();
        paired_histories_have_no_orphans(done, limited);
        called_histories_are_kept(done);
        the_last_turn_waits(done, limited);
        let h = history_of(done, limited)->Ok_0;
        if is_role(last, "user"@) {
            if let Some(blocks) = last.items_at("content"@) {
                answers_are_collected(h.pending, blocks);
                assert forall|i: int| 0 <= i < blocks.len() implies !is_orphan(#[trigger] blocks[i], called_before(done)) by {
                }
            }
        }
    }
}

proof fn naming_the_model_keeps_the_rest(body: JsonV, model: Seq<char>)
    requires
        well_keyed(body),
        body is Object,
    ensures
        well_keyed(body.with("model"@, JsonV::Str(model))),
        body.with("model"@, JsonV::Str(model)) is Object,
        body.with("model"@, JsonV::Str(model)).get("messages"@) == body.get("messages"@),
{
    kinds_differ();
    with_gives(body, "model"@, JsonV::Str(model));
    giving_keeps_keys(body, "model"@, JsonV::Str(model));
    let entries = body->Object_0;
    key_index_finds(entries, "model"@);
    let now = body.with("model"@, JsonV::Str(model))->Object_0;
    assert forall|i: int| 0 <= i < now.len() implies well_keyed((#[trigger] now[i]).1) by {
        if i < entries.len() {
            assert(well_keyed(entries[i].1));
        }
    }
}

proof fn sound_messages_have_no_fault(messages: Seq<JsonV>)
    requires
        history_of(messages, true) is Ok,
    ensures
        messages_fault(messages) is None,
    decreases messages.len(),
{
    if messages.len() > 0 {
        let last = messages.last();
        sound_messages_have_no_fault(messages.drop_last());
        let h = history_of(messages.drop_last(), true)->Ok_0;
        sound_blocks_have_no_fault(h, message_blocks(last));
    }
}

proof fn sound_blocks_have_no_fault(h: HistoryV, blocks: Seq<JsonV>)
    ensures
        calls_of(h, blocks) is Ok ==> blocks_fault(blocks, true) is None,
        answers_of(h.pending, blocks) is Ok ==> blocks_fault(blocks, false) is None,
    decreases blocks.len(),
{
    if blocks.len() > 0 {
        sound_blocks_have_no_fault(h, blocks.drop_last());
    }
}

/// A request whose tool history is sound as it comes is sent under the DeepSeek flavor too: neither the
/// thinking that is put in front of a turn nor any other repair is a reason to refuse it.
pub proof fn sound_histories_are_sent(
    body: JsonV,
    model: Seq<char>,
    policy: Option<Seq<char>>,
    contract: Option<Seq<char>>,
)
    requires
        well_keyed(body),
        model.len() > 0,
        flavor_of(contract, model) == RelayFlavor::DeepSeek,
        history_fault(body, true) is None,
    ensures
        relayed(body, model, policy, contract) is Ok,
{
    let messages = body.items_at("messages"@).unwrap();
    let named = body.with("model"@, JsonV::Str(model));
    naming_the_model_keeps_the_rest(body, model);
    sound_messages_have_no_fault(messages);
    let calm = with_normal_settings(named, model);
    settings_become_normal(named, model);
    history_of_normal(calm);
    let sent = normalized(named, model, Seq::empty()).0;
    assert(sent == paired_body(repaired_body(replayed_body(calm))));
    let now = repaired_messages(messages.map_values(|message: JsonV| replayed_message(message)));
    values_are_well_keyed(body, "messages"@);
    assert(well_keyed(JsonV::Array(messages)));
    assert(messages.take(messages.len() as int) =~= messages);
    assert(now.take(messages.len() as int) =~= now);
    histories_pair_alike(messages, now, messages.len() as int);
    paired_histories_lack_nothing(now, false);
    paired_histories_have_no_orphans(now, false);
    answered_histories_are_kept(now);
    called_histories_are_kept(now);
    assert(normal_history(messages) == now);
}

} // verus!
