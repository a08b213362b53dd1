//! What holds of a conversation that is accepted: every call of a tool has its one answer.
use crate::anthropic_compat::{
    answers_of, calls_of, history_fault, history_of, is_assistant, message_blocks, message_fault, pairing_of,
    HistoryV,
};
use crate::json::JsonV;
use vstd::prelude::*;

verus! {

/// Whether a block is the call of a tool under an id.
pub open spec fn is_call_of(block: JsonV, id: Seq<char>) -> bool {
    block.text_at("type"@) == Some("tool_use"@) && block.text_at("id"@) == Some(id)
}

/// Whether a block is the answer to a call.
pub open spec fn is_answer_to(block: JsonV, id: Seq<char>) -> bool {
    block.text_at("type"@) == Some("tool_result"@) && block.text_at("tool_use_id"@) == Some(id)
}

/// Whether blocks hold the call of a tool under an id.
pub open spec fn hold_call(blocks: Seq<JsonV>, id: Seq<char>) -> bool {
    exists|j: int| 0 <= j < blocks.len() && is_call_of(#[trigger] blocks[j], id)
}

/// Whether blocks hold the answer to a call.
pub open spec fn hold_answer(blocks: Seq<JsonV>, id: Seq<char>) -> bool {
    exists|j: int| 0 <= j < blocks.len() && is_answer_to(#[trigger] blocks[j], id)
}

/// The blocks of a turn of the conversation.
pub open spec fn blocks_in(message: JsonV) -> Seq<JsonV> {
    match message.items_at("content"@) {
        Some(blocks) => blocks,
        None => Seq::empty(),
    }
}

/// Whether a turn makes a call.
pub open spec fn makes_call(message: JsonV, id: Seq<char>) -> bool {
    hold_call(blocks_in(message), id)
}

/// Whether a turn answers a call.
pub open spec fn gives_answer(message: JsonV, id: Seq<char>) -> bool {
    hold_answer(blocks_in(message), id)
}

proof fn one_more_block(blocks: Seq<JsonV>, id: Seq<char>)
    requires
        blocks.len() > 0,
    ensures
        hold_call(blocks, id) == (hold_call(blocks.drop_last(), id) || is_call_of(blocks.last(), id)),
        hold_answer(blocks, id) == (hold_answer(blocks.drop_last(), id) || is_answer_to(blocks.last(), id)),
{
    let before = blocks.drop_last();
    let end = blocks.len() - 1;
    if hold_call(before, id) {
        let j = choose|j: int| 0 <= j < before.len() && is_call_of(#[trigger] before[j], id);
        assert(is_call_of(blocks[j], id));
    }
    if is_call_of(blocks.last(), id) {
        assert(is_call_of(blocks[end], id));
    }
    if hold_call(blocks, id) && !is_call_of(blocks.last(), id) {
        let j = choose|j: int| 0 <= j < blocks.len() && is_call_of(#[trigger] blocks[j], id);
        assert(is_call_of(before[j], id));
    }
    if hold_answer(before, id) {
        let j = choose|j: int| 0 <= j < before.len() && is_answer_to(#[trigger] before[j], id);
        assert(is_answer_to(blocks[j], id));
    }
    if is_answer_to(blocks.last(), id) {
        assert(is_answer_to(blocks[end], id));
    }
    if hold_answer(blocks, id) && !is_answer_to(blocks.last(), id) {
        let j = choose|j: int| 0 <= j < blocks.len() && is_answer_to(#[trigger] blocks[j], id);
        assert(is_answer_to(before[j], id));
    }
}

proof fn calls_are_noted(h: HistoryV, blocks: Seq<JsonV>, id: Seq<char>)
    ensures
        calls_of(h, blocks) matches Ok(g) ==> {
            &&& g.seen.contains(id) == (h.seen.contains(id) || hold_call(blocks, id))
            &&& g.pending.contains(id) == (h.pending.contains(id) || hold_call(blocks, id))
            &&& hold_call(blocks, id) ==> !h.seen.contains(id) && id.len() > 0
            &&& !hold_answer(blocks, id)
            &&& forall|j: int, k: int|
                0 <= j < k < blocks.len() && is_call_of(#[trigger] blocks[j], id) ==> !is_call_of(#[trigger] blocks[k], id)
        },
    decreases blocks.len(),
{
    reveal_strlit("tool_use");
    reveal_strlit("tool_result");
    assert("tool_use"@.len() == 8 && "tool_result"@.len() == 11);
    if blocks.len() > 0 {
        let before = blocks.drop_last();
        calls_are_noted(h, before, id);
        one_more_block(blocks, id);
        if let Ok(g) = calls_of(h, blocks) {
            let f = calls_of(h, before)->Ok_0;
            assert forall|j: int, k: int|
                0 <= j < k < blocks.len() && is_call_of(#[trigger] blocks[j], id) implies !is_call_of(
                #[trigger] blocks[k],
                id,
            ) by {
                assert(is_call_of(before[j], id));
                assert(hold_call(before, id));
                if k < before.len() {
                    assert(before[k] == blocks[k]);
                }
            }
        }
    }
}

proof fn answers_are_noted(pending: Set<Seq<char>>, blocks: Seq<JsonV>, id: Seq<char>)
    ensures
        answers_of(pending, blocks) matches Ok(answers) ==> {
            &&& answers.contains(id) == hold_answer(blocks, id)
            &&& hold_answer(blocks, id) ==> pending.contains(id)
            &&& !hold_call(blocks, id)
            &&& forall|j: int, k: int|
                0 <= j < k < blocks.len() && is_answer_to(#[trigger] blocks[j], id) ==> !is_answer_to(#[trigger] blocks[k], id)
        },
    decreases blocks.len(),
{
    reveal_strlit("tool_use");
    reveal_strlit("tool_result");
    assert("tool_use"@.len() == 8 && "tool_result"@.len() == 11);
    if blocks.len() > 0 {
        let before = blocks.drop_last();
        answers_are_noted(pending, before, id);
        one_more_block(blocks, id);
        if let Ok(answers) = answers_of(pending, blocks) {
            assert forall|j: int, k: int|
                0 <= j < k < blocks.len() && is_answer_to(#[trigger] blocks[j], id) implies !is_answer_to(
                #[trigger] blocks[k],
                id,
            ) by {
                assert(is_answer_to(before[j], id));
                assert(hold_answer(before, id));
                if k < before.len() {
                    assert(before[k] == blocks[k]);
                }
            }
        }
    }
}

proof fn turns_are_noted(messages: Seq<JsonV>, limited: bool, id: Seq<char>)
    ensures
        history_of(messages, limited) matches Ok(h) ==> {
            &&& h.seen.contains(id) <==> exists|i: int| 0 <= i < messages.len() && makes_call(#[trigger] messages[i], id)
            &&& h.pending.contains(id) <==> messages.len() > 0 && makes_call(messages.last(), id)
            &&& forall|i: int|
                0 <= i < messages.len() - 1 && makes_call(#[trigger] messages[i], id) ==> gives_answer(messages[i + 1], id)
            &&& forall|i: int|
                0 <= i < messages.len() && gives_answer(#[trigger] messages[i], id) ==> i > 0 && makes_call(messages[i - 1], id)
            &&& forall|i: int, j: int|
                0 <= i < j < messages.len() && makes_call(#[trigger] messages[i], id) ==> !makes_call(
                    #[trigger] messages[j],
                    id,
                )
            &&& forall|i: int|
                0 <= i < messages.len() && makes_call(#[trigger] messages[i], id) ==> messages[i].text_at("role"@) == Some(
                    "assistant"@,
                ) && id.len() > 0
            &&& forall|i: int|
                0 <= i < messages.len() && gives_answer(#[trigger] messages[i], id) ==> messages[i].text_at("role"@) == Some(
                    "user"@,
                )
        },
    decreases messages.len(),
{
    if messages.len() > 0 {
        let before = messages.drop_last();
        let last = messages.last();
        let end = messages.len() - 1;
        turns_are_noted(before, limited, id);
        assert(forall|i: int| 0 <= i < before.len() ==> #[trigger] before[i] == messages[i]);
        if let Ok(h) = history_of(messages, limited) {
            let g = history_of(before, limited)->Ok_0;
            assert(message_blocks(last) == blocks_in(last));
            assert(messages[end] == last);
            if is_assistant(last) {
                calls_are_noted(g, blocks_in(last), id);
                assert(!g.pending.contains(id));
                assert(!gives_answer(last, id));
            } else {
                answers_are_noted(g.pending, blocks_in(last), id);
                assert(!makes_call(last, id));
                assert(g.pending.contains(id) == gives_answer(last, id));
            }
            if makes_call(last, id) {
                assert(makes_call(messages[end], id));
            }
            if g.seen.contains(id) {
                let i = choose|i: int| 0 <= i < before.len() && makes_call(#[trigger] before[i], id);
                assert(makes_call(messages[i], id));
            }
            if exists|i: int| 0 <= i < messages.len() && makes_call(#[trigger] messages[i], id) {
                let i = choose|i: int| 0 <= i < messages.len() && makes_call(#[trigger] messages[i], id);
                if i < before.len() {
                    assert(makes_call(before[i], id));
                }
            }
            assert forall|i: int| 0 <= i < messages.len() - 1 && makes_call(#[trigger] messages[i], id) implies gives_answer(
                messages[i + 1],
                id,
            ) by {
                assert(makes_call(before[i], id));
                if i + 1 < before.len() {
                    assert(before[i + 1] == messages[i + 1]);
                } else {
                    assert(before.last() == before[i]);
                    assert(g.pending.contains(id));
                }
            }
            assert forall|i: int| 0 <= i < messages.len() && gives_answer(#[trigger] messages[i], id) implies i > 0 && makes_call(
                messages[i - 1],
                id,
            ) by {
                if i < before.len() {
                    assert(gives_answer(before[i], id));
                    assert(before[i - 1] == messages[i - 1]);
                } else {
                    assert(g.pending.contains(id));
                    assert(before.last() == before[before.len() - 1]);
                    assert(messages[i - 1] == before[i - 1]);
                }
            }
            assert forall|i: int, j: int|
                0 <= i < j < messages.len() && makes_call(#[trigger] messages[i], id) implies !makes_call(
                #[trigger] messages[j],
                id,
            ) by {
                assert(makes_call(before[i], id));
                if j < before.len() {
                    assert(before[j] == messages[j]);
                } else {
                    assert(g.seen.contains(id));
                }
            }
            assert forall|i: int| 0 <= i < messages.len() && makes_call(#[trigger] messages[i], id) implies messages[i].text_at(
                "role"@,
            ) == Some("assistant"@) && id.len() > 0 by {
                if i < before.len() {
                    assert(makes_call(before[i], id));
                }
            }
            assert forall|i: int| 0 <= i < messages.len() && gives_answer(#[trigger] messages[i], id) implies messages[i].text_at(
                "role"@,
            ) == Some("user"@) by {
                if i < before.len() {
                    assert(gives_answer(before[i], id));
                }
            }
        }
    }
}

/// In a conversation that is accepted every call is answered in the next turn, every answer is to a call of the turn
/// before, no id is used twice, and calls are the assistant's and answers the user's.
pub proof fn accepted_conversations_are_paired(body: JsonV, limited: bool, id: Seq<char>)
    ensures
        history_fault(body, limited) is None ==> (body.items_at("messages"@) matches Some(messages) && {
            &&& forall|i: int|
                0 <= i < messages.len() && makes_call(#[trigger] messages[i], id) ==> i + 1 < messages.len() && gives_answer(
                    messages[i + 1],
                    id,
                )
            &&& forall|i: int|
                0 <= i < messages.len() && gives_answer(#[trigger] messages[i], id) ==> i > 0 && makes_call(messages[i - 1], id)
            &&& forall|i: int, j: int|
                0 <= i < j < messages.len() && makes_call(#[trigger] messages[i], id) ==> !makes_call(
                    #[trigger] messages[j],
                    id,
                )
            &&& forall|i: int|
                0 <= i < messages.len() && makes_call(#[trigger] messages[i], id) ==> messages[i].text_at("role"@) == Some(
                    "assistant"@,
                ) && id.len() > 0
            &&& forall|i: int|
                0 <= i < messages.len() && gives_answer(#[trigger] messages[i], id) ==> messages[i].text_at("role"@) == Some(
                    "user"@,
                )
        }),
{
    if let Some(messages) = body.items_at("messages"@) {
        turns_are_noted(messages, limited, id);
        if history_fault(body, limited) is None {
            let h = history_of(messages, limited)->Ok_0;
            assert forall|i: int| 0 <= i < messages.len() && makes_call(#[trigger] messages[i], id) implies i + 1
                < messages.len() && gives_answer(messages[i + 1], id) by {
                if i == messages.len() - 1 {
                    assert(messages.last() == messages[i]);
                    assert(h.pending.contains(id));
                }
            }
        }
    }
}

/// A conversation of the two parties without tools is accepted.
pub proof fn plain_conversations_are_accepted(messages: Seq<JsonV>, limited: bool)
    requires
        forall|i: int|
            0 <= i < messages.len() ==> ((#[trigger] messages[i]).text_at("role"@) == Some("user"@) || messages[i].text_at(
                "role"@,
            ) == Some("assistant"@)) && messages[i].text_at("content"@) is Some,
    ensures
        history_of(messages, limited) matches Ok(h) && h.pending.is_empty(),
    decreases messages.len(),
{
    if messages.len() > 0 {
        let before = messages.drop_last();
        assert forall|i: int| 0 <= i < before.len() implies ((#[trigger] before[i]).text_at("role"@) == Some("user"@)
            || before[i].text_at("role"@) == Some("assistant"@)) && before[i].text_at("content"@) is Some by {
            assert(before[i] == messages[i]);
        }
        plain_conversations_are_accepted(before, limited);
        let last = messages[messages.len() - 1];
        let h = history_of(before, limited)->Ok_0;
        assert(message_blocks(last) =~= Seq::empty());
        assert(message_fault(last, limited) is None);
        assert(calls_of(h, Seq::empty()) == Ok::<HistoryV, Seq<char>>(h));
        assert(answers_of(h.pending, Seq::empty()) == Ok::<Set<Seq<char>>, Seq<char>>(Set::empty()));
        assert(h.pending =~= Set::empty());
        assert(history_of(messages, limited) == pairing_of(h, last));
    }
}

} // verus!
