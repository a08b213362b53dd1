//! What holds of the pairing of tool calls and results.
use crate::deepseek_compat::{
    adopted, adopted_blocks, adopted_content, adopted_message, answered, block_ids, block_text, called_before, distinct,
    has_orphans, holds_orphan, is_orphan, is_role, lacking_at_head, lacking_results, lacks_answers,
    message_holds_orphan, missing_results, occurrences, result_ids, results_message, shortfall, synthetic_result,
    use_ids, with_results,
};
use crate::json::JsonV;
use crate::json_model::{and_gives, text_block, with_gives, with_same_value};
use vstd::prelude::*;

verus! {

/// A history in which every call has its result is left as it is.
pub proof fn answered_histories_are_kept(messages: Seq<JsonV>)
    ensures
        !lacks_answers(messages) ==> answered(messages) == messages,
    decreases messages.len(),
{
    if messages.len() > 0 {
        answered_histories_are_kept(messages.drop_first());
        assert(seq![messages[0]] + messages.drop_first() =~= messages);
    }
}

proof fn blocks_without_orphans(blocks: Seq<JsonV>, ids: Seq<Seq<char>>)
    requires
        !holds_orphan(blocks, ids),
    ensures
        adopted_blocks(blocks, ids) == blocks,
    decreases blocks.len(),
{
    if blocks.len() > 0 {
        assert(blocks[blocks.len() - 1] == blocks.last());
        assert(forall|i: int| 0 <= i < blocks.len() - 1 ==> blocks.drop_last()[i] == #[trigger] blocks[i]);
        assert(!holds_orphan(blocks.drop_last(), ids));
        blocks_without_orphans(blocks.drop_last(), ids);
        assert(blocks.drop_last().push(blocks.last()) =~= blocks);
    }
}

/// A history in which every result has its call is left as it is.
pub proof fn called_histories_are_kept(messages: Seq<JsonV>)
    ensures
        !has_orphans(messages) ==> adopted(messages) == messages,
    decreases messages.len(),
{
    if messages.len() > 0 {
        called_histories_are_kept(messages.drop_last());
        if !has_orphans(messages) {
            let done = messages.drop_last();
            let last = messages.last();
            if is_role(last, "user"@) {
                if let Some(blocks) = last.items_at("content"@) {
                    blocks_without_orphans(blocks, called_before(done));
                    with_same_value(last, "content"@);
                }
            }
            assert(done.push(last) =~= messages);
        }
    }
}

proof fn text_block_type(text: Seq<char>)
    ensures
        text_block(text).text_at("type"@) == Some("text"@),
        "text"@ != "tool_result"@,
        "text"@ != "tool_use"@,
{
    reveal_strlit("text");
    reveal_strlit("tool_result");
    reveal_strlit("tool_use");
    assert("text"@.len() == 4);
    let one = JsonV::object().and("type"@, JsonV::Str("text"@));
    and_gives(JsonV::object(), "type"@, JsonV::Str("text"@), "type"@);
    and_gives(one, "text"@, JsonV::Str(text), "type"@);
}

proof fn adopted_blocks_hold_none(blocks: Seq<JsonV>, ids: Seq<Seq<char>>)
    ensures
        !holds_orphan(adopted_blocks(blocks, ids), ids),
    decreases blocks.len(),
{
    if blocks.len() > 0 {
        adopted_blocks_hold_none(blocks.drop_last(), ids);
        let before = adopted_blocks(blocks.drop_last(), ids);
        let after = adopted_blocks(blocks, ids);
        if let Some(text) = block_text(blocks.last()) {
            text_block_type(text);
        }
        assert forall|i: int| 0 <= i < after.len() implies !is_orphan(#[trigger] after[i], ids) by {
            if i < before.len() {
                assert(after[i] == before[i]);
            }
        }
    }
}

proof fn adopted_content_holds_none(blocks: Seq<JsonV>, ids: Seq<Seq<char>>)
    ensures
        !holds_orphan(adopted_content(blocks, ids), ids),
{
    adopted_blocks_hold_none(blocks, ids);
    text_block_type(crate::deepseek_compat::OMITTED_ORPHAN_TOOL_RESULT@);
}

/// A message's role stays when its content changes.
pub proof fn content_keeps_role(message: JsonV, content: JsonV)
    requires
        message is Object,
    ensures
        message.with("content"@, content).text_at("role"@) == message.text_at("role"@),
        message.with("content"@, content).get("content"@) == Some(content),
{
    reveal_strlit("content");
    reveal_strlit("role");
    assert("content"@.len() == 7);
    with_gives(message, "content"@, content);
}

proof fn adopted_message_holds_none(done: Seq<JsonV>, message: JsonV)
    ensures
        !message_holds_orphan(done, adopted_message(done, message)),
{
    if is_role(message, "user"@) {
        if let Some(blocks) = message.items_at("content"@) {
            let ids = called_before(done);
            adopted_content_holds_none(blocks, ids);
            content_keeps_role(message, JsonV::Array(adopted_content(blocks, ids)));
        }
    }
}

/// After the repair, no result is left that answers nothing in the turn before it.
pub proof fn no_result_is_left_alone(messages: Seq<JsonV>)
    ensures
        !has_orphans(adopted(messages)),
    decreases messages.len(),
{
    if messages.len() > 0 {
        let done = adopted(messages.drop_last());
        no_result_is_left_alone(messages.drop_last());
        called_histories_are_kept(done);
        adopted_message_holds_none(done, messages.last());
        assert(adopted(messages).drop_last() =~= done);
    }
}

proof fn ids_of_two(a: Seq<JsonV>, b: Seq<JsonV>, kind: Seq<char>, key: Seq<char>)
    ensures
        block_ids(a + b, kind, key) == block_ids(a, kind, key) + block_ids(b, kind, key),
    decreases b.len(),
{
    if b.len() == 0 {
        assert(a + b =~= a);
        assert(block_ids(a, kind, key) + Seq::<Seq<char>>::empty() =~= block_ids(a, kind, key));
    } else {
        ids_of_two(a, b.drop_last(), kind, key);
        assert((a + b).drop_last() =~= a + b.drop_last());
        assert((a + b).last() == b.last());
        let before = block_ids(b.drop_last(), kind, key);
        if let Some(id) = b.last().text_at(key) {
            assert(block_ids(a, kind, key) + before.push(id) =~= (block_ids(a, kind, key) + before).push(id));
        }
    }
}

proof fn occurrences_of_two(a: Seq<Seq<char>>, b: Seq<Seq<char>>, id: Seq<char>)
    ensures
        occurrences(a + b, id) == occurrences(a, id) + occurrences(b, id),
    decreases b.len(),
{
    if b.len() == 0 {
        assert(a + b =~= a);
    } else {
        occurrences_of_two(a, b.drop_last(), id);
        assert((a + b).drop_last() =~= a + b.drop_last());
        assert((a + b).last() == b.last());
    }
}

/// What a synthetic result answers.
pub proof fn synthetic_ids(id: Seq<char>)
    ensures
        synthetic_result(id).text_at("type"@) == Some("tool_result"@),
        synthetic_result(id).text_at("tool_use_id"@) == Some(id),
{
    reveal_strlit("type");
    reveal_strlit("tool_use_id");
    assert("type"@.len() == 4 && "tool_use_id"@.len() == 11);
    let one = JsonV::object().and("type"@, JsonV::Str("tool_result"@));
    let two = one.and("tool_use_id"@, JsonV::Str(id));
    let three = two.and("is_error"@, JsonV::Bool(true));
    let last = JsonV::Str(crate::deepseek_compat::ORPHAN_TOOL_RESULT_PLACEHOLDER@);
    and_gives(JsonV::object(), "type"@, JsonV::Str("tool_result"@), "type"@);
    and_gives(JsonV::object(), "type"@, JsonV::Str("tool_result"@), "tool_use_id"@);
    and_gives(one, "tool_use_id"@, JsonV::Str(id), "type"@);
    and_gives(one, "tool_use_id"@, JsonV::Str(id), "tool_use_id"@);
    and_gives(two, "is_error"@, JsonV::Bool(true), "type"@);
    and_gives(two, "is_error"@, JsonV::Bool(true), "tool_use_id"@);
    and_gives(three, "content"@, last, "type"@);
    and_gives(three, "content"@, last, "tool_use_id"@);
}

/// The ids of equal synthetic results.
proof fn repeated_ids(id: Seq<char>, n: nat, wanted: Seq<char>)
    ensures
        ({
            let blocks = Seq::new(n, |i: int| synthetic_result(id));
            occurrences(block_ids(blocks, "tool_result"@, "tool_use_id"@), wanted) == if id == wanted {
                n
            } else {
                0
            }
        }),
    decreases n,
{
    let blocks = Seq::new(n, |i: int| synthetic_result(id));
    if n > 0 {
        let fewer = Seq::new((n - 1) as nat, |i: int| synthetic_result(id));
        repeated_ids(id, (n - 1) as nat, wanted);
        assert(blocks.drop_last() =~= fewer);
        assert(blocks.last() == synthetic_result(id));
        synthetic_ids(id);
        let ids = block_ids(fewer, "tool_result"@, "tool_use_id"@);
        assert(ids.push(id).drop_last() =~= ids);
    }
}

proof fn lacking_ids(order: Seq<Seq<char>>, calls: Seq<Seq<char>>, answers: Seq<Seq<char>>, wanted: Seq<char>)
    requires
        order.no_duplicates(),
    ensures
        occurrences(block_ids(lacking_results(order, calls, answers), "tool_result"@, "tool_use_id"@), wanted) == if order.contains(
            wanted,
        ) {
            shortfall(calls, answers, wanted)
        } else {
            0
        },
    decreases order.len(),
{
    if order.len() > 0 {
        let fewer = order.drop_last();
        let id = order.last();
        let n = shortfall(calls, answers, id);
        lacking_ids(fewer, calls, answers, wanted);
        repeated_ids(id, n, wanted);
        let more = Seq::new(n, |i: int| synthetic_result(id));
        assert(lacking_results(order, calls, answers) =~= lacking_results(fewer, calls, answers) + more) by {
            assert(Seq::new(shortfall(calls, answers, order.last()), |i: int| synthetic_result(order.last())) =~= more);
        }
        ids_of_two(lacking_results(fewer, calls, answers), more, "tool_result"@, "tool_use_id"@);
        occurrences_of_two(
            block_ids(lacking_results(fewer, calls, answers), "tool_result"@, "tool_use_id"@),
            block_ids(more, "tool_result"@, "tool_use_id"@),
            wanted,
        );
        if fewer.contains(wanted) {
            let k = choose|k: int| 0 <= k < fewer.len() && fewer[k] == wanted;
            assert(order[k] == wanted);
            assert(order[order.len() - 1] != order[k]);
        }
        if order.contains(wanted) && wanted != id {
            let k = choose|k: int| 0 <= k < order.len() && order[k] == wanted;
            assert(fewer[k] == wanted);
        }
        assert(order[order.len() - 1] == id);
    }
}

/// Each id stands once among the distinct ones.
pub proof fn distinct_facts(ids: Seq<Seq<char>>)
    ensures
        distinct(ids).no_duplicates(),
        forall|x: Seq<char>| distinct(ids).contains(x) ==> occurrences(ids, x) > 0,
        forall|x: Seq<char>| occurrences(ids, x) > 0 ==> distinct(ids).contains(x),
    decreases ids.len(),
{
    if ids.len() > 0 {
        distinct_facts(ids.drop_last());
        let before = distinct(ids.drop_last());
        let after = distinct(ids);
        assert forall|x: Seq<char>| occurrences(ids, x) > 0 implies after.contains(x) by {
            if before.contains(x) {
                let k = choose|k: int| 0 <= k < before.len() && before[k] == x;
                assert(after[k] == x);
            } else {
                assert(x == ids.last());
                assert(after[before.len() as int] == x);
            }
        }
        assert forall|x: Seq<char>| after.contains(x) implies occurrences(ids, x) > 0 by {
            let k = choose|k: int| 0 <= k < after.len() && after[k] == x;
            if k < before.len() {
                assert(before[k] == x);
                assert(before.contains(x));
            }
        }
    }
}

/// Where nothing is short, nothing lacks.
pub proof fn nothing_lacks(order: Seq<Seq<char>>, calls: Seq<Seq<char>>, answers: Seq<Seq<char>>)
    requires
        forall|k: int| 0 <= k < order.len() ==> shortfall(calls, answers, #[trigger] order[k]) == 0,
    ensures
        lacking_results(order, calls, answers).len() == 0,
    decreases order.len(),
{
    if order.len() > 0 {
        assert(forall|k: int| 0 <= k < order.len() - 1 ==> order.drop_last()[k] == #[trigger] order[k]);
        nothing_lacks(order.drop_last(), calls, answers);
        assert(order[order.len() - 1] == order.last());
    }
}

/// Calls lack nothing in answers that hold what they lacked.
proof fn filled_up(calls: Seq<Seq<char>>, answers: Seq<Seq<char>>, more: Seq<Seq<char>>)
    requires
        forall|id: Seq<char>|
            occurrences(more, id) >= occurrences(answers, id) + if distinct(calls).contains(id) {
                shortfall(calls, answers, id)
            } else {
                0
            },
    ensures
        missing_results(calls, more).len() == 0,
{
    nothing_lacks(distinct(calls), calls, more);
}

proof fn missing_ids(calls: Seq<Seq<char>>, answers: Seq<Seq<char>>, id: Seq<char>)
    ensures
        occurrences(block_ids(missing_results(calls, answers), "tool_result"@, "tool_use_id"@), id) == if distinct(
            calls,
        ).contains(id) {
            shortfall(calls, answers, id)
        } else {
            0
        },
{
    distinct_facts(calls);
    lacking_ids(distinct(calls), calls, answers, id);
}

/// A user message that was given the missing results answers every call.
proof fn results_fill_up(calls: Seq<Seq<char>>, message: JsonV)
    requires
        is_role(message, "user"@),
    ensures
        ({
            let missing = missing_results(calls, result_ids(message));
            let filled = with_results(message, missing);
            &&& is_role(filled, "user"@)
            &&& missing_results(calls, result_ids(filled)).len() == 0
        }),
{
    let answers = result_ids(message);
    let missing = missing_results(calls, answers);
    let filled = with_results(message, missing);
    let given = block_ids(missing, "tool_result"@, "tool_use_id"@);
    let content = match message.get("content"@) {
        Some(JsonV::Array(blocks)) => missing + blocks,
        Some(JsonV::Str(text)) => missing.push(text_block(text)),
        _ => missing,
    };
    assert(filled == message.with("content"@, JsonV::Array(content)));
    content_keeps_role(message, JsonV::Array(content));
    let more = result_ids(filled);
    assert(more == block_ids(content, "tool_result"@, "tool_use_id"@));
    match message.get("content"@) {
        Some(JsonV::Array(blocks)) => {
            ids_of_two(missing, blocks, "tool_result"@, "tool_use_id"@);
            assert(more == given + answers);
        },
        Some(JsonV::Str(text)) => {
            text_block_type(text);
            assert(content.drop_last() =~= missing);
            assert(more == given + answers) by {
                assert(given + Seq::<Seq<char>>::empty() =~= given);
            }
        },
        _ => {
            assert(given + Seq::<Seq<char>>::empty() =~= given);
            assert(more == given + answers);
        },
    }
    assert forall|id: Seq<char>|
        occurrences(more, id) >= occurrences(answers, id) + if distinct(calls).contains(id) {
            shortfall(calls, answers, id)
        } else {
            0
        } by {
        missing_ids(calls, answers, id);
        occurrences_of_two(given, answers, id);
    }
    filled_up(calls, answers, more);
}

proof fn results_message_facts(calls: Seq<Seq<char>>)
    ensures
        ({
            let filled = results_message(missing_results(calls, Seq::empty()));
            &&& is_role(filled, "user"@)
            &&& !is_role(filled, "assistant"@)
            &&& missing_results(calls, result_ids(filled)).len() == 0
        }),
{
    reveal_strlit("role");
    reveal_strlit("content");
    reveal_strlit("user");
    reveal_strlit("assistant");
    assert("role"@.len() == 4 && "content"@.len() == 7 && "user"@.len() == 4 && "assistant"@.len() == 9);
    let none = Seq::<Seq<char>>::empty();
    let missing = missing_results(calls, none);
    let one = JsonV::object().and("role"@, JsonV::Str("user"@));
    and_gives(JsonV::object(), "role"@, JsonV::Str("user"@), "role"@);
    and_gives(JsonV::object(), "role"@, JsonV::Str("user"@), "content"@);
    and_gives(one, "content"@, JsonV::Array(missing), "role"@);
    and_gives(one, "content"@, JsonV::Array(missing), "content"@);
    let more = result_ids(results_message(missing));
    assert forall|id: Seq<char>|
        occurrences(more, id) >= occurrences(none, id) + if distinct(calls).contains(id) {
            shortfall(calls, none, id)
        } else {
            0
        } by {
        missing_ids(calls, none, id);
    }
    filled_up(calls, none, more);
}

proof fn answered_keeps_first(messages: Seq<JsonV>)
    ensures
        messages.len() > 0 ==> answered(messages).len() > 0 && answered(messages)[0] == messages[0],
        messages.len() == 0 ==> answered(messages).len() == 0,
{
}

proof fn lacking_depends_on_two(a: Seq<JsonV>, b: Seq<JsonV>)
    requires
        a.len() > 0,
        b.len() > 0,
        a[0] == b[0],
        a.len() > 1 <==> b.len() > 1,
        a.len() > 1 ==> a[1] == b[1],
    ensures
        lacking_at_head(a) == lacking_at_head(b),
{
}

/// After the repair, no call is left without its results.
pub proof fn no_call_is_left_open(messages: Seq<JsonV>)
    ensures
        !lacks_answers(answered(messages)),
    decreases messages.len(),
{
    if messages.len() > 0 {
        let missing = lacking_at_head(messages);
        let rest = messages.drop_first();
        let out = answered(messages);
        if missing.len() == 0 {
            no_call_is_left_open(rest);
            answered_keeps_first(rest);
            assert(out.drop_first() =~= answered(rest));
            assert(out[0] == messages[0]);
            assert(out.len() > 1 ==> out[1] == answered(rest)[0]);
            lacking_depends_on_two(out, messages);
            assert(!lacks_answers(out));
        } else if rest.len() > 0 && is_role(rest[0], "user"@) {
            let filled = rest.update(0, with_results(rest[0], missing));
            no_call_is_left_open(filled);
            answered_keeps_first(filled);
            assert(out.drop_first() =~= answered(filled));
            assert(rest[0] == messages[1]);
            results_fill_up(use_ids(messages[0]), rest[0]);
            assert(out[0] == messages[0]);
            assert(out[1] == answered(filled)[0]);
            assert(lacking_at_head(out).len() == 0);
            assert(!lacks_answers(out));
        } else {
            no_call_is_left_open(rest);
            results_message_facts(use_ids(messages[0]));
            let tail = seq![results_message(missing)] + answered(rest);
            assert(out.drop_first() =~= tail);
            assert(tail.drop_first() =~= answered(rest));
            assert(out[1] == results_message(missing));
            assert(tail[0] == results_message(missing));
            assert(rest.len() > 0 ==> rest[0] == messages[1]);
            assert(missing == missing_results(use_ids(messages[0]), Seq::empty()));
            assert(lacking_at_head(tail).len() == 0);
            assert(!lacks_answers(tail));
            assert(lacking_at_head(out).len() == 0);
        }
    }
}

/// An id stands among ids exactly where it occurs.
pub proof fn contains_is_occurrence(ids: Seq<Seq<char>>, id: Seq<char>)
    ensures
        ids.contains(id) == (occurrences(ids, id) > 0),
    decreases ids.len(),
{
    if ids.len() > 0 {
        contains_is_occurrence(ids.drop_last(), id);
        if ids.contains(id) {
            let k = choose|k: int| 0 <= k < ids.len() && ids[k] == id;
            if k < ids.len() - 1 {
                assert(ids.drop_last()[k] == id);
            }
        }
        if ids.drop_last().contains(id) {
            let k = choose|k: int| 0 <= k < ids.len() - 1 && ids.drop_last()[k] == id;
            assert(ids[k] == id);
        }
        if ids.last() == id {
            assert(ids[ids.len() - 1] == id);
        }
    }
}

proof fn kept_ids(blocks: Seq<JsonV>, ids: Seq<Seq<char>>, id: Seq<char>)
    requires
        ids.contains(id),
    ensures
        occurrences(block_ids(adopted_blocks(blocks, ids), "tool_result"@, "tool_use_id"@), id) == occurrences(
            block_ids(blocks, "tool_result"@, "tool_use_id"@),
            id,
        ),
    decreases blocks.len(),
{
    if blocks.len() > 0 {
        kept_ids(blocks.drop_last(), ids, id);
        let before = adopted_blocks(blocks.drop_last(), ids);
        let after = adopted_blocks(blocks, ids);
        let was = block_ids(blocks.drop_last(), "tool_result"@, "tool_use_id"@);
        let last = blocks.last();
        if after.len() > before.len() {
            assert(after.drop_last() =~= before);
        }
        if let Some(text) = block_text(last) {
            text_block_type(text);
        }
        if let Some(other) = last.text_at("tool_use_id"@) {
            assert(was.push(other).drop_last() =~= was);
            let kept = block_ids(before, "tool_result"@, "tool_use_id"@);
            assert(kept.push(other).drop_last() =~= kept);
        }
    }
}

proof fn kept_content_ids(blocks: Seq<JsonV>, ids: Seq<Seq<char>>, id: Seq<char>)
    requires
        ids.contains(id),
    ensures
        occurrences(block_ids(adopted_content(blocks, ids), "tool_result"@, "tool_use_id"@), id) == occurrences(
            block_ids(blocks, "tool_result"@, "tool_use_id"@),
            id,
        ),
{
    kept_ids(blocks, ids, id);
    let note = text_block(crate::deepseek_compat::OMITTED_ORPHAN_TOOL_RESULT@);
    text_block_type(crate::deepseek_compat::OMITTED_ORPHAN_TOOL_RESULT@);
    assert(seq![note].drop_last() =~= Seq::<JsonV>::empty());
    assert(seq![note].last() == note);
    assert(block_ids(Seq::<JsonV>::empty(), "tool_result"@, "tool_use_id"@) == Seq::<Seq<char>>::empty());
    assert(block_ids(seq![note], "tool_result"@, "tool_use_id"@) == Seq::<Seq<char>>::empty());
    assert(adopted_blocks(blocks, ids).len() == 0 ==> adopted_blocks(blocks, ids) =~= Seq::<JsonV>::empty());
}

proof fn roles_differ()
    ensures
        "user"@ != "assistant"@,
{
    reveal_strlit("user");
    reveal_strlit("assistant");
    assert("user"@.len() == 4 && "assistant"@.len() == 9);
}

proof fn adopted_message_role(done: Seq<JsonV>, message: JsonV)
    ensures
        adopted_message(done, message).text_at("role"@) == message.text_at("role"@),
        is_role(message, "assistant"@) ==> adopted_message(done, message) == message,
{
    roles_differ();
    if is_role(message, "user"@) {
        if let Some(blocks) = message.items_at("content"@) {
            content_keeps_role(message, JsonV::Array(adopted_content(blocks, called_before(done))));
        }
    }
}

proof fn adopted_step(messages: Seq<JsonV>, i: int)
    requires
        0 <= i < messages.len(),
    ensures
        adopted(messages).len() == messages.len(),
        adopted(messages).take(i) == adopted(messages.take(i)),
        adopted(messages)[i] == adopted_message(adopted(messages.take(i)), messages[i]),
    decreases messages.len(),
{
    let fewer = messages.drop_last();
    adopted_length(fewer);
    if i == messages.len() - 1 {
        assert(messages.take(i) =~= fewer);
        assert(adopted(messages).take(i) =~= adopted(fewer));
    } else {
        adopted_step(fewer, i);
        assert(fewer.take(i) =~= messages.take(i));
        assert(adopted(messages).take(i) =~= adopted(fewer).take(i));
    }
}

proof fn adopted_length(messages: Seq<JsonV>)
    ensures
        adopted(messages).len() == messages.len(),
    decreases messages.len(),
{
    if messages.len() > 0 {
        adopted_length(messages.drop_last());
    }
}

/// A history has no open call exactly where no turn of it has one.
pub proof fn open_calls(messages: Seq<JsonV>)
    ensures
        !lacks_answers(messages) <==> forall|i: int|
            0 <= i < messages.len() ==> lacking_at_head(#[trigger] messages.skip(i)).len() == 0,
    decreases messages.len(),
{
    if messages.len() > 0 {
        let rest = messages.drop_first();
        open_calls(rest);
        assert(messages.skip(0) =~= messages);
        assert forall|i: int| 0 <= i < rest.len() implies #[trigger] rest.skip(i) == messages.skip(i + 1) by {
            assert(rest.skip(i) =~= messages.skip(i + 1));
        }
        if !lacks_answers(messages) {
            assert forall|i: int| 0 <= i < messages.len() implies lacking_at_head(#[trigger] messages.skip(i)).len() == 0 by {
                if i > 0 {
                    assert(rest.skip(i - 1) == messages.skip(i));
                }
            }
        }
    }
}

/// Taking out results without a call leaves every call its results.
pub proof fn calls_stay_answered(messages: Seq<JsonV>)
    requires
        !lacks_answers(messages),
    ensures
        !lacks_answers(adopted(messages)),
{
    let out = adopted(messages);
    adopted_length(messages);
    open_calls(messages);
    open_calls(out);
    assert forall|i: int| 0 <= i < out.len() implies lacking_at_head(#[trigger] out.skip(i)).len() == 0 by {
        let before = messages.skip(i);
        let after = out.skip(i);
        assert(lacking_at_head(before).len() == 0);
        assert(before[0] == messages[i]);
        assert(after[0] == out[i]);
        adopted_step(messages, i);
        adopted_message_role(adopted(messages.take(i)), messages[i]);
        if is_role(messages[i], "assistant"@) {
            let calls = use_ids(messages[i]);
            assert(use_ids(after[0]) == calls);
            distinct_facts(calls);
            if i + 1 < messages.len() {
                assert(before[1] == messages[i + 1]);
                assert(after[1] == out[i + 1]);
                adopted_step(messages, i + 1);
                let done = adopted(messages.take(i + 1));
                assert(out.take(i + 1).last() == out[i]);
                assert(done.last() == out[i]);
                adopted_message_role(done, messages[i + 1]);
                assert(called_before(done) == calls);
                let was = if is_role(messages[i + 1], "user"@) {
                    result_ids(messages[i + 1])
                } else {
                    Seq::empty()
                };
                let now = if is_role(out[i + 1], "user"@) {
                    result_ids(out[i + 1])
                } else {
                    Seq::empty()
                };
                assert forall|k: int| 0 <= k < distinct(calls).len() implies shortfall(
                    calls,
                    now,
                    #[trigger] distinct(calls)[k],
                ) == 0 by {
                    let id = distinct(calls)[k];
                    assert(distinct(calls).contains(id));
                    contains_is_occurrence(calls, id);
                    if is_role(messages[i + 1], "user"@) {
                        if let Some(blocks) = messages[i + 1].items_at("content"@) {
                            kept_content_ids(blocks, calls, id);
                            content_keeps_role(messages[i + 1], JsonV::Array(adopted_content(blocks, calls)));
                        }
                    }
                    missing_ids(calls, was, id);
                    let none = missing_results(calls, was);
                    assert(none.len() == 0);
                    assert(block_ids(none, "tool_result"@, "tool_use_id"@) =~= Seq::<Seq<char>>::empty());
                    assert(shortfall(calls, was, id) == 0);
                    assert(occurrences(now, id) == occurrences(was, id));
                }
                nothing_lacks(distinct(calls), calls, now);
            } else {
                assert(after.len() == 1);
                lacking_depends_on_two(before, after);
            }
        }
    }
}

/// After the repair of a history, calls and results are paired, and a second repair changes nothing.
pub proof fn repaired_histories_are_paired(messages: Seq<JsonV>)
    ensures
        !lacks_answers(adopted(answered(messages))),
        !has_orphans(adopted(answered(messages))),
        adopted(answered(adopted(answered(messages)))) == adopted(answered(messages)),
{
    let once = adopted(answered(messages));
    no_call_is_left_open(messages);
    calls_stay_answered(answered(messages));
    no_result_is_left_alone(answered(messages));
    answered_histories_are_kept(once);
    called_histories_are_kept(once);
}

} // verus!
