//! What the repair of a history for DeepSeek keeps of it: who said what, what was thought, and every block that needs
//! no repair.
use crate::deepseek_compat::{
    adopted, adopted_blocks, adopted_content, adopted_message, answered, block_text, called_before, is_malformed,
    is_orphan, is_role, lacking_at_head, lacking_results, needs_thinking, normalized, repaired_blocks,
    repaired_message, repaired_messages, replayed_block, replayed_blocks, replayed_message, results_message,
    synthetic_result, with_results, distinct, result_ids, use_ids, OMITTED_ORPHAN_TOOL_RESULT, THINKING_PLACEHOLDER,
    REDACTED_THINKING_PLACEHOLDER,
};
use crate::anthropic_compat_laws::keys_are_distinct;
use crate::deepseek_compat_laws::{content_keeps_role, synthetic_ids};
use crate::deepseek_normal_laws::{other_settings_are_kept, taking_out_keeps_the_rest, well_keyed, values_are_well_keyed};
use crate::json::JsonV;
use crate::json_model::{key_index_is, text_block, typed_block, with_gives};
use crate::text::is_blank;
use vstd::prelude::*;

verus! {

/// Whether a sequence is what is left of another one when some of its items are taken out.
pub open spec fn stands_within<T>(few: Seq<T>, many: Seq<T>) -> bool
    decreases many.len(),
{
    few.len() == 0 || (many.len() > 0 && (stands_within(few, many.drop_last()) || (few.last() == many.last()
        && stands_within(few.drop_last(), many.drop_last()))))
}

proof fn within_itself<T>(all: Seq<T>)
    ensures
        stands_within(all, all),
    decreases all.len(),
{
    if all.len() > 0 {
        within_itself(all.drop_last());
    }
}

proof fn within_more<T>(few: Seq<T>, many: Seq<T>, item: T)
    requires
        stands_within(few, many),
    ensures
        stands_within(few, many.push(item)),
        stands_within(few.push(item), many.push(item)),
{
    assert(many.push(item).drop_last() =~= many);
    assert(few.push(item).drop_last() =~= few);
}

proof fn within_both<T>(a: Seq<T>, b: Seq<T>, c: Seq<T>, d: Seq<T>)
    requires
        stands_within(a, b),
        stands_within(c, d),
    ensures
        stands_within(a + c, b + d),
    decreases d.len(),
{
    if d.len() == 0 {
        assert(a + c =~= a);
        assert(b + d =~= b);
    } else {
        let fewer = d.drop_last();
        assert((b + d).drop_last() =~= b + fewer);
        if stands_within(c, fewer) {
            within_both(a, b, c, fewer);
        } else if c.len() == 0 {
            within_both(a, b, c, fewer);
        } else {
            within_both(a, b, c.drop_last(), fewer);
            assert((a + c).drop_last() =~= a + c.drop_last());
        }
    }
}

proof fn within_within<T>(a: Seq<T>, b: Seq<T>, c: Seq<T>)
    requires
        stands_within(a, b),
        stands_within(b, c),
    ensures
        stands_within(a, c),
    decreases c.len(),
{
    if a.len() > 0 && c.len() > 0 && b.len() > 0 {
        if stands_within(b, c.drop_last()) {
            within_within(a, b, c.drop_last());
        } else if stands_within(a, b.drop_last()) {
            within_within(a, b.drop_last(), c.drop_last());
        } else {
            within_within(a.drop_last(), b.drop_last(), c.drop_last());
        }
    }
}

/// What is picked out of blocks, in order.
pub open spec fn picked(blocks: Seq<JsonV>, pick: spec_fn(JsonV) -> Option<JsonV>) -> Seq<JsonV>
    decreases blocks.len(),
{
    if blocks.len() == 0 {
        Seq::empty()
    } else {
        match pick(blocks.last()) {
            Some(value) => picked(blocks.drop_last(), pick).push(value),
            None => picked(blocks.drop_last(), pick),
        }
    }
}

/// What is picked out of a message; a content that is text counts as one text where texts are picked.
pub open spec fn picked_of(message: JsonV, pick: spec_fn(JsonV) -> Option<JsonV>, texts: bool) -> Seq<JsonV> {
    match message.get("content"@) {
        Some(JsonV::Array(blocks)) => picked(blocks, pick),
        Some(JsonV::Str(text)) => if texts {
            seq![JsonV::Str(text)]
        } else {
            Seq::empty()
        },
        _ => Seq::empty(),
    }
}

/// What is picked out of a history, each with whose it is.
pub open spec fn gathered(messages: Seq<JsonV>, pick: spec_fn(JsonV) -> Option<JsonV>, texts: bool) -> Seq<
    (Option<Seq<char>>, JsonV),
>
    decreases messages.len(),
{
    if messages.len() == 0 {
        Seq::empty()
    } else {
        gathered(messages.drop_last(), pick, texts) + picked_of(messages.last(), pick, texts).map_values(
            |value: JsonV| (messages.last().text_at("role"@), value),
        )
    }
}

/// The texts of text blocks.
pub open spec fn text_pick(block: JsonV) -> Option<JsonV> {
    if block.text_at("type"@) == Some("text"@) {
        match block.text_at("text"@) {
            Some(text) => Some(JsonV::Str(text)),
            None => None,
        }
    } else {
        None
    }
}

/// What was thought, where something was.
pub open spec fn thought_pick(block: JsonV) -> Option<JsonV> {
    if block.text_at("type"@) == Some("thinking"@) {
        match block.text_at("thinking"@) {
            Some(text) => if is_blank(text) {
                None
            } else {
                Some(JsonV::Str(text))
            },
            None => None,
        }
    } else {
        None
    }
}

/// The blocks of one kind.
pub open spec fn kind_pick(block: JsonV, kind: Seq<char>) -> Option<JsonV> {
    if block.text_at("type"@) == Some(kind) {
        Some(block)
    } else {
        None
    }
}

/// Whether a kind of blocks is one that no repair is about.
pub open spec fn is_plain_kind(kind: Seq<char>) -> bool {
    &&& kind != "text"@
    &&& kind != "thinking"@
    &&& kind != "redacted_thinking"@
    &&& kind != "tool_result"@
    &&& kind != "server_tool_use"@
    &&& kind != "web_search_tool_result"@
    &&& kind != "web_fetch_tool_result"@
    &&& kind != "code_execution_tool_result"@
}

/// What the repairs need of a pick so that nothing of it is lost, or, where it is exact, nothing changes.
spec fn is_spared(pick: spec_fn(JsonV) -> Option<JsonV>, texts: bool, exact: bool) -> bool {
    &&& forall|id: Seq<char>| pick(#[trigger] synthetic_result(id)) is None
    &&& forall|text: Seq<char>|
        pick(#[trigger] text_block(text)) == (if texts {
            Some(JsonV::Str(text))
        } else {
            None
        })
    &&& exact ==> !texts
    &&& forall|block: JsonV|
        #[trigger] pick(block) is Some ==> !is_malformed(block) && block.text_at("type"@) != Some("tool_result"@)
    &&& forall|block: JsonV|
        keys_are_distinct(block) && pick(block) is Some ==> pick((#[trigger] replayed_block(block)).0) == pick(block)
    &&& exact ==> forall|block: JsonV|
        keys_are_distinct(block) ==> pick((#[trigger] replayed_block(block)).0) == pick(block)
    &&& exact ==> pick(typed_block("thinking"@, "thinking"@, THINKING_PLACEHOLDER@)) is None
}

spec fn follows<T>(before: Seq<T>, after: Seq<T>, exact: bool) -> bool {
    if exact {
        before == after
    } else {
        stands_within(before, after)
    }
}

proof fn following_itself<T>(all: Seq<T>, exact: bool)
    ensures
        follows(all, all, exact),
{
    within_itself(all);
}

proof fn following_both<T>(a: Seq<T>, b: Seq<T>, c: Seq<T>, d: Seq<T>, exact: bool)
    requires
        follows(a, b, exact),
        follows(c, d, exact),
    ensures
        follows(a + c, b + d, exact),
{
    if !exact {
        within_both(a, b, c, d);
    }
}

proof fn following_on<T>(a: Seq<T>, b: Seq<T>, c: Seq<T>, exact: bool)
    requires
        follows(a, b, exact),
        follows(b, c, exact),
    ensures
        follows(a, c, exact),
{
    if !exact {
        within_within(a, b, c);
    }
}

proof fn mapping_follows(a: Seq<JsonV>, b: Seq<JsonV>, role: Option<Seq<char>>, exact: bool)
    requires
        follows(a, b, exact),
    ensures
        follows(a.map_values(|value: JsonV| (role, value)), b.map_values(|value: JsonV| (role, value)), exact),
    decreases b.len(),
{
    if !exact {
        let x = a.map_values(|value: JsonV| (role, value));
        let y = b.map_values(|value: JsonV| (role, value));
        if a.len() > 0 && b.len() > 0 {
            assert(y.drop_last() =~= b.drop_last().map_values(|value: JsonV| (role, value)));
            if stands_within(a, b.drop_last()) {
                mapping_follows(a, b.drop_last(), role, exact);
            } else {
                mapping_follows(a.drop_last(), b.drop_last(), role, exact);
                assert(x.drop_last() =~= a.drop_last().map_values(|value: JsonV| (role, value)));
            }
        }
    }
}

/// Histories that follow message by message follow as a whole.
proof fn histories_follow(a: Seq<JsonV>, b: Seq<JsonV>, pick: spec_fn(JsonV) -> Option<JsonV>, texts: bool, exact: bool)
    requires
        a.len() == b.len(),
        forall|i: int|
            0 <= i < a.len() ==> (#[trigger] a[i]).text_at("role"@) == b[i].text_at("role"@) && follows(
                picked_of(a[i], pick, texts),
                picked_of(b[i], pick, texts),
                exact,
            ),
    ensures
        follows(gathered(a, pick, texts), gathered(b, pick, texts), exact),
    decreases a.len(),
{
    if a.len() > 0 {
        let x = a.drop_last();
        let y = b.drop_last();
        assert forall|i: int| 0 <= i < x.len() implies (#[trigger] x[i]).text_at("role"@) == y[i].text_at("role"@) && follows(
            picked_of(x[i], pick, texts),
            picked_of(y[i], pick, texts),
            exact,
        ) by {
            assert(a[i] == x[i] && b[i] == y[i]);
        }
        histories_follow(x, y, pick, texts, exact);
        assert(a[a.len() - 1].text_at("role"@) == b[b.len() - 1].text_at("role"@));
        let role = a.last().text_at("role"@);
        mapping_follows(picked_of(a.last(), pick, texts), picked_of(b.last(), pick, texts), role, exact);
        following_both(
            gathered(x, pick, texts),
            gathered(y, pick, texts),
            picked_of(a.last(), pick, texts).map_values(|value: JsonV| (a.last().text_at("role"@), value)),
            picked_of(b.last(), pick, texts).map_values(|value: JsonV| (b.last().text_at("role"@), value)),
            exact,
        );
    } else {
        following_itself(gathered(a, pick, texts), exact);
    }
}

proof fn gathered_of_two(a: Seq<JsonV>, b: Seq<JsonV>, pick: spec_fn(JsonV) -> Option<JsonV>, texts: bool)
    ensures
        gathered(a + b, pick, texts) == gathered(a, pick, texts) + gathered(b, pick, texts),
    decreases b.len(),
{
    if b.len() == 0 {
        assert(a + b =~= a);
        assert(gathered(a, pick, texts) + gathered(b, pick, texts) =~= gathered(a, pick, texts));
    } else {
        gathered_of_two(a, b.drop_last(), pick, texts);
        assert((a + b).drop_last() =~= a + b.drop_last());
        assert((a + b).last() == b.last());
        let last = picked_of(b.last(), pick, texts).map_values(|value: JsonV| (b.last().text_at("role"@), value));
        assert(gathered(a, pick, texts) + gathered(b.drop_last(), pick, texts) + last =~= gathered(a, pick, texts) + (
        gathered(b.drop_last(), pick, texts) + last));
    }
}

proof fn picked_of_two(a: Seq<JsonV>, b: Seq<JsonV>, pick: spec_fn(JsonV) -> Option<JsonV>)
    ensures
        picked(a + b, pick) == picked(a, pick) + picked(b, pick),
    decreases b.len(),
{
    if b.len() == 0 {
        assert(a + b =~= a);
        assert(picked(a, pick) + picked(b, pick) =~= picked(a, pick));
    } else {
        picked_of_two(a, b.drop_last(), pick);
        assert((a + b).drop_last() =~= a + b.drop_last());
        if let Some(value) = pick(b.last()) {
            assert((picked(a, pick) + picked(b.drop_last(), pick)).push(value) =~= picked(a, pick) + picked(
                b.drop_last(),
                pick,
            ).push(value));
        }
    }
}

proof fn replayed_blocks_follow(blocks: Seq<JsonV>, pick: spec_fn(JsonV) -> Option<JsonV>, texts: bool, exact: bool)
    requires
        is_spared(pick, texts, exact),
        forall|i: int| 0 <= i < blocks.len() ==> keys_are_distinct(#[trigger] blocks[i]),
    ensures
        follows(picked(blocks, pick), picked(blocks.map_values(|block: JsonV| replayed_block(block).0), pick), exact),
    decreases blocks.len(),
{
    let now = blocks.map_values(|block: JsonV| replayed_block(block).0);
    if blocks.len() > 0 {
        let before = blocks.drop_last();
        assert forall|i: int| 0 <= i < before.len() implies keys_are_distinct(#[trigger] before[i]) by {
            assert(before[i] == blocks[i]);
        }
        assert(keys_are_distinct(blocks[blocks.len() - 1]));
        replayed_blocks_follow(blocks.drop_last(), pick, texts, exact);
        assert(now.drop_last() =~= blocks.drop_last().map_values(|block: JsonV| replayed_block(block).0));
        assert(now.last() == replayed_block(blocks.last()).0);
        let a = picked(blocks.drop_last(), pick);
        let b = picked(now.drop_last(), pick);
        if !exact {
            if let Some(value) = pick(now.last()) {
                within_more(a, b, value);
            }
        }
    } else {
        following_itself(picked(blocks, pick), exact);
    }
}

proof fn replayed_message_follows(message: JsonV, pick: spec_fn(JsonV) -> Option<JsonV>, texts: bool, exact: bool)
    requires
        is_spared(pick, texts, exact),
        well_keyed(message),
    ensures
        replayed_message(message).text_at("role"@) == message.text_at("role"@),
        follows(picked_of(message, pick, texts), picked_of(replayed_message(message), pick, texts), exact),
{
    following_itself(picked_of(message, pick, texts), exact);
    if needs_thinking(message) {
        let blocks = message.items_at("content"@).unwrap();
        let kept = blocks.map_values(|block: JsonV| replayed_block(block).0);
        let now = replayed_blocks(blocks);
        values_are_well_keyed(message, "content"@);
        assert forall|i: int| 0 <= i < blocks.len() implies keys_are_distinct(#[trigger] blocks[i]) by {
            values_are_well_keyed(blocks[i], ""@);
        }
        replayed_blocks_follow(blocks, pick, texts, exact);
        content_keeps_role(message, JsonV::Array(now));
        if now != kept {
            let one = seq![typed_block("thinking"@, "thinking"@, THINKING_PLACEHOLDER@)];
            picked_of_two(one, kept, pick);
            assert(one.drop_last() =~= Seq::empty());
            if exact {
                assert(one.last() == typed_block("thinking"@, "thinking"@, THINKING_PLACEHOLDER@));
                assert(picked(one.drop_last(), pick) =~= Seq::empty());
                assert(picked(one, pick) =~= Seq::empty());
                assert(picked(one, pick) + picked(kept, pick) =~= picked(kept, pick));
            } else {
                within_both(Seq::empty(), picked(one, pick), picked(blocks, pick), picked(kept, pick));
                assert(Seq::empty() + picked(blocks, pick) =~= picked(blocks, pick));
            }
        }
    }
}

proof fn repaired_blocks_follow(blocks: Seq<JsonV>, pick: spec_fn(JsonV) -> Option<JsonV>, texts: bool, exact: bool)
    requires
        is_spared(pick, texts, exact),
    ensures
        follows(picked(blocks, pick), picked(repaired_blocks(blocks), pick), exact),
    decreases blocks.len(),
{
    if blocks.len() > 0 {
        let before = blocks.drop_last();
        let block = blocks.last();
        repaired_blocks_follow(before, pick, texts, exact);
        let done = repaired_blocks(before);
        let now = repaired_blocks(blocks);
        let a = picked(before, pick);
        let b = picked(done, pick);
        if now != done {
            assert(now.drop_last() =~= done);
            if !exact {
                if let Some(value) = pick(now.last()) {
                    within_more(a, b, value);
                }
            }
        }
        assert(is_malformed(block) ==> pick(block) is None);
        if is_malformed(block) {
            if let Some(text) = block_text(block) {
                assert(now.last() == text_block(text));
            }
        }
    } else {
        following_itself(picked(blocks, pick), exact);
    }
}

proof fn repaired_message_follows(
    message: JsonV,
    changed: bool,
    pick: spec_fn(JsonV) -> Option<JsonV>,
    texts: bool,
    exact: bool,
)
    requires
        is_spared(pick, texts, exact),
    ensures
        repaired_message(message, changed).text_at("role"@) == message.text_at("role"@),
        follows(picked_of(message, pick, texts), picked_of(repaired_message(message, changed), pick, texts), exact),
{
    following_itself(picked_of(message, pick, texts), exact);
    if let Some(blocks) = message.items_at("content"@) {
        let kept = repaired_blocks(blocks);
        repaired_blocks_follow(blocks, pick, texts, exact);
        content_keeps_role(message, JsonV::Array(kept));
        let filler = seq![text_block(OMITTED_ORPHAN_TOOL_RESULT@)];
        content_keeps_role(message, JsonV::Array(filler));
        filler_follows(blocks, kept, pick, texts, exact);
    }
}

/// A text in place of nothing.
proof fn filler_follows(
    blocks: Seq<JsonV>,
    kept: Seq<JsonV>,
    pick: spec_fn(JsonV) -> Option<JsonV>,
    texts: bool,
    exact: bool,
)
    requires
        is_spared(pick, texts, exact),
        follows(picked(blocks, pick), picked(kept, pick), exact),
    ensures
        kept.len() == 0 ==> follows(picked(blocks, pick), picked(seq![text_block(OMITTED_ORPHAN_TOOL_RESULT@)], pick), exact),
{
    let filler = seq![text_block(OMITTED_ORPHAN_TOOL_RESULT@)];
    assert(filler.drop_last() =~= Seq::empty());
    assert(picked(filler.drop_last(), pick) =~= Seq::empty());
    assert(filler.last() == text_block(OMITTED_ORPHAN_TOOL_RESULT@));
    if kept.len() == 0 && !exact {
        assert(picked(kept, pick).len() == 0);
    }
}

proof fn results_are_not_picked(results: Seq<JsonV>, pick: spec_fn(JsonV) -> Option<JsonV>)
    requires
        forall|i: int| 0 <= i < results.len() ==> pick(#[trigger] results[i]) is None,
    ensures
        picked(results, pick) == Seq::<JsonV>::empty(),
    decreases results.len(),
{
    if results.len() > 0 {
        let fewer = results.drop_last();
        assert forall|i: int| 0 <= i < fewer.len() implies pick(#[trigger] fewer[i]) is None by {
            assert(fewer[i] == results[i]);
        }
        results_are_not_picked(fewer, pick);
        assert(pick(results[results.len() - 1]) is None);
    }
}

spec fn is_synthetic(block: JsonV) -> bool {
    exists|id: Seq<char>| block == #[trigger] synthetic_result(id)
}

proof fn lacking_results_are_synthetic(order: Seq<Seq<char>>, calls: Seq<Seq<char>>, answers: Seq<Seq<char>>)
    ensures
        forall|i: int|
            0 <= i < lacking_results(order, calls, answers).len() ==> is_synthetic(
                #[trigger] lacking_results(order, calls, answers)[i],
            ),
    decreases order.len(),
{
    if order.len() > 0 {
        lacking_results_are_synthetic(order.drop_last(), calls, answers);
        let before = lacking_results(order.drop_last(), calls, answers);
        let all = lacking_results(order, calls, answers);
        assert forall|i: int| 0 <= i < all.len() implies is_synthetic(#[trigger] all[i]) by {
            if i < before.len() {
                assert(all[i] == before[i]);
            } else {
                assert(all[i] == synthetic_result(order.last()));
            }
        }
    }
}

/// A message that is given the results which were missing has them in front, and then what it held: the blocks in
/// their order, or its text as one block.
pub proof fn results_stand_in_front(message: JsonV, results: Seq<JsonV>)
    requires
        message is Object,
    ensures
        ({
            let given = with_results(message, results);
            &&& forall|key: Seq<char>| key != "content"@ ==> #[trigger] given.get(key) == message.get(key)
            &&& given.items_at("content"@) matches Some(all) && {
                &&& results.len() <= all.len()
                &&& all.take(results.len() as int) == results
                &&& message.items_at("content"@) matches Some(blocks) ==> all.skip(results.len() as int) == blocks
                &&& message.text_at("content"@) matches Some(text) ==> {
                    &&& all.len() == results.len() + 1
                    &&& all.last().text_at("type"@) == Some("text"@)
                    &&& all.last().text_at("text"@) == Some(text)
                }
            }
        }),
{
    let all = match message.get("content"@) {
        Some(JsonV::Array(blocks)) => results + blocks,
        Some(JsonV::Str(text)) => results.push(text_block(text)),
        _ => results,
    };
    with_gives(message, "content"@, JsonV::Array(all));
    assert(all.take(results.len() as int) =~= results);
    if let Some(blocks) = message.items_at("content"@) {
        assert(all.skip(results.len() as int) =~= blocks);
    }
    if let Some(text) = message.text_at("content"@) {
        texts_tell(text);
    }
}

proof fn texts_tell(text: Seq<char>)
    ensures
        text_block(text).text_at("type"@) == Some("text"@),
        text_block(text).text_at("text"@) == Some(text),
{
    reveal_strlit("type");
    reveal_strlit("text");
    assert("type"@[1] == 'y' && "text"@[1] == 'e');
    let entries = text_block(text)->Object_0;
    assert(entries.len() == 2);
    assert(entries[0] == ("type"@, JsonV::Str("text"@)));
    assert(entries[1] == ("text"@, JsonV::Str(text)));
    key_index_is(entries, "type"@, 0);
    key_index_is(entries, "text"@, 1);
}

proof fn given_results_follow(message: JsonV, results: Seq<JsonV>, pick: spec_fn(JsonV) -> Option<JsonV>, texts: bool, exact: bool)
    requires
        is_spared(pick, texts, exact),
        message is Object,
        forall|i: int| 0 <= i < results.len() ==> pick(#[trigger] results[i]) is None,
    ensures
        with_results(message, results).text_at("role"@) == message.text_at("role"@),
        picked_of(with_results(message, results), pick, texts) == picked_of(message, pick, texts),
{
    results_are_not_picked(results, pick);
    match message.get("content"@) {
        Some(JsonV::Array(blocks)) => {
            content_keeps_role(message, JsonV::Array(results + blocks));
            picked_of_two(results, blocks, pick);
            assert(Seq::<JsonV>::empty() + picked(blocks, pick) =~= picked(blocks, pick));
        },
        Some(JsonV::Str(text)) => {
            let all = results.push(text_block(text));
            content_keeps_role(message, JsonV::Array(all));
            assert(all.drop_last() =~= results);
            assert(all.last() == text_block(text));
            assert(picked(all, pick) =~= picked_of(message, pick, texts));
        },
        _ => {
            content_keeps_role(message, JsonV::Array(results));
        },
    }
}

proof fn answers_follow(messages: Seq<JsonV>, pick: spec_fn(JsonV) -> Option<JsonV>, texts: bool, exact: bool)
    requires
        is_spared(pick, texts, exact),
    ensures
        gathered(answered(messages), pick, texts) == gathered(messages, pick, texts),
    decreases messages.len(),
{
    if messages.len() > 0 {
        let missing = lacking_at_head(messages);
        let rest = messages.drop_first();
        let head = seq![messages[0]];
        assert(head + rest =~= messages);
        gathered_of_two(head, rest, pick, texts);
        assert forall|i: int| 0 <= i < missing.len() implies pick(#[trigger] missing[i]) is None by {
            let answers = if messages.len() > 1 && is_role(messages[1], "user"@) {
                result_ids(messages[1])
            } else {
                Seq::empty()
            };
            let calls = use_ids(messages[0]);
            lacking_results_are_synthetic(distinct(calls), calls, answers);
            assert(is_synthetic(missing[i]));
            let id = choose|id: Seq<char>| missing[i] == #[trigger] synthetic_result(id);
            assert(pick(synthetic_result(id)) is None);
        }
        if missing.len() == 0 {
            answers_follow(rest, pick, texts, exact);
            gathered_of_two(head, answered(rest), pick, texts);
        } else if rest.len() > 0 && is_role(rest[0], "user"@) {
            let given = rest.update(0, with_results(rest[0], missing));
            answers_follow(given, pick, texts, exact);
            gathered_of_two(head, answered(given), pick, texts);
            given_results_follow(rest[0], missing, pick, texts, exact);
            histories_follow(given, rest, pick, texts, true);
        } else {
            let made = results_message(missing);
            let two = seq![messages[0], made];
            answers_follow(rest, pick, texts, exact);
            gathered_of_two(two, answered(rest), pick, texts);
            assert(two.drop_last() =~= head);
            results_are_not_picked(missing, pick);
            reveal_strlit("role");
            reveal_strlit("content");
            assert("role"@.len() == 4 && "content"@.len() == 7);
            let entries = made->Object_0;
            assert(entries.len() == 2);
            assert(entries[1] == ("content"@, JsonV::Array(missing)));
            key_index_is(entries, "content"@, 1);
            assert(gathered(two, pick, texts) =~= gathered(head, pick, texts));
        }
    }
}

proof fn adopted_blocks_follow(
    blocks: Seq<JsonV>,
    ids: Seq<Seq<char>>,
    pick: spec_fn(JsonV) -> Option<JsonV>,
    texts: bool,
    exact: bool,
)
    requires
        is_spared(pick, texts, exact),
    ensures
        follows(picked(blocks, pick), picked(adopted_blocks(blocks, ids), pick), exact),
    decreases blocks.len(),
{
    if blocks.len() > 0 {
        let before = blocks.drop_last();
        let block = blocks.last();
        adopted_blocks_follow(before, ids, pick, texts, exact);
        let done = adopted_blocks(before, ids);
        let now = adopted_blocks(blocks, ids);
        let a = picked(before, pick);
        let b = picked(done, pick);
        if now != done {
            assert(now.drop_last() =~= done);
            if !exact {
                if let Some(value) = pick(now.last()) {
                    within_more(a, b, value);
                }
            }
        }
        assert(is_orphan(block, ids) ==> pick(block) is None);
        if is_orphan(block, ids) {
            if let Some(text) = block_text(block) {
                assert(now.last() == text_block(text));
            }
        }
    } else {
        following_itself(picked(blocks, pick), exact);
    }
}

proof fn adopted_message_follows(
    done: Seq<JsonV>,
    message: JsonV,
    pick: spec_fn(JsonV) -> Option<JsonV>,
    texts: bool,
    exact: bool,
)
    requires
        is_spared(pick, texts, exact),
    ensures
        adopted_message(done, message).text_at("role"@) == message.text_at("role"@),
        follows(picked_of(message, pick, texts), picked_of(adopted_message(done, message), pick, texts), exact),
{
    following_itself(picked_of(message, pick, texts), exact);
    if is_role(message, "user"@) {
        if let Some(blocks) = message.items_at("content"@) {
            let ids = called_before(done);
            let kept = adopted_blocks(blocks, ids);
            adopted_blocks_follow(blocks, ids, pick, texts, exact);
            content_keeps_role(message, JsonV::Array(adopted_content(blocks, ids)));
            filler_follows(blocks, kept, pick, texts, exact);
        }
    }
}

proof fn adoptions_follow(messages: Seq<JsonV>, pick: spec_fn(JsonV) -> Option<JsonV>, texts: bool, exact: bool)
    requires
        is_spared(pick, texts, exact),
    ensures
        adopted(messages).len() == messages.len(),
        follows(gathered(messages, pick, texts), gathered(adopted(messages), pick, texts), exact),
    decreases messages.len(),
{
    if messages.len() > 0 {
        let before = messages.drop_last();
        adoptions_follow(before, pick, texts, exact);
        let done = adopted(before);
        let last = messages.last();
        let now = adopted_message(done, last);
        adopted_message_follows(done, last, pick, texts, exact);
        let all = adopted(messages);
        assert(all.drop_last() =~= done);
        assert(all.last() == now);
        let role = last.text_at("role"@);
        mapping_follows(picked_of(last, pick, texts), picked_of(now, pick, texts), role, exact);
        following_both(
            gathered(before, pick, texts),
            gathered(done, pick, texts),
            picked_of(last, pick, texts).map_values(|value: JsonV| (messages.last().text_at("role"@), value)),
            picked_of(now, pick, texts).map_values(|value: JsonV| (all.last().text_at("role"@), value)),
            exact,
        );
    } else {
        following_itself(gathered(messages, pick, texts), exact);
    }
}

/// What a repaired history has of the one that came.
proof fn repairs_follow(messages: Seq<JsonV>, pick: spec_fn(JsonV) -> Option<JsonV>, texts: bool, exact: bool)
    requires
        is_spared(pick, texts, exact),
        forall|i: int| 0 <= i < messages.len() ==> well_keyed(#[trigger] messages[i]),
    ensures
        follows(
            gathered(messages, pick, texts),
            gathered(
                adopted(answered(repaired_messages(messages.map_values(|message: JsonV| replayed_message(message))))),
                pick,
                texts,
            ),
            exact,
        ),
{
    let replayed = messages.map_values(|message: JsonV| replayed_message(message));
    assert forall|i: int| 0 <= i < messages.len() implies (#[trigger] messages[i]).text_at("role"@) == replayed[i].text_at(
        "role"@,
    ) && follows(picked_of(messages[i], pick, texts), picked_of(replayed[i], pick, texts), exact) by {
        replayed_message_follows(messages[i], pick, texts, exact);
    }
    histories_follow(messages, replayed, pick, texts, exact);
    let repaired = repaired_messages(replayed);
    assert forall|i: int| 0 <= i < replayed.len() implies (#[trigger] replayed[i]).text_at("role"@) == repaired[i].text_at(
        "role"@,
    ) && follows(picked_of(replayed[i], pick, texts), picked_of(repaired[i], pick, texts), exact) by {
        repaired_message_follows(
            replayed[i],
            crate::deepseek_compat::any_malformed(replayed.take(i)),
            pick,
            texts,
            exact,
        );
    }
    histories_follow(replayed, repaired, pick, texts, exact);
    following_on(gathered(messages, pick, texts), gathered(replayed, pick, texts), gathered(repaired, pick, texts), exact);
    answers_follow(repaired, pick, texts, exact);
    adoptions_follow(answered(repaired), pick, texts, exact);
    following_on(
        gathered(messages, pick, texts),
        gathered(repaired, pick, texts),
        gathered(adopted(answered(repaired)), pick, texts),
        exact,
    );
}

proof fn kinds_differ()
    ensures
        "text"@.len() == 4,
        "thinking"@.len() == 8,
        "redacted_thinking"@.len() == 17,
        "tool_result"@.len() == 11,
        "server_tool_use"@.len() == 15,
        "web_search_tool_result"@.len() == 22,
        "web_fetch_tool_result"@.len() == 21,
        "code_execution_tool_result"@.len() == 26,
        "type"@.len() == 4,
        "type"@ != "text"@,
        "signature"@.len() == 9,
{
    reveal_strlit("text");
    reveal_strlit("thinking");
    reveal_strlit("redacted_thinking");
    reveal_strlit("tool_result");
    reveal_strlit("server_tool_use");
    reveal_strlit("web_search_tool_result");
    reveal_strlit("web_fetch_tool_result");
    reveal_strlit("code_execution_tool_result");
    reveal_strlit("type");
    reveal_strlit("signature");
    assert("type"@[1] == 'y' && "text"@[1] == 'e');
}

proof fn thinking_blocks_tell(text: Seq<char>)
    ensures
        typed_block("thinking"@, "thinking"@, text).text_at("type"@) == Some("thinking"@),
        typed_block("thinking"@, "thinking"@, text).text_at("thinking"@) == Some(text),
{
    kinds_differ();
    let entries = typed_block("thinking"@, "thinking"@, text)->Object_0;
    assert(entries.len() == 2);
    assert(entries[0] == ("type"@, JsonV::Str("thinking"@)));
    assert(entries[1] == ("thinking"@, JsonV::Str(text)));
    key_index_is(entries, "type"@, 0);
    key_index_is(entries, "thinking"@, 1);
}

/// A thinking block that is sent back is thinking, and what was thought stays.
proof fn replayed_kinds(block: JsonV)
    requires
        keys_are_distinct(block),
    ensures
        block.text_at("type"@) == Some("thinking"@) || block.text_at("type"@) == Some("redacted_thinking"@) ==> replayed_block(
            block,
        ).0.text_at("type"@) == Some("thinking"@),
        block.text_at("type"@) != Some("thinking"@) && block.text_at("type"@) != Some("redacted_thinking"@) ==> replayed_block(
            block,
        ).0 == block,
        thought_pick(block) is Some ==> thought_pick(replayed_block(block).0) == thought_pick(block),
{
    kinds_differ();
    thinking_blocks_tell(REDACTED_THINKING_PLACEHOLDER@);
    if block.text_at("type"@) == Some("thinking"@) {
        let unsigned = block.without("signature"@);
        taking_out_keeps_the_rest(block, "signature"@, "type"@);
        taking_out_keeps_the_rest(block, "signature"@, "thinking"@);
        with_gives(unsigned, "thinking"@, JsonV::Str(THINKING_PLACEHOLDER@));
    }
}

proof fn texts_are_spared()
    ensures
        is_spared(|block: JsonV| text_pick(block), true, false),
{
    kinds_differ();
    let pick = |block: JsonV| text_pick(block);
    assert forall|id: Seq<char>| pick(#[trigger] synthetic_result(id)) is None by {
        synthetic_ids(id);
    }
    assert forall|text: Seq<char>| pick(#[trigger] text_block(text)) == Some(JsonV::Str(text)) by {
        texts_tell(text);
    }
    assert forall|block: JsonV| keys_are_distinct(block) && pick(block) is Some implies pick(
        (#[trigger] replayed_block(block)).0,
    ) == pick(block) by {
        replayed_kinds(block);
    }
}

proof fn thoughts_are_spared()
    ensures
        is_spared(|block: JsonV| thought_pick(block), false, false),
{
    kinds_differ();
    let pick = |block: JsonV| thought_pick(block);
    assert forall|id: Seq<char>| pick(#[trigger] synthetic_result(id)) is None by {
        synthetic_ids(id);
    }
    assert forall|text: Seq<char>| pick(#[trigger] text_block(text)) is None by {
        texts_tell(text);
    }
    assert forall|block: JsonV| keys_are_distinct(block) && pick(block) is Some implies pick(
        (#[trigger] replayed_block(block)).0,
    ) == pick(block) by {
        replayed_kinds(block);
    }
}

proof fn plain_kinds_are_spared(kind: Seq<char>)
    requires
        is_plain_kind(kind),
    ensures
        is_spared(|block: JsonV| kind_pick(block, kind), false, true),
{
    kinds_differ();
    let pick = |block: JsonV| kind_pick(block, kind);
    assert forall|id: Seq<char>| pick(#[trigger] synthetic_result(id)) is None by {
        synthetic_ids(id);
    }
    assert forall|text: Seq<char>| pick(#[trigger] text_block(text)) is None by {
        texts_tell(text);
    }
    assert forall|block: JsonV| keys_are_distinct(block) implies pick((#[trigger] replayed_block(block)).0) == pick(block) by {
        replayed_kinds(block);
    }
    thinking_blocks_tell(THINKING_PLACEHOLDER@);
}

/// A request that was repaired holds everything that was said, by whom it was said and in the order in which it was:
/// no text of a message is lost, be it the whole content or a block of it. What was thought stays, and so do the
/// blocks of every kind that no repair is about, such as the calls of tools and images, all of them and no others.
pub proof fn nothing_that_was_said_is_lost(body: JsonV, model: Seq<char>, rules: Seq<Seq<char>>, kind: Seq<char>)
    requires
        well_keyed(body),
    ensures
        body.items_at("messages"@) matches Some(came) ==> (normalized(body, model, rules).0.items_at("messages"@) matches Some(
            out,
        ) && {
            let texts = |block: JsonV| text_pick(block);
            let thoughts = |block: JsonV| thought_pick(block);
            let blocks = |block: JsonV| kind_pick(block, kind);
            &&& stands_within(gathered(came, texts, true), gathered(out, texts, true))
            &&& stands_within(gathered(came, thoughts, false), gathered(out, thoughts, false))
            &&& is_plain_kind(kind) ==> gathered(out, blocks, false) == gathered(came, blocks, false)
        }),
{
    if let Some(came) = body.items_at("messages"@) {
        other_settings_are_kept(body, model, rules, ""@);
        values_are_well_keyed(body, "messages"@);
        texts_are_spared();
        thoughts_are_spared();
        repairs_follow(came, |block: JsonV| text_pick(block), true, false);
        repairs_follow(came, |block: JsonV| thought_pick(block), false, false);
        if is_plain_kind(kind) {
            plain_kinds_are_spared(kind);
            repairs_follow(came, |block: JsonV| kind_pick(block, kind), false, true);
        }
    }
}

} // verus!
