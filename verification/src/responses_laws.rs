//! What requests and responses keep when they change from one protocol to the other.
use crate::anthropic_compat::is_object_at;
use crate::deepseek_compat::item_texts;
use crate::json::{JsonV, NumberV};
use crate::json_model::{and_gives, json_parse, key_index_is, rendered, text_block, with_gives};
use crate::openai_responses::{
    and_opt, any_tool_call, blocks_of_output, blocks_of_response, call_arguments, call_item, calls_check, choice_of,
    count_at, flushed, function_of, functions_of, items_of_blocks, items_of_message, items_of_messages, message_of,
    not_null, or_null, output_item, output_limit, output_texts, prompt_of, response_check, responses_request, said,
    spaced, stop_reason_of, text_of_output, tool_call, tools_of, ItemsV,
};
use crate::text::{has_part, joined, stands_at};
use crate::tool_schema::{arguments_check, QuotientTest};
use vstd::prelude::*;
use vstd::utf8::encode_utf8;

verus! {

/// Whose each character of a text is.
pub open spec fn letters(role: JsonV, text: Seq<char>) -> Seq<(JsonV, char)> {
    text.map_values(|c: char| (role, c))
}

/// What the text blocks of a message say, character by character.
pub open spec fn letters_of_blocks(blocks: Seq<JsonV>, role: JsonV) -> Seq<(JsonV, char)>
    decreases blocks.len(),
{
    if blocks.len() == 0 {
        Seq::empty()
    } else {
        letters_of_blocks(blocks.drop_last(), role) + (if blocks.last().text_at("type"@) == Some("text"@) {
            match blocks.last().text_at("text"@) {
                Some(text) => letters(role, text),
                None => Seq::empty(),
            }
        } else {
            Seq::empty()
        })
    }
}

/// What a conversation says, character by character, and who says it.
pub open spec fn letters_of_messages(messages: Seq<JsonV>) -> Seq<(JsonV, char)>
    decreases messages.len(),
{
    if messages.len() == 0 {
        Seq::empty()
    } else {
        let message = messages.last();
        let role = match message.get("role"@) {
            Some(value) => value,
            None => JsonV::Null,
        };
        letters_of_messages(messages.drop_last()) + (match message.get("content"@) {
            Some(JsonV::Str(text)) => letters(role, text),
            Some(JsonV::Array(blocks)) => letters_of_blocks(blocks, role),
            _ => Seq::empty(),
        })
    }
}

/// What the items of a request say: those without a type, which are messages.
pub open spec fn letters_of_items(items: Seq<JsonV>) -> Seq<(JsonV, char)>
    decreases items.len(),
{
    if items.len() == 0 {
        Seq::empty()
    } else {
        letters_of_items(items.drop_last()) + (match (
            items.last().get("type"@),
            items.last().get("role"@),
            items.last().text_at("content"@),
        ) {
            (None, Some(role), Some(text)) => letters(role, text),
            _ => Seq::empty(),
        })
    }
}

proof fn item_words_differ()
    ensures
        "role"@ != "content"@,
        "role"@ != "type"@,
        "content"@ != "type"@,
        "type"@ != "call_id"@,
        "type"@ != "name"@,
        "type"@ != "arguments"@,
        "type"@ != "output"@,
        "call_id"@ != "name"@,
        "call_id"@ != "arguments"@,
        "call_id"@ != "output"@,
        "name"@ != "arguments"@,
        "function_call"@ != "function_call_output"@,
        "text"@ != "tool_use"@,
        "text"@ != "tool_result"@,
        "tool_use"@ != "tool_result"@,
        "type"@ != "text"@,
        "type"@ != "id"@,
        "type"@ != "input"@,
        "id"@ != "name"@,
        "id"@ != "input"@,
        "name"@ != "input"@,
{
    reveal_strlit("role");
    reveal_strlit("content");
    reveal_strlit("type");
    reveal_strlit("call_id");
    reveal_strlit("name");
    reveal_strlit("arguments");
    reveal_strlit("output");
    reveal_strlit("function_call");
    reveal_strlit("function_call_output");
    reveal_strlit("text");
    reveal_strlit("tool_use");
    reveal_strlit("tool_result");
    reveal_strlit("id");
    reveal_strlit("input");
    assert("role"@.len() == 4 && "type"@.len() == 4 && "name"@.len() == 4 && "text"@.len() == 4);
    assert("role"@[0] == 'r' && "type"@[0] == 't' && "name"@[0] == 'n' && "type"@[1] == 'y' && "text"@[1] == 'e');
    assert("content"@.len() == 7 && "call_id"@.len() == 7 && "content"@[1] == 'o' && "call_id"@[1] == 'a');
    assert("arguments"@.len() == 9 && "output"@.len() == 6 && "function_call"@.len() == 13 && "function_call_output"@.len()
        == 20);
    assert("tool_use"@.len() == 8 && "tool_result"@.len() == 11 && "id"@.len() == 2 && "input"@.len() == 5);
}

proof fn said_tells(role: JsonV, text: Seq<char>)
    ensures
        said(role, text).get("type"@) is None,
        said(role, text).get("role"@) == Some(role),
        said(role, text).text_at("content"@) == Some(text),
{
    item_words_differ();
    let entries = said(role, text)->Object_0;
    assert(entries.len() == 2);
    assert(entries[0] == ("role"@, role));
    assert(entries[1] == ("content"@, JsonV::Str(text)));
    key_index_is(entries, "role"@, 0);
    key_index_is(entries, "content"@, 1);
    key_index_is(entries, "type"@, 2);
}

proof fn calls_tell(block: JsonV)
    ensures
        call_item(block).text_at("type"@) == Some("function_call"@),
        call_item(block).get("call_id"@) == Some(or_null(block.get("id"@))),
        call_item(block).get("name"@) == Some(or_null(block.get("name"@))),
        block.get("input"@) matches Some(input) ==> call_item(block).text_at("arguments"@) == Some(
            spaced(rendered(input)).out,
        ),
{
    item_words_differ();
    let entries = call_item(block)->Object_0;
    assert(entries.len() == 4);
    assert(entries[0] == ("type"@, JsonV::Str("function_call"@)));
    assert(entries[1].0 == "call_id"@ && entries[2].0 == "name"@ && entries[3].0 == "arguments"@);
    key_index_is(entries, "type"@, 0);
    key_index_is(entries, "call_id"@, 1);
    key_index_is(entries, "name"@, 2);
    key_index_is(entries, "arguments"@, 3);
}

proof fn outputs_tell(block: JsonV)
    ensures
        output_item(block).text_at("type"@) == Some("function_call_output"@),
        output_item(block).get("call_id"@) == Some(or_null(block.get("tool_use_id"@))),
        block.text_at("content"@) matches Some(text) ==> output_item(block).text_at("output"@) == Some(text),
        block.items_at("content"@) matches Some(items) ==> output_item(block).text_at("output"@) == Some(
            joined(item_texts(items), ""@),
        ),
{
    item_words_differ();
    let entries = output_item(block)->Object_0;
    assert(entries.len() == 3);
    assert(entries[0] == ("type"@, JsonV::Str("function_call_output"@)));
    assert(entries[1].0 == "call_id"@ && entries[2].0 == "output"@);
    key_index_is(entries, "type"@, 0);
    key_index_is(entries, "call_id"@, 1);
    key_index_is(entries, "output"@, 2);
}

proof fn joined_grows(parts: Seq<Seq<char>>, part: Seq<char>)
    ensures
        joined(parts.push(part), ""@) == joined(parts, ""@) + part,
{
    reveal_strlit("");
    assert(parts.push(part).drop_last() =~= parts);
    if parts.len() == 0 {
        assert(joined(parts, ""@) + part =~= part);
    } else {
        assert(joined(parts, ""@) + ""@ + part =~= joined(parts, ""@) + part);
    }
}

proof fn letters_of_two(role: JsonV, a: Seq<char>, b: Seq<char>)
    ensures
        letters(role, a + b) == letters(role, a) + letters(role, b),
{
    assert(letters(role, a + b) =~= letters(role, a) + letters(role, b));
}

proof fn letters_of_more(items: Seq<JsonV>, item: JsonV)
    ensures
        letters_of_items(items.push(item)) == letters_of_items(items) + (match (
            item.get("type"@),
            item.get("role"@),
            item.text_at("content"@),
        ) {
            (None, Some(role), Some(text)) => letters(role, text),
            _ => Seq::empty(),
        }),
{
    assert(items.push(item).drop_last() =~= items);
}

/// What the items so far and the texts that wait say.
spec fn letters_so_far(s: ItemsV, role: JsonV) -> Seq<(JsonV, char)> {
    letters_of_items(s.items) + letters(role, joined(s.waiting, ""@))
}

proof fn flushing_says_the_same(s: ItemsV, role: JsonV)
    ensures
        letters_of_items(flushed(s, role).items) == letters_so_far(s, role),
        letters_so_far(flushed(s, role), role) == letters_so_far(s, role),
{
    if s.waiting.len() == 0 {
        assert(letters(role, joined(s.waiting, ""@)) =~= Seq::empty());
        assert(letters_of_items(s.items) + Seq::<(JsonV, char)>::empty() =~= letters_of_items(s.items));
    } else {
        let text = joined(s.waiting, ""@);
        said_tells(role, text);
        letters_of_more(s.items, said(role, text));
        let none = Seq::<Seq<char>>::empty();
        assert(letters(role, joined(none, ""@)) =~= Seq::empty());
        assert(letters_so_far(s, role) + Seq::<(JsonV, char)>::empty() =~= letters_so_far(s, role));
    }
}

proof fn blocks_say_the_same(blocks: Seq<JsonV>, role: JsonV)
    ensures
        letters_so_far(items_of_blocks(blocks, role), role) == letters_of_blocks(blocks, role),
    decreases blocks.len(),
{
    item_words_differ();
    if blocks.len() == 0 {
        assert(letters(role, joined(Seq::<Seq<char>>::empty(), ""@)) =~= Seq::empty());
        assert(letters_so_far(items_of_blocks(blocks, role), role) =~= Seq::empty());
    } else {
        let before = blocks.drop_last();
        let block = blocks.last();
        blocks_say_the_same(before, role);
        let s = items_of_blocks(before, role);
        let kind = block.text_at("type"@);
        let all = letters_of_blocks(before, role);
        if kind == Some("text"@) {
            let text = match block.text_at("text"@) {
                Some(t) => t,
                None => ""@,
            };
            reveal_strlit("");
            joined_grows(s.waiting, text);
            letters_of_two(role, joined(s.waiting, ""@), text);
            assert(letters_of_items(s.items) + (letters(role, joined(s.waiting, ""@)) + letters(role, text)) =~= all
                + letters(role, text));
            if block.text_at("text"@) is None {
                assert(letters(role, ""@) =~= Seq::empty());
            }
        } else if kind == Some("tool_use"@) || kind == Some("tool_result"@) {
            let f = flushed(s, role);
            flushing_says_the_same(s, role);
            let item = if kind == Some("tool_use"@) {
                call_item(block)
            } else {
                output_item(block)
            };
            calls_tell(block);
            outputs_tell(block);
            letters_of_more(f.items, item);
            assert(letters_of_items(f.items.push(item)) =~= letters_of_items(f.items));
            assert(all + Seq::<(JsonV, char)>::empty() =~= all);
        } else {
            assert(all + Seq::<(JsonV, char)>::empty() =~= all);
        }
    }
}

proof fn letters_of_item_lists(a: Seq<JsonV>, b: Seq<JsonV>)
    ensures
        letters_of_items(a + b) == letters_of_items(a) + letters_of_items(b),
    decreases b.len(),
{
    if b.len() == 0 {
        assert(a + b =~= a);
        assert(letters_of_items(a) + letters_of_items(b) =~= letters_of_items(a));
    } else {
        letters_of_item_lists(a, b.drop_last());
        assert((a + b).drop_last() =~= a + b.drop_last());
        assert(letters_of_items(a + b) =~= letters_of_items(a) + letters_of_items(b));
    }
}

proof fn messages_say_the_same(messages: Seq<JsonV>)
    ensures
        letters_of_items(items_of_messages(messages)) == letters_of_messages(messages),
    decreases messages.len(),
{
    if messages.len() > 0 {
        let message = messages.last();
        let role = or_null(message.get("role"@));
        messages_say_the_same(messages.drop_last());
        letters_of_item_lists(items_of_messages(messages.drop_last()), items_of_message(message));
        match message.get("content"@) {
            Some(JsonV::Str(text)) => {
                said_tells(role, text);
                letters_of_more(Seq::empty(), said(role, text));
                assert(Seq::<JsonV>::empty().push(said(role, text)) =~= seq![said(role, text)]);
                assert(letters_of_items(Seq::empty()) + letters(role, text) =~= letters(role, text));
            },
            Some(JsonV::Array(blocks)) => {
                blocks_say_the_same(blocks, role);
                flushing_says_the_same(items_of_blocks(blocks, role), role);
            },
            _ => {},
        }
    }
}

/// The items of one type.
pub open spec fn of_type(items: Seq<JsonV>, kind: Seq<char>) -> Seq<JsonV> {
    items.filter(|item: JsonV| item.text_at("type"@) == Some(kind))
}

/// The blocks of one type in a conversation.
pub open spec fn blocks_of_type(messages: Seq<JsonV>, kind: Seq<char>) -> Seq<JsonV>
    decreases messages.len(),
{
    if messages.len() == 0 {
        Seq::empty()
    } else {
        blocks_of_type(messages.drop_last(), kind) + (match messages.last().items_at("content"@) {
            Some(blocks) => of_type(blocks, kind),
            None => Seq::empty(),
        })
    }
}

/// Whether an item is the call of a tool that a block makes.
pub open spec fn is_call_of(item: JsonV, block: JsonV) -> bool {
    &&& block.get("id"@) matches Some(id) ==> item.get("call_id"@) == Some(id)
    &&& block.get("name"@) matches Some(name) ==> item.get("name"@) == Some(name)
    &&& block.get("input"@) matches Some(input) ==> item.text_at("arguments"@) == Some(spaced(rendered(input)).out)
}

/// Whether an item is the answer to a call that a block gives.
pub open spec fn is_output_of(item: JsonV, block: JsonV) -> bool {
    &&& block.get("tool_use_id"@) matches Some(id) ==> item.get("call_id"@) == Some(id)
    &&& block.text_at("content"@) matches Some(text) ==> item.text_at("output"@) == Some(text)
    &&& block.items_at("content"@) matches Some(parts) ==> forall|i: int|
        0 <= i < parts.len() && (#[trigger] parts[i]).text_at("text"@) is Some ==> (item.text_at("output"@) matches Some(all)
            && has_part(all, parts[i].text_at("text"@).unwrap()))
}

/// Whether items are the calls, or the answers, of blocks, one by one.
pub open spec fn are_made_of(items: Seq<JsonV>, blocks: Seq<JsonV>, calls: bool) -> bool {
    items.len() == blocks.len() && forall|i: int|
        0 <= i < items.len() ==> if calls {
            is_call_of(#[trigger] items[i], blocks[i])
        } else {
            is_output_of(items[i], blocks[i])
        }
}

proof fn typed_push(items: Seq<JsonV>, item: JsonV, kind: Seq<char>)
    ensures
        of_type(items.push(item), kind) == (if item.text_at("type"@) == Some(kind) {
            of_type(items, kind).push(item)
        } else {
            of_type(items, kind)
        }),
{
    reveal(Seq::filter);
    assert(items.push(item).drop_last() =~= items);
}

proof fn typed_of_two(a: Seq<JsonV>, b: Seq<JsonV>, kind: Seq<char>)
    ensures
        of_type(a + b, kind) == of_type(a, kind) + of_type(b, kind),
    decreases b.len(),
{
    reveal(Seq::filter);
    if b.len() == 0 {
        assert(a + b =~= a);
        assert(of_type(a, kind) + of_type(b, kind) =~= of_type(a, kind));
    } else {
        typed_of_two(a, b.drop_last(), kind);
        assert((a + b).drop_last() =~= a + b.drop_last());
        assert(of_type(a + b, kind) =~= of_type(a, kind) + of_type(b, kind));
    }
}

proof fn made_of_two(a: Seq<JsonV>, b: Seq<JsonV>, c: Seq<JsonV>, d: Seq<JsonV>, calls: bool)
    requires
        are_made_of(a, b, calls),
        are_made_of(c, d, calls),
    ensures
        are_made_of(a + c, b + d, calls),
{
    assert forall|i: int| 0 <= i < (a + c).len() implies if calls {
        is_call_of(#[trigger] (a + c)[i], (b + d)[i])
    } else {
        is_output_of((a + c)[i], (b + d)[i])
    } by {
        if i < a.len() {
            assert((a + c)[i] == a[i] && (b + d)[i] == b[i]);
        } else {
            assert((a + c)[i] == c[i - a.len()] && (b + d)[i] == d[i - a.len()]);
        }
    }
}

proof fn made_of_more(a: Seq<JsonV>, b: Seq<JsonV>, item: JsonV, block: JsonV, calls: bool)
    requires
        are_made_of(a, b, calls),
        calls ==> is_call_of(item, block),
        !calls ==> is_output_of(item, block),
    ensures
        are_made_of(a.push(item), b.push(block), calls),
{
    assert forall|i: int| 0 <= i < a.push(item).len() implies if calls {
        is_call_of(#[trigger] a.push(item)[i], b.push(block)[i])
    } else {
        is_output_of(a.push(item)[i], b.push(block)[i])
    } by {
        if i < a.len() {
            assert(a.push(item)[i] == a[i] && b.push(block)[i] == b[i]);
        }
    }
}

/// Every part stands in what is joined.
proof fn parts_are_joined(parts: Seq<Seq<char>>, i: int)
    requires
        0 <= i < parts.len(),
    ensures
        has_part(joined(parts, ""@), parts[i]),
    decreases parts.len(),
{
    let before = parts.drop_last();
    let last = parts.last();
    assert(before.push(last) =~= parts);
    joined_grows(before, last);
    let all = joined(parts, ""@);
    let head = joined(before, ""@);
    if i < before.len() {
        parts_are_joined(before, i);
        let at = choose|at: int| #[trigger] stands_at(head, before[i], at);
        assert(all.subrange(at, at + parts[i].len()) =~= head.subrange(at, at + parts[i].len()));
        assert(stands_at(all, parts[i], at));
    } else {
        assert(all.subrange(head.len() as int, (head.len() + last.len()) as int) =~= last);
        assert(stands_at(all, last, head.len() as int));
    }
}

proof fn item_texts_hold(items: Seq<JsonV>, i: int)
    requires
        0 <= i < items.len(),
        items[i].text_at("text"@) is Some,
    ensures
        exists|k: int| 0 <= k < item_texts(items).len() && #[trigger] item_texts(items)[k] == items[i].text_at("text"@).unwrap(),
    decreases items.len(),
{
    let before = items.drop_last();
    if i < before.len() {
        item_texts_hold(before, i);
        let k = choose|k: int|
            0 <= k < item_texts(before).len() && #[trigger] item_texts(before)[k] == before[i].text_at("text"@).unwrap();
        assert(item_texts(items)[k] == items[i].text_at("text"@).unwrap());
    } else {
        assert(item_texts(items)[item_texts(items).len() - 1] == items[i].text_at("text"@).unwrap());
    }
}

proof fn outputs_answer(block: JsonV)
    ensures
        is_output_of(output_item(block), block),
{
    outputs_tell(block);
    if let Some(parts) = block.items_at("content"@) {
        assert forall|i: int| 0 <= i < parts.len() && (#[trigger] parts[i]).text_at("text"@) is Some implies (output_item(
            block,
        ).text_at("output"@) matches Some(all) && has_part(all, parts[i].text_at("text"@).unwrap())) by {
            item_texts_hold(parts, i);
            let k = choose|k: int|
                0 <= k < item_texts(parts).len() && #[trigger] item_texts(parts)[k] == parts[i].text_at("text"@).unwrap();
            parts_are_joined(item_texts(parts), k);
        }
    }
}

proof fn flushing_keeps_items(s: ItemsV, role: JsonV, kind: Seq<char>)
    ensures
        of_type(flushed(s, role).items, kind) == of_type(s.items, kind),
{
    if s.waiting.len() > 0 {
        let text = joined(s.waiting, ""@);
        said_tells(role, text);
        typed_push(s.items, said(role, text), kind);
    }
}

proof fn blocks_make_items(blocks: Seq<JsonV>, role: JsonV)
    ensures
        are_made_of(of_type(items_of_blocks(blocks, role).items, "function_call"@), of_type(blocks, "tool_use"@), true),
        are_made_of(
            of_type(items_of_blocks(blocks, role).items, "function_call_output"@),
            of_type(blocks, "tool_result"@),
            false,
        ),
    decreases blocks.len(),
{
    item_words_differ();
    if blocks.len() == 0 {
        reveal(Seq::filter);
    } else {
        let before = blocks.drop_last();
        let block = blocks.last();
        blocks_make_items(before, role);
        assert(before.push(block) =~= blocks);
        typed_push(before, block, "tool_use"@);
        typed_push(before, block, "tool_result"@);
        let s = items_of_blocks(before, role);
        let f = flushed(s, role);
        flushing_keeps_items(s, role, "function_call"@);
        flushing_keeps_items(s, role, "function_call_output"@);
        let kind = block.text_at("type"@);
        if kind == Some("tool_use"@) {
            calls_tell(block);
            typed_push(f.items, call_item(block), "function_call"@);
            typed_push(f.items, call_item(block), "function_call_output"@);
            made_of_more(of_type(f.items, "function_call"@), of_type(before, "tool_use"@), call_item(block), block, true);
        } else if kind == Some("tool_result"@) {
            outputs_tell(block);
            outputs_answer(block);
            typed_push(f.items, output_item(block), "function_call"@);
            typed_push(f.items, output_item(block), "function_call_output"@);
            made_of_more(
                of_type(f.items, "function_call_output"@),
                of_type(before, "tool_result"@),
                output_item(block),
                block,
                false,
            );
        }
    }
}

proof fn messages_make_items(messages: Seq<JsonV>)
    ensures
        are_made_of(of_type(items_of_messages(messages), "function_call"@), blocks_of_type(messages, "tool_use"@), true),
        are_made_of(
            of_type(items_of_messages(messages), "function_call_output"@),
            blocks_of_type(messages, "tool_result"@),
            false,
        ),
    decreases messages.len(),
{
    reveal(Seq::filter);
    if messages.len() > 0 {
        let message = messages.last();
        let role = or_null(message.get("role"@));
        let before = messages.drop_last();
        messages_make_items(before);
        let more = items_of_message(message);
        typed_of_two(items_of_messages(before), more, "function_call"@);
        typed_of_two(items_of_messages(before), more, "function_call_output"@);
        let none = Seq::<JsonV>::empty();
        match message.get("content"@) {
            Some(JsonV::Str(text)) => {
                said_tells(role, text);
                typed_push(none, said(role, text), "function_call"@);
                typed_push(none, said(role, text), "function_call_output"@);
                assert(none.push(said(role, text)) =~= more);
            },
            Some(JsonV::Array(blocks)) => {
                blocks_make_items(blocks, role);
                let s = items_of_blocks(blocks, role);
                flushing_keeps_items(s, role, "function_call"@);
                flushing_keeps_items(s, role, "function_call_output"@);
            },
            _ => {},
        }
        let uses = match message.items_at("content"@) {
            Some(blocks) => of_type(blocks, "tool_use"@),
            None => none,
        };
        let results = match message.items_at("content"@) {
            Some(blocks) => of_type(blocks, "tool_result"@),
            None => none,
        };
        made_of_two(
            of_type(items_of_messages(before), "function_call"@),
            blocks_of_type(before, "tool_use"@),
            of_type(more, "function_call"@),
            uses,
            true,
        );
        made_of_two(
            of_type(items_of_messages(before), "function_call_output"@),
            blocks_of_type(before, "tool_result"@),
            of_type(more, "function_call_output"@),
            results,
            false,
        );
    }
}

/// Spaces are all that is put into a text, and none of it is taken out.
pub proof fn spacing_adds_spaces_alone(compact: Seq<char>)
    ensures
        spaced(compact).out.filter(|c: char| c != ' ') == compact.filter(|c: char| c != ' '),
        spaced(compact).out.len() >= compact.len(),
    decreases compact.len(),
{
    reveal(Seq::filter);
    let test = |c: char| c != ' ';
    if compact.len() > 0 {
        let before = spaced(compact.drop_last());
        let c = compact.last();
        spacing_adds_spaces_alone(compact.drop_last());
        let more = before.out.push(c);
        assert(more.drop_last() =~= before.out);
        let most = more.push(' ');
        assert(most.drop_last() =~= more);
        assert(most.filter(test) == more.filter(test));
    }
}

proof fn request_words_differ()
    ensures
        "model"@.len() == 5 && "model"@[0] == 'm',
        "input"@.len() == 5 && "input"@[0] == 'i',
        "stream"@.len() == 6,
        "instructions"@.len() == 12,
        "max_output_tokens"@.len() == 17,
        "temperature"@.len() == 11 && "temperature"@[1] == 'e',
        "top_p"@.len() == 5 && "top_p"@[0] == 't' && "top_p"@[2] == 'p',
        "tools"@.len() == 5 && "tools"@[0] == 't' && "tools"@[2] == 'o',
        "tool_choice"@.len() == 11 && "tool_choice"@[1] == 'o',
{
    reveal_strlit("model");
    reveal_strlit("input");
    reveal_strlit("stream");
    reveal_strlit("instructions");
    reveal_strlit("max_output_tokens");
    reveal_strlit("temperature");
    reveal_strlit("top_p");
    reveal_strlit("tools");
    reveal_strlit("tool_choice");
}

proof fn and_opt_gives(tree: JsonV, key: Seq<char>, value: Option<JsonV>, wanted: Seq<char>)
    requires
        tree is Object,
    ensures
        and_opt(tree, key, value) is Object,
        and_opt(tree, key, value).get(wanted) == (match tree.get(wanted) {
            Some(v) => Some(v),
            None => if key == wanted {
                value
            } else {
                None
            },
        }),
{
    if let Some(v) = value {
        and_gives(tree, key, v, wanted);
    }
}

spec fn limit_tree(limit: Option<u64>) -> Option<JsonV> {
    match limit {
        Some(v) => Some(JsonV::Number(NumberV::PosInt(v))),
        None => None,
    }
}

spec fn text_tree(text: Option<Seq<char>>) -> Option<JsonV> {
    match text {
        Some(s) => Some(JsonV::Str(s)),
        None => None,
    }
}

/// A field of a request in the responses protocol.
proof fn requests_tell(req: JsonV, model: Seq<char>, is_dashscope: bool, wanted: Seq<char>)
    ensures
        ({
            let tools = functions_of(tools_of(req.get("tools"@)), is_dashscope).0;
            let has_tools = tools.len() > 0;
            let sent = responses_request(req, model, is_dashscope);
            &&& wanted == "model"@ ==> sent.get(wanted) == Some(JsonV::Str(model))
            &&& wanted == "input"@ ==> sent.get(wanted) == Some(
                JsonV::Array(items_of_messages(req.items_at("messages"@).unwrap())),
            )
            &&& wanted == "stream"@ ==> sent.get(wanted) == Some(JsonV::Bool(false))
            &&& wanted == "instructions"@ ==> sent.get(wanted) == text_tree(prompt_of(req.get("system"@)))
            &&& wanted == "max_output_tokens"@ ==> sent.get(wanted) == limit_tree(
                output_limit(req.unsigned_at("max_tokens"@), has_tools, is_dashscope),
            )
            &&& wanted == "temperature"@ ==> sent.get(wanted) == not_null(req.get("temperature"@))
            &&& wanted == "top_p"@ ==> sent.get(wanted) == not_null(req.get("top_p"@))
            &&& wanted == "tools"@ ==> sent.get(wanted) == (if has_tools {
                Some(JsonV::Array(tools))
            } else {
                None
            })
            &&& wanted == "tool_choice"@ ==> sent.get(wanted) == text_tree(choice_of(req.get("tool_choice"@), has_tools))
        }),
{
    request_words_differ();
    let messages = req.items_at("messages"@).unwrap();
    let tools = functions_of(tools_of(req.get("tools"@)), is_dashscope).0;
    let has_tools = tools.len() > 0;
    let none = JsonV::object();
    let one = none.and("model"@, JsonV::Str(model));
    let two = one.and("input"@, JsonV::Array(items_of_messages(messages)));
    let base = two.and("stream"@, JsonV::Bool(false));
    and_gives(none, "model"@, JsonV::Str(model), wanted);
    and_gives(one, "input"@, JsonV::Array(items_of_messages(messages)), wanted);
    and_gives(two, "stream"@, JsonV::Bool(false), wanted);
    let prompt = text_tree(prompt_of(req.get("system"@)));
    let instructed = and_opt(base, "instructions"@, prompt);
    and_opt_gives(base, "instructions"@, prompt, wanted);
    let limit = limit_tree(output_limit(req.unsigned_at("max_tokens"@), has_tools, is_dashscope));
    let limited = and_opt(instructed, "max_output_tokens"@, limit);
    and_opt_gives(instructed, "max_output_tokens"@, limit, wanted);
    let warm = and_opt(limited, "temperature"@, not_null(req.get("temperature"@)));
    and_opt_gives(limited, "temperature"@, not_null(req.get("temperature"@)), wanted);
    let sampled = and_opt(warm, "top_p"@, not_null(req.get("top_p"@)));
    and_opt_gives(warm, "top_p"@, not_null(req.get("top_p"@)), wanted);
    let list = if has_tools {
        Some(JsonV::Array(tools))
    } else {
        None
    };
    let tooled = and_opt(sampled, "tools"@, list);
    and_opt_gives(sampled, "tools"@, list, wanted);
    let choice = text_tree(choice_of(req.get("tool_choice"@), has_tools));
    and_opt_gives(tooled, "tool_choice"@, choice, wanted);
    assert(none.get(wanted) is None);
    assert(responses_request(req, model, is_dashscope) == and_opt(tooled, "tool_choice"@, choice));
}

/// A request in the responses protocol holds the whole conversation: every character that was said and who said
/// it, every call of a tool with its id, name and input, and every answer to one, each in its order. What it says
/// beside that is what the request said: the model that it is for, the instructions, the sampling, and a token
/// limit that is no higher.
pub proof fn requests_keep_the_conversation(req: JsonV, model: Seq<char>, is_dashscope: bool)
    requires
        req.items_at("messages"@) is Some,
    ensures
        ({
            let messages = req.items_at("messages"@).unwrap();
            let sent = responses_request(req, model, is_dashscope);
            &&& sent.text_at("model"@) == Some(model)
            &&& sent.get("stream"@) == Some(JsonV::Bool(false))
            &&& sent.items_at("input"@) matches Some(items) && {
                &&& letters_of_items(items) == letters_of_messages(messages)
                &&& are_made_of(of_type(items, "function_call"@), blocks_of_type(messages, "tool_use"@), true)
                &&& are_made_of(of_type(items, "function_call_output"@), blocks_of_type(messages, "tool_result"@), false)
            }
            &&& req.text_at("system"@) matches Some(prompt) ==> (prompt.len() > 0 ==> sent.text_at("instructions"@) == Some(
                prompt,
            ))
            &&& req.get("temperature"@) matches Some(value) ==> (if value is Null {
                sent.get("temperature"@) is None
            } else {
                sent.get("temperature"@) == Some(value)
            })
            &&& req.get("top_p"@) matches Some(value) ==> (if value is Null {
                sent.get("top_p"@) is None
            } else {
                sent.get("top_p"@) == Some(value)
            })
            &&& match req.unsigned_at("max_tokens"@) {
                Some(limit) => sent.unsigned_at("max_output_tokens"@) matches Some(told) && {
                    &&& told <= limit
                    &&& limit <= 8_192 ==> told == limit
                    &&& (!is_dashscope || sent.get("tools"@) is None) && limit <= 65_536 ==> told == limit
                    &&& told <= 65_536
                    &&& is_dashscope && sent.get("tools"@) is Some ==> told <= 8_192
                },
                None => sent.get("max_output_tokens"@) is None,
            }
        }),
{
    requests_tell(req, model, is_dashscope, "model"@);
    requests_tell(req, model, is_dashscope, "input"@);
    requests_tell(req, model, is_dashscope, "stream"@);
    requests_tell(req, model, is_dashscope, "instructions"@);
    requests_tell(req, model, is_dashscope, "max_output_tokens"@);
    requests_tell(req, model, is_dashscope, "temperature"@);
    requests_tell(req, model, is_dashscope, "top_p"@);
    requests_tell(req, model, is_dashscope, "tools"@);
    messages_say_the_same(req.items_at("messages"@).unwrap());
    messages_make_items(req.items_at("messages"@).unwrap());
}

/// The instructions of a request hold every text of its system prompt.
pub proof fn instructions_hold_the_prompt(req: JsonV, model: Seq<char>, is_dashscope: bool, i: int)
    requires
        req.items_at("system"@) matches Some(parts) && 0 <= i < parts.len() && parts[i].text_at("text"@) is Some,
        req.items_at("system"@).unwrap()[i].text_at("text"@).unwrap().len() > 0,
    ensures
        responses_request(req, model, is_dashscope).text_at("instructions"@) matches Some(all) && has_part(
            all,
            req.items_at("system"@).unwrap()[i].text_at("text"@).unwrap(),
        ),
{
    let parts = req.items_at("system"@).unwrap();
    let text = parts[i].text_at("text"@).unwrap();
    requests_tell(req, model, is_dashscope, "instructions"@);
    item_texts_hold(parts, i);
    let k = choose|k: int| 0 <= k < item_texts(parts).len() && #[trigger] item_texts(parts)[k] == text;
    lines_are_joined(item_texts(parts), k, "\n"@);
    let all = joined(item_texts(parts), "\n"@);
    let at = choose|at: int| #[trigger] stands_at(all, text, at);
    assert(all.len() >= text.len());
}

proof fn lines_are_joined(parts: Seq<Seq<char>>, i: int, sep: Seq<char>)
    requires
        0 <= i < parts.len(),
    ensures
        has_part(joined(parts, sep), parts[i]),
    decreases parts.len(),
{
    let all = joined(parts, sep);
    if parts.len() == 1 {
        assert(all.subrange(0, all.len() as int) =~= parts[0]);
        assert(stands_at(all, parts[i], 0));
    } else {
        let before = parts.drop_last();
        let head = joined(before, sep);
        if i < before.len() {
            lines_are_joined(before, i, sep);
            let at = choose|at: int| #[trigger] stands_at(head, before[i], at);
            assert(all.subrange(at, at + parts[i].len()) =~= head.subrange(at, at + parts[i].len()));
            assert(stands_at(all, parts[i], at));
        } else {
            let at = head.len() + sep.len();
            assert(all.subrange(at as int, (at + parts[i].len()) as int) =~= parts[i]);
            assert(stands_at(all, parts[i], at as int));
        }
    }
}

/// Whether a function is the declaration of a tool.
pub open spec fn declares(function: JsonV, tool: JsonV) -> bool {
    &&& function.text_at("type"@) == Some("function"@)
    &&& function.text_at("name"@) == tool.text_at("name"@)
    &&& tool.text_at("description"@) is Some ==> function.text_at("description"@) == tool.text_at("description"@)
    &&& tool.get("input_schema"@) matches Some(schema) ==> {
        &&& schema.text_at("type"@) == Some("object"@) && is_object_at(schema, "properties"@) ==> function.get("parameters"@)
            == Some(schema)
        &&& schema.get("type"@) is None && is_object_at(schema, "properties"@) ==> (function.get("parameters"@) matches Some(
            parameters,
        ) && parameters.get("properties"@) == schema.get("properties"@) && parameters.get("required"@) == schema.get(
            "required"@,
        ))
    }
}

/// Whether a tool is declared to the upstream.
pub open spec fn is_declarable(tool: JsonV, is_dashscope: bool) -> bool {
    tool.text_at("name"@) is Some && !(is_dashscope && tool.text_at("name"@) == Some("web_search"@))
}

proof fn functions_declare(tool: JsonV)
    requires
        tool.text_at("name"@) is Some,
    ensures
        declares(function_of(tool, tool.text_at("name"@).unwrap()), tool),
{
    reveal_strlit("type");
    reveal_strlit("name");
    reveal_strlit("description");
    reveal_strlit("parameters");
    reveal_strlit("properties");
    reveal_strlit("required");
    assert("type"@.len() == 4 && "name"@.len() == 4 && "type"@[0] == 't' && "name"@[0] == 'n');
    assert("description"@.len() == 11 && "parameters"@.len() == 10 && "properties"@.len() == 10 && "required"@.len() == 8);
    let entries = function_of(tool, tool.text_at("name"@).unwrap())->Object_0;
    assert(entries.len() == 4);
    assert(entries[0] == ("type"@, JsonV::Str("function"@)));
    assert(entries[1].0 == "name"@ && entries[2].0 == "description"@ && entries[3].0 == "parameters"@);
    key_index_is(entries, "type"@, 0);
    key_index_is(entries, "name"@, 1);
    key_index_is(entries, "description"@, 2);
    key_index_is(entries, "parameters"@, 3);
    if let Some(schema) = tool.get("input_schema"@) {
        if schema is Object {
            with_gives(schema, "type"@, JsonV::Str("object"@));
        }
    }
}

proof fn tools_are_declared(tools: Seq<JsonV>, is_dashscope: bool)
    ensures
        ({
            let functions = functions_of(tools, is_dashscope).0;
            let meant = tools.filter(|tool: JsonV| is_declarable(tool, is_dashscope));
            &&& functions.len() == meant.len()
            &&& forall|i: int| 0 <= i < functions.len() ==> declares(#[trigger] functions[i], meant[i])
        }),
    decreases tools.len(),
{
    reveal(Seq::filter);
    let test = |tool: JsonV| is_declarable(tool, is_dashscope);
    if tools.len() > 0 {
        let before = tools.drop_last();
        let tool = tools.last();
        tools_are_declared(before, is_dashscope);
        if tool.text_at("name"@) is Some {
            functions_declare(tool);
        }
        assert(test(tool) == is_declarable(tool, is_dashscope));
        let now = functions_of(tools, is_dashscope).0;
        let meant = tools.filter(test);
        assert forall|i: int| 0 <= i < now.len() implies declares(#[trigger] now[i], meant[i]) by {
            if i < functions_of(before, is_dashscope).0.len() {
                assert(now[i] == functions_of(before, is_dashscope).0[i]);
                assert(meant[i] == before.filter(test)[i]);
            }
        }
    }
}

/// Every tool with a name is declared to the upstream, by its name, its description and its parameters, in their
/// order; one upstream is not told of the search.
pub proof fn requests_declare_the_tools(req: JsonV, model: Seq<char>, is_dashscope: bool)
    ensures
        req.items_at("tools"@) matches Some(tools) ==> {
            let meant = tools.filter(|tool: JsonV| is_declarable(tool, is_dashscope));
            let sent = responses_request(req, model, is_dashscope);
            if meant.len() == 0 {
                sent.get("tools"@) is None
            } else {
                sent.items_at("tools"@) matches Some(functions) && functions.len() == meant.len() && forall|i: int|
                    0 <= i < functions.len() ==> declares(#[trigger] functions[i], meant[i])
            }
        },
{
    requests_tell(req, model, is_dashscope, "tools"@);
    if let Some(tools) = req.items_at("tools"@) {
        tools_are_declared(tools, is_dashscope);
    }
}

/// The texts of the messages in an output, one after another.
pub open spec fn output_words(output: Seq<JsonV>) -> Seq<char>
    decreases output.len(),
{
    if output.len() == 0 {
        Seq::empty()
    } else {
        output_words(output.drop_last()) + (if output.last().text_at("type"@) == Some("message"@) {
            match output.last().items_at("content"@) {
                Some(contents) => content_words(contents),
                None => Seq::empty(),
            }
        } else {
            Seq::empty()
        })
    }
}

pub open spec fn content_words(contents: Seq<JsonV>) -> Seq<char>
    decreases contents.len(),
{
    if contents.len() == 0 {
        Seq::empty()
    } else {
        let kind = contents.last().text_at("type"@);
        content_words(contents.drop_last()) + (if kind == Some("output_text"@) || kind == Some("text"@) {
            match contents.last().text_at("text"@) {
                Some(text) => text,
                None => Seq::empty(),
            }
        } else {
            Seq::empty()
        })
    }
}

/// The texts of text blocks, one after another.
pub open spec fn block_words(blocks: Seq<JsonV>) -> Seq<char>
    decreases blocks.len(),
{
    if blocks.len() == 0 {
        Seq::empty()
    } else {
        block_words(blocks.drop_last()) + (if blocks.last().text_at("type"@) == Some("text"@) {
            match blocks.last().text_at("text"@) {
                Some(text) => text,
                None => Seq::empty(),
            }
        } else {
            Seq::empty()
        })
    }
}

proof fn contents_say_the_same(contents: Seq<JsonV>)
    ensures
        joined(output_texts(contents), ""@) == content_words(contents),
    decreases contents.len(),
{
    if contents.len() > 0 {
        contents_say_the_same(contents.drop_last());
        let before = output_texts(contents.drop_last());
        if let Some(text) = contents.last().text_at("text"@) {
            joined_grows(before, text);
        }
        assert(content_words(contents.drop_last()) + Seq::<char>::empty() =~= content_words(contents.drop_last()));
    }
}

proof fn texts_tell(text: Seq<char>)
    ensures
        text_block(text).text_at("type"@) == Some("text"@),
        text_block(text).text_at("text"@) == Some(text),
{
    item_words_differ();
    let entries = text_block(text)->Object_0;
    assert(entries.len() == 2);
    assert(entries[0] == ("type"@, JsonV::Str("text"@)));
    assert(entries[1] == ("text"@, JsonV::Str(text)));
    key_index_is(entries, "type"@, 0);
    key_index_is(entries, "text"@, 1);
}

proof fn tool_calls_tell(item: JsonV)
    ensures
        tool_call(item).text_at("type"@) == Some("tool_use"@),
        tool_call(item).get("id"@) == Some(
            or_null(
                match item.get("call_id"@) {
                    Some(v) => Some(v),
                    None => item.get("id"@),
                },
            ),
        ),
        tool_call(item).get("name"@) == Some(or_null(item.get("name"@))),
        tool_call(item).get("input"@) == Some(call_arguments(item)),
{
    item_words_differ();
    let entries = tool_call(item)->Object_0;
    assert(entries.len() == 4);
    assert(entries[0] == ("type"@, JsonV::Str("tool_use"@)));
    assert(entries[1].0 == "id"@ && entries[2].0 == "name"@ && entries[3].0 == "input"@);
    key_index_is(entries, "type"@, 0);
    key_index_is(entries, "id"@, 1);
    key_index_is(entries, "name"@, 2);
    key_index_is(entries, "input"@, 3);
}

/// Whether a block makes the call that an item of an output asks for.
pub open spec fn makes_call(block: JsonV, item: JsonV) -> bool {
    &&& item.get("call_id"@) matches Some(id) ==> block.get("id"@) == Some(id)
    &&& item.get("call_id"@) is None ==> (item.get("id"@) matches Some(id) ==> block.get("id"@) == Some(id))
    &&& item.get("name"@) matches Some(name) ==> block.get("name"@) == Some(name)
    &&& item.text_at("arguments"@) matches Some(text) ==> block.get("input"@) == Some(
        match json_parse(text) {
            Some(input) => input,
            None => JsonV::object(),
        },
    )
}

proof fn outputs_say_the_same(output: Seq<JsonV>)
    ensures
        block_words(blocks_of_output(output)) == output_words(output),
        of_type(blocks_of_output(output), "tool_use"@).len() == of_type(output, "function_call"@).len(),
        forall|i: int|
            0 <= i < of_type(output, "function_call"@).len() ==> makes_call(
                #[trigger] of_type(blocks_of_output(output), "tool_use"@)[i],
                of_type(output, "function_call"@)[i],
            ),
    decreases output.len(),
{
    item_words_differ();
    reveal_strlit("message");
    reveal_strlit("function_call");
    assert("message"@.len() == 7 && "function_call"@.len() == 13);
    if output.len() == 0 {
        reveal(Seq::filter);
    } else {
        let before = output.drop_last();
        let item = output.last();
        outputs_say_the_same(before);
        assert(before.push(item) =~= output);
        typed_push(before, item, "function_call"@);
        let done = blocks_of_output(before);
        let now = blocks_of_output(output);
        let words = output_words(before);
        if let Some(contents) = item.items_at("content"@) {
            contents_say_the_same(contents);
        }
        if item.text_at("type"@) == Some("message"@) {
            let text = text_of_output(item);
            texts_tell(text);
            typed_push(done, text_block(text), "tool_use"@);
            assert(done.push(text_block(text)).drop_last() =~= done);
            assert(words + Seq::<char>::empty() =~= words);
            if text.len() == 0 {
                assert(text =~= Seq::empty());
            }
        } else if item.text_at("type"@) == Some("function_call"@) {
            tool_calls_tell(item);
            typed_push(done, tool_call(item), "tool_use"@);
            assert(done.push(tool_call(item)).drop_last() =~= done);
            assert(words + Seq::<char>::empty() =~= words);
        } else {
            assert(words + Seq::<char>::empty() =~= words);
        }
        let a = of_type(now, "tool_use"@);
        let b = of_type(output, "function_call"@);
        assert forall|i: int| 0 <= i < b.len() implies makes_call(#[trigger] a[i], b[i]) by {
            if i < of_type(before, "function_call"@).len() {
                assert(a[i] == of_type(done, "tool_use"@)[i]);
                assert(b[i] == of_type(before, "function_call"@)[i]);
            }
        }
    }
}

proof fn responses_tell(resp: JsonV, model: Seq<char>)
    ensures
        ({
            let message = message_of(resp, model);
            let blocks = blocks_of_response(resp);
            &&& message.text_at("role"@) == Some("assistant"@)
            &&& message.text_at("type"@) == Some("message"@)
            &&& message.text_at("model"@) == Some(model)
            &&& resp.text_at("id"@) is Some ==> message.text_at("id"@) == resp.text_at("id"@)
            &&& message.items_at("content"@) == Some(
                if blocks.len() == 0 {
                    seq![text_block(""@)]
                } else {
                    blocks
                },
            )
            &&& message.text_at("stop_reason"@) == Some(stop_reason_of(resp))
            &&& message.get("usage"@) matches Some(usage) && usage.get("input_tokens"@) == Some(
                count_at(resp.get("usage"@), "input_tokens"@),
            ) && usage.get("output_tokens"@) == Some(count_at(resp.get("usage"@), "output_tokens"@))
        }),
{
    item_words_differ();
    reveal_strlit("id");
    reveal_strlit("type");
    reveal_strlit("role");
    reveal_strlit("model");
    reveal_strlit("content");
    reveal_strlit("stop_reason");
    reveal_strlit("stop_sequence");
    reveal_strlit("usage");
    reveal_strlit("input_tokens");
    reveal_strlit("output_tokens");
    assert("model"@.len() == 5 && "usage"@.len() == 5 && "model"@[0] == 'm' && "usage"@[0] == 'u');
    assert("stop_reason"@.len() == 11 && "stop_sequence"@.len() == 13 && "content"@.len() == 7);
    assert("input_tokens"@.len() == 12 && "output_tokens"@.len() == 13);
    let message = message_of(resp, model);
    let entries = message->Object_0;
    assert(entries.len() == 8);
    assert(entries[0].0 == "id"@ && entries[1].0 == "type"@ && entries[2].0 == "role"@ && entries[3].0 == "model"@);
    assert(entries[4].0 == "content"@ && entries[5].0 == "stop_reason"@ && entries[6].0 == "stop_sequence"@);
    assert(entries[7].0 == "usage"@);
    key_index_is(entries, "id"@, 0);
    key_index_is(entries, "type"@, 1);
    key_index_is(entries, "role"@, 2);
    key_index_is(entries, "model"@, 3);
    key_index_is(entries, "content"@, 4);
    key_index_is(entries, "stop_reason"@, 5);
    key_index_is(entries, "usage"@, 7);
    let counts = entries[7].1->Object_0;
    assert(counts.len() == 2);
    assert(counts[0].0 == "input_tokens"@ && counts[1].0 == "output_tokens"@);
    key_index_is(counts, "input_tokens"@, 0);
    key_index_is(counts, "output_tokens"@, 1);
}

/// A response in the messages protocol says what the output said, makes the calls that it asked for, in their order
/// and with their ids, names and arguments, ends for the reason that it ended for, and tells the same counts.
pub proof fn responses_keep_the_output(resp: JsonV, model: Seq<char>)
    ensures
        ({
            let message = message_of(resp, model);
            let calls = match resp.items_at("output"@) {
                Some(output) => of_type(output, "function_call"@),
                None => Seq::empty(),
            };
            let words = match resp.items_at("output"@) {
                Some(output) => output_words(output),
                None => Seq::empty(),
            };
            &&& message.text_at("role"@) == Some("assistant"@)
            &&& message.text_at("type"@) == Some("message"@)
            &&& message.text_at("model"@) == Some(model)
            &&& resp.text_at("id"@) is Some ==> message.text_at("id"@) == resp.text_at("id"@)
            &&& message.items_at("content"@) matches Some(content) && {
                &&& content.len() > 0
                &&& of_type(content, "tool_use"@).len() == calls.len()
                &&& forall|i: int|
                    0 <= i < calls.len() ==> makes_call(#[trigger] of_type(content, "tool_use"@)[i], calls[i])
                &&& words.len() > 0 || calls.len() > 0 ==> block_words(content) == words
                &&& words.len() == 0 && calls.len() == 0 ==> block_words(content) == (match resp.text_at("output_text"@) {
                    Some(text) => text,
                    None => Seq::empty(),
                })
            }
            &&& message.text_at("stop_reason"@) == Some(
                if resp.text_at("status"@) == Some("incomplete"@) {
                    "max_tokens"@
                } else if calls.len() > 0 {
                    "tool_use"@
                } else {
                    "end_turn"@
                },
            )
            &&& resp.get("usage"@) matches Some(usage) ==> (message.get("usage"@) matches Some(told) && {
                &&& usage.unsigned_at("input_tokens"@) is Some ==> told.unsigned_at("input_tokens"@) == usage.unsigned_at(
                    "input_tokens"@,
                )
                &&& usage.unsigned_at("output_tokens"@) is Some ==> told.unsigned_at("output_tokens"@) == usage.unsigned_at(
                    "output_tokens"@,
                )
            })
        }),
{
    item_words_differ();
    responses_tell(resp, model);
    let none = Seq::<JsonV>::empty();
    let blocks = blocks_of_response(resp);
    let made = match resp.items_at("output"@) {
        Some(output) => blocks_of_output(output),
        None => none,
    };
    if let Some(output) = resp.items_at("output"@) {
        outputs_say_the_same(output);
    } else {
        reveal(Seq::filter);
    }
    let words = block_words(made);
    let uses = of_type(made, "tool_use"@);
    let empty = ""@;
    reveal_strlit("");
    texts_tell(empty);
    alone_says(empty);
    if let Some(text) = resp.text_at("output_text"@) {
        texts_tell(text);
        alone_says(text);
        if text.len() == 0 {
            assert(text =~= empty);
        }
    }
    assert(""@ =~= Seq::<char>::empty());
    silent_blocks(made);
    if made.len() == 0 {
        reveal(Seq::filter);
        assert(of_type(made, "tool_use"@).len() == 0);
    }
    calls_are_found(made);
    let content = if blocks.len() == 0 {
        seq![text_block(""@)]
    } else {
        blocks
    };
    calls_are_found(blocks);
    if made.len() > 0 {
        made_blocks_say_something(resp);
    }
}

proof fn alone_says(text: Seq<char>)
    ensures
        block_words(seq![text_block(text)]) == text,
        of_type(seq![text_block(text)], "tool_use"@).len() == 0,
        !any_tool_call(seq![text_block(text)]),
{
    item_words_differ();
    texts_tell(text);
    let one = seq![text_block(text)];
    let none = Seq::<JsonV>::empty();
    assert(none.push(text_block(text)) =~= one);
    assert(one.drop_last() =~= none);
    assert(Seq::<char>::empty() + text =~= text);
    typed_push(none, text_block(text), "tool_use"@);
    reveal(Seq::filter);
    assert(block_words(none) =~= Seq::empty());
    assert forall|i: int| 0 <= i < one.len() implies (#[trigger] one[i]).text_at("type"@) != Some("tool_use"@) by {}
}

proof fn silent_blocks(blocks: Seq<JsonV>)
    ensures
        blocks.len() == 0 ==> block_words(blocks) == Seq::<char>::empty(),
{
}

proof fn calls_are_found(blocks: Seq<JsonV>)
    ensures
        any_tool_call(blocks) == (of_type(blocks, "tool_use"@).len() > 0),
    decreases blocks.len(),
{
    reveal(Seq::filter);
    if blocks.len() > 0 {
        let before = blocks.drop_last();
        let block = blocks.last();
        calls_are_found(before);
        assert(before.push(block) =~= blocks);
        typed_push(before, block, "tool_use"@);
        if any_tool_call(blocks) {
            let i = choose|i: int| 0 <= i < blocks.len() && (#[trigger] blocks[i]).text_at("type"@) == Some("tool_use"@);
            if i < before.len() {
                assert(before[i].text_at("type"@) == Some("tool_use"@));
            }
        }
        if any_tool_call(before) {
            let i = choose|i: int| 0 <= i < before.len() && (#[trigger] before[i]).text_at("type"@) == Some("tool_use"@);
            assert(blocks[i].text_at("type"@) == Some("tool_use"@));
        }
        if block.text_at("type"@) == Some("tool_use"@) {
            assert(blocks[blocks.len() - 1].text_at("type"@) == Some("tool_use"@));
        }
    }
}

/// Where an output becomes blocks, it said something or made a call.
proof fn made_blocks_say_something(resp: JsonV)
    requires
        resp.items_at("output"@) matches Some(output) && blocks_of_output(output).len() > 0,
    ensures
        ({
            let output = resp.items_at("output"@).unwrap();
            output_words(output).len() > 0 || of_type(output, "function_call"@).len() > 0
        }),
{
    outputs_are_not_empty(resp.items_at("output"@).unwrap());
}

proof fn outputs_are_not_empty(output: Seq<JsonV>)
    ensures
        blocks_of_output(output).len() > 0 ==> output_words(output).len() > 0 || of_type(output, "function_call"@).len() > 0,
    decreases output.len(),
{
    if output.len() > 0 {
        let before = output.drop_last();
        let item = output.last();
        outputs_are_not_empty(before);
        assert(before.push(item) =~= output);
        typed_push(before, item, "function_call"@);
        if let Some(contents) = item.items_at("content"@) {
            contents_say_the_same(contents);
        }
    }
}

/// A response that passes calls known tools alone, each with an object that its schema takes; one that fails holds a
/// call that does not.
pub proof fn accepted_calls_fit_their_tools(resp: JsonV, known_tools: JsonV, tests: Seq<QuotientTest>)
    ensures
        resp.items_at("output"@) is None ==> response_check(resp, known_tools, tests) is Valid,
        resp.items_at("output"@) matches Some(output) ==> {
            &&& response_check(resp, known_tools, tests) is Valid ==> forall|i: int|
                0 <= i < output.len() && (#[trigger] output[i]).text_at("type"@) == Some("function_call"@) ==> fits_its_tool(
                    output[i],
                    known_tools,
                    tests,
                )
            &&& response_check(resp, known_tools, tests) is Invalid ==> exists|i: int|
                0 <= i < output.len() && (#[trigger] output[i]).text_at("type"@) == Some("function_call"@) && !fits_its_tool(
                    output[i],
                    known_tools,
                    tests,
                )
        },
{
    if let Some(output) = resp.items_at("output"@) {
        checked_calls(output, known_tools, tests);
    }
}

/// Whether a call names a known tool and hands it an object that its schema takes.
pub open spec fn fits_its_tool(call: JsonV, known_tools: JsonV, tests: Seq<QuotientTest>) -> bool {
    call.text_at("name"@) matches Some(name) && call.text_at("arguments"@) matches Some(raw) && known_tools.get(name) matches Some(
        schema,
    ) && json_parse(raw) matches Some(arguments) && arguments is Object && encode_utf8(raw).len() <= 1_048_576
        && arguments_check(arguments, schema, tests) is Valid
}

proof fn checked_calls(output: Seq<JsonV>, known_tools: JsonV, tests: Seq<QuotientTest>)
    ensures
        calls_check(output, known_tools, tests) is Valid ==> forall|i: int|
            0 <= i < output.len() && (#[trigger] output[i]).text_at("type"@) == Some("function_call"@) ==> fits_its_tool(
                output[i],
                known_tools,
                tests,
            ),
        calls_check(output, known_tools, tests) is Invalid ==> exists|i: int|
            0 <= i < output.len() && (#[trigger] output[i]).text_at("type"@) == Some("function_call"@) && !fits_its_tool(
                output[i],
                known_tools,
                tests,
            ),
    decreases output.len(),
{
    if output.len() > 0 {
        let before = output.drop_last();
        checked_calls(before, known_tools, tests);
        assert(forall|i: int| 0 <= i < before.len() ==> #[trigger] before[i] == output[i]);
        let end = output.len() - 1;
        if calls_check(output, known_tools, tests) is Valid {
            assert forall|i: int|
                0 <= i < output.len() && (#[trigger] output[i]).text_at("type"@) == Some(
                    "function_call"@,
                ) implies fits_its_tool(output[i], known_tools, tests) by {
                if i < before.len() {
                    assert(before[i].text_at("type"@) == Some("function_call"@));
                }
            }
        }
        if calls_check(output, known_tools, tests) is Invalid {
            if calls_check(before, known_tools, tests) is Invalid {
                let i = choose|i: int|
                    0 <= i < before.len() && (#[trigger] before[i]).text_at("type"@) == Some("function_call"@) && !fits_its_tool(
                        before[i],
                        known_tools,
                        tests,
                    );
                assert(output[i].text_at("type"@) == Some("function_call"@));
            } else {
                assert(output[end].text_at("type"@) == Some("function_call"@));
                assert(!fits_its_tool(output[end], known_tools, tests));
            }
        }
    }
}

} // verus!
