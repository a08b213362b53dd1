//! Continuity of a model's reasoning over the turns of a conversation.
//!
//! A client does not send reasoning blocks back, but some upstreams want them in the history of a
//! turn with tool calls. The blocks of such a turn are stored under a fingerprint of the visible
//! history, encrypted, and put back into their places when that history comes again. Files are read
//! and written by the caller: the functions here say which, and what is in them.
use crate::canonical_json::{canonical, canonicalize};
use crate::crypto::{
    authenticate, digest, field, hex, hex_bytes, hmac_sha256, open, opened_bytes, push_field, random_bytes, seal,
    sealed_bytes, sha256, wipe, wipe_text, KEY_BYTES, NONCE_BYTES, TAG_BYTES,
};
use crate::json::{Json, JsonV};
use crate::json_fields::{fields_are_named_once, held_fields, name_fields, named, names_fields_once, written_fields};
use crate::json_model::{
    entries_view, entry_is_smaller, group_json_views, item_is_smaller, json_parse, list_view, readable, rendered,
    text_block,
};
use crate::kimi_coding_search::{number, text_or_empty};
use crate::text::{
    any_control, byte_len, chars_of, concat, contains_char, contains_text, decode_strict, group_texts, has_control,
    opt_text, same, texts,
};
use vstd::prelude::*;
use crate::sse::bytes_between;
use crate::reasoning_state_laws::{entries_come_back, readable_values_are_settled};
use vstd::utf8::{
    decode_utf8, encode_utf8, encode_utf8_decode_utf8, encode_utf8_valid_utf8, is_ascii_chars_encode_utf8, valid_utf8,
};

verus! {

broadcast use {group_json_views, group_texts};

pub const MAX_ENTRY_BYTES: usize = 2_097_152;

pub const MAX_TOTAL_BYTES: u64 = 67_108_864;

pub const MAX_ENTRIES: usize = 512;

pub const MAX_REASONING_BLOCKS: usize = 128;

pub const MAX_CONTENT_BLOCKS: usize = 1_024;

pub const MAX_MODEL_BYTES: usize = 512;

pub const MAX_ID_BYTES: usize = 512;

pub const MAX_TOOL_NAME_BYTES: usize = 512;

pub const MAX_FINGERPRINT_INPUT_BYTES: usize = 67_108_864;

/// How long an entry is kept, in seconds.
pub const ENTRY_TTL_SECONDS: u64 = 2_592_000;

/// When reasoning is put back.
#[derive(Debug, Clone, Copy, PartialEq, Eq, Structural)]
pub enum RestorePolicy {
    DeepSeekToolUse,
}

/// Whether a text is there, not empty, not too long, and free of control codes.
pub open spec fn bounded(text: Option<Seq<char>>, max: int) -> bool {
    match text {
        Some(s) => s.len() > 0 && encode_utf8(s).len() <= max && !has_control(s),
        None => false,
    }
}

fn is_bounded(text: Option<&str>, max: usize) -> (yes: bool)
    ensures
        yes == bounded(
            match text {
                Some(s) => Some(s@),
                None => None,
            },
            max as int,
        ),
{
    match text {
        Some(s) => !s.is_empty() && byte_len(s) <= max && !any_control(s),
        None => false,
    }
}

/// Checks the name of a model.
pub fn validate_model(model: &str) -> (out: Result<(), String>)
    ensures
        out is Ok <==> bounded(Some(model@), MAX_MODEL_BYTES as int),
        out matches Err(e) ==> e@ == "thinking continuity model is invalid"@,
{
    if !is_bounded(Some(model), MAX_MODEL_BYTES) {
        return Err("thinking continuity model is invalid".to_owned());
    }
    Ok(())
}

/// Whether a block is reasoning.
pub open spec fn is_reasoning(block: JsonV) -> bool {
    block.text_at("type"@) == Some("thinking"@) || block.text_at("type"@) == Some("redacted_thinking"@)
}

/// Whether a block calls a tool.
pub open spec fn is_call(block: JsonV) -> bool {
    block.text_at("type"@) == Some("tool_use"@) || block.text_at("type"@) == Some("server_tool_use"@)
}

pub fn is_reasoning_block(block: &Json) -> (yes: bool)
    ensures
        yes == is_reasoning(block@),
{
    block.has_text("type", "thinking") || block.has_text("type", "redacted_thinking")
}

pub fn is_tool_binding_block(block: &Json) -> (yes: bool)
    ensures
        yes == is_call(block@),
{
    block.has_text("type", "tool_use") || block.has_text("type", "server_tool_use")
}

/// Whether an object has no keys but these.
pub open spec fn only_keys(entries: Seq<(Seq<char>, JsonV)>, allowed: Seq<Seq<char>>) -> bool {
    forall|i: int| 0 <= i < entries.len() ==> allowed.contains((#[trigger] entries[i]).0)
}

fn has_only_keys(entries: &Vec<(String, Json)>, allowed: &Vec<String>) -> (yes: bool)
    ensures
        yes == only_keys(entries_view(entries@), texts(allowed@)),
{
    let ghost all = entries_view(entries@);
    let mut i: usize = 0;
    while i < entries.len()
        invariant
            i <= entries@.len(),
            all == entries_view(entries@),
            forall|k: int| 0 <= k < i ==> texts(allowed@).contains((#[trigger] all[k]).0),
        decreases entries@.len() - i,
    {
        assert(all[i as int].0 == entries@[i as int].0@);
        if !contains_text(allowed, entries[i].0.as_str()) {
            assert(!texts(allowed@).contains(all[i as int].0));
            return false;
        }
        i = i + 1;
    }
    true
}

/// The keys of a thinking block.
pub open spec fn thinking_keys() -> Seq<Seq<char>> {
    seq!["type"@, "thinking"@, "signature"@]
}

pub open spec fn redacted_keys() -> Seq<Seq<char>> {
    seq!["type"@, "data"@]
}

/// The fault of a reasoning block.
pub open spec fn reasoning_fault(block: JsonV) -> Option<Seq<char>> {
    match block {
        JsonV::Object(entries) => if block.text_at("type"@) == Some("thinking"@) {
            let signature = text_or_empty(block, "signature"@);
            if !only_keys(entries, thinking_keys()) {
                Some("thinking continuity reasoning block has unexpected fields"@)
            } else {
                match block.text_at("thinking"@) {
                    None => Some("thinking continuity reasoning content is invalid"@),
                    Some(thinking) => if encode_utf8(thinking).len() + encode_utf8(signature).len() > MAX_ENTRY_BYTES
                        || (thinking.len() == 0 && signature.len() == 0) {
                        Some("thinking continuity reasoning content is invalid"@)
                    } else {
                        None
                    },
                }
            }
        } else if block.text_at("type"@) == Some("redacted_thinking"@) {
            let data = text_or_empty(block, "data"@);
            if !only_keys(entries, redacted_keys()) || data.len() == 0 || encode_utf8(data).len() > MAX_ENTRY_BYTES {
                Some("thinking continuity redacted reasoning is invalid"@)
            } else {
                None
            }
        } else {
            Some("thinking continuity reasoning block is invalid"@)
        },
        _ => Some("thinking continuity reasoning block is invalid"@),
    }
}

fn str_or_nothing<'a>(block: &'a Json, key: &str) -> (text: &'a str)
    ensures
        text@ == text_or_empty(block@, key@),
{
    match block.str_at(key) {
        Some(t) => t,
        None => "",
    }
}

/// Checks a reasoning block.
pub fn validate_reasoning_block(block: &Json) -> (out: Result<(), String>)
    ensures
        match (out, reasoning_fault(block@)) {
            (Ok(_), None) => true,
            (Err(e), Some(reason)) => e@ == reason,
            _ => false,
        },
{
    let entries = match block.as_object() {
        Some(entries) => entries,
        None => {
            return Err("thinking continuity reasoning block is invalid".to_owned());
        },
    };
    if block.has_text("type", "thinking") {
        let mut allowed: Vec<String> = Vec::new();
        allowed.push("type".to_owned());
        allowed.push("thinking".to_owned());
        allowed.push("signature".to_owned());
        assert(texts(allowed@) =~= thinking_keys());
        if !has_only_keys(entries, &allowed) {
            return Err("thinking continuity reasoning block has unexpected fields".to_owned());
        }
        let thinking = match block.str_at("thinking") {
            Some(thinking) => thinking,
            None => {
                return Err("thinking continuity reasoning content is invalid".to_owned());
            },
        };
        let signature = str_or_nothing(block, "signature");
        let most: usize = MAX_ENTRY_BYTES;
        let first: usize = byte_len(thinking);
        let second: usize = byte_len(signature);
        if first > most || second > most - first || (thinking.is_empty() && signature.is_empty()) {
            return Err("thinking continuity reasoning content is invalid".to_owned());
        }
        Ok(())
    } else if block.has_text("type", "redacted_thinking") {
        let mut allowed: Vec<String> = Vec::new();
        allowed.push("type".to_owned());
        allowed.push("data".to_owned());
        assert(texts(allowed@) =~= redacted_keys());
        let data = str_or_nothing(block, "data");
        if !has_only_keys(entries, &allowed) || data.is_empty() || byte_len(data) > MAX_ENTRY_BYTES {
            return Err("thinking continuity redacted reasoning is invalid".to_owned());
        }
        Ok(())
    } else {
        Err("thinking continuity reasoning block is invalid".to_owned())
    }
}

/// A reasoning block and its place among the blocks of its message.
pub struct StoredBlock {
    pub index: usize,
    pub block: Json,
}

pub open spec fn stored_view(blocks: Seq<StoredBlock>) -> Seq<(usize, JsonV)> {
    blocks.map_values(|b: StoredBlock| (b.index, b.block@))
}

/// What a response's content comes to: its reasoning with places, what is visible, and the bytes of
/// the reasoning.
#[verifier::ext_equal]
pub struct SplitV {
    pub blocks: Seq<(usize, JsonV)>,
    pub visible: Seq<JsonV>,
    pub bytes: nat,
}

pub open spec fn split_step(s: SplitV, block: JsonV) -> Result<SplitV, Seq<char>> {
    let bytes = s.bytes + encode_utf8(rendered(block)).len();
    if !(block is Object) || !bounded(block.text_at("type"@), MAX_ID_BYTES as int) {
        Err("thinking continuity content block is invalid"@)
    } else if !is_reasoning(block) {
        Ok(SplitV { visible: s.visible.push(block), ..s })
    } else if s.blocks.len() >= MAX_REASONING_BLOCKS {
        Err("thinking continuity response has too many reasoning blocks"@)
    } else if reasoning_fault(block) is Some {
        Err(reasoning_fault(block).unwrap())
    } else if bytes > MAX_ENTRY_BYTES {
        Err("thinking continuity reasoning blocks exceed the size limit"@)
    } else {
        Ok(SplitV { blocks: s.blocks.push(((s.blocks.len() + s.visible.len()) as usize, block)), bytes, ..s })
    }
}

pub open spec fn split(content: Seq<JsonV>) -> Result<SplitV, Seq<char>>
    decreases content.len(),
{
    if content.len() == 0 {
        Ok(SplitV { blocks: Seq::empty(), visible: Seq::empty(), bytes: 0 })
    } else {
        match split(content.drop_last()) {
            Err(e) => Err(e),
            Ok(s) => split_step(s, content.last()),
        }
    }
}

proof fn split_stays(content: Seq<JsonV>, i: int)
    requires
        0 <= i <= content.len(),
        split(content.take(i)) is Err,
    ensures
        split(content) == split(content.take(i)),
    decreases content.len() - i,
{
    if i < content.len() {
        assert(content.take(i + 1).drop_last() =~= content.take(i));
        split_stays(content, i + 1);
    } else {
        assert(content.take(i) =~= content);
    }
}

/// Parts the reasoning of a response's content from what is visible.
pub fn split_reasoning_blocks(content: &Vec<Json>) -> (out: Result<(Vec<StoredBlock>, Vec<Json>), String>)
    ensures
        match (out, split(list_view(content@))) {
            (Ok(parts), Ok(s)) => stored_view(parts.0@) == s.blocks && list_view(parts.1@) == s.visible,
            (Err(e), Err(reason)) => e@ == reason,
            _ => false,
        },
{
    let ghost all = list_view(content@);
    let mut blocks: Vec<StoredBlock> = Vec::new();
    let mut visible: Vec<Json> = Vec::new();
    let mut bytes: usize = 0;
    let ghost mut s = SplitV { blocks: Seq::empty(), visible: Seq::empty(), bytes: 0 };
    assert(stored_view(blocks@) =~= s.blocks);
    let mut i: usize = 0;
    while i < content.len()
        invariant
            i <= content@.len(),
            all == list_view(content@),
            split(all.take(i as int)) == Ok::<SplitV, Seq<char>>(s),
            stored_view(blocks@) == s.blocks,
            list_view(visible@) == s.visible,
            blocks@.len() + visible@.len() == i,
            bytes == s.bytes,
            bytes <= MAX_ENTRY_BYTES,
        decreases content@.len() - i,
    {
        assert(all.take(i + 1).drop_last() =~= all.take(i as int));
        assert(s.blocks.len() == blocks@.len());
        assert(s.visible.len() == visible@.len());
        let block = &content[i];
        let ghost next = split_step(s, block@);
        proof {
            if next is Err {
                split_stays(all, i + 1);
            }
        }
        if !block.is_object() || !is_bounded(block.str_at("type"), MAX_ID_BYTES) {
            return Err("thinking continuity content block is invalid".to_owned());
        }
        if is_reasoning_block(block) {
            if blocks.len() >= MAX_REASONING_BLOCKS {
                return Err("thinking continuity response has too many reasoning blocks".to_owned());
            }
            match validate_reasoning_block(block) {
                Ok(_) => {},
                Err(e) => {
                    return Err(e);
                },
            }
            let text = block.render();
            let more: usize = byte_len(text.as_str());
            let most: usize = MAX_ENTRY_BYTES;
            if more > most - bytes {
                return Err("thinking continuity reasoning blocks exceed the size limit".to_owned());
            }
            bytes = bytes + more;
            let ghost before = blocks@;
            blocks.push(StoredBlock { index: blocks.len() + visible.len(), block: block.copy() });
            proof {
                s = next->Ok_0;
                assert(stored_view(blocks@) =~= s.blocks);
            }
        } else {
            visible.push(block.copy());
            proof {
                s = next->Ok_0;
            }
        }
        i = i + 1;
    }
    assert(all.take(i as int) =~= all);
    Ok((blocks, visible))
}

/// Blocks put into their places, one after the other; nothing where a place does not fit.
pub open spec fn inserted(content: Seq<JsonV>, blocks: Seq<(usize, JsonV)>) -> Option<Seq<JsonV>>
    decreases blocks.len(),
{
    if blocks.len() == 0 {
        Some(content)
    } else {
        let (index, block) = blocks.last();
        let before = blocks.drop_last();
        match inserted(content, before) {
            None => None,
            Some(so_far) => if (before.len() > 0 && index <= before.last().0) || index > so_far.len() || !is_reasoning(
                block,
            ) {
                None
            } else {
                Some(so_far.insert(index as int, block))
            },
        }
    }
}

/// The content with the blocks that found their places before the first one that did not.
pub open spec fn inserted_before_fault(content: Seq<JsonV>, blocks: Seq<(usize, JsonV)>) -> Seq<JsonV>
    decreases blocks.len(),
{
    if blocks.len() == 0 {
        content
    } else {
        match inserted(content, blocks.drop_last()) {
            Some(so_far) => so_far,
            None => inserted_before_fault(content, blocks.drop_last()),
        }
    }
}

proof fn inserted_stays(content: Seq<JsonV>, blocks: Seq<(usize, JsonV)>, i: int)
    requires
        0 <= i <= blocks.len(),
        inserted(content, blocks.take(i)) is None,
    ensures
        inserted(content, blocks) is None,
        inserted_before_fault(content, blocks) == inserted_before_fault(content, blocks.take(i)),
    decreases blocks.len() - i,
{
    if i < blocks.len() {
        assert(blocks.take(i + 1).drop_last() =~= blocks.take(i));
        inserted_stays(content, blocks, i + 1);
    } else {
        assert(blocks.take(i) =~= blocks);
    }
}

/// A message's content as blocks.
pub open spec fn as_blocks(content: JsonV) -> Option<Seq<JsonV>> {
    match content {
        JsonV::Str(text) => Some(seq![text_block(text)]),
        JsonV::Array(items) => Some(items),
        _ => None,
    }
}

/// A message with its reasoning put back.
pub open spec fn with_reasoning(message: JsonV, blocks: Seq<(usize, JsonV)>) -> Result<JsonV, Seq<char>> {
    let content = match message.get("content"@) {
        Some(c) => as_blocks(c),
        None => None,
    };
    match content {
        None => Err("thinking continuity assistant content is invalid"@),
        Some(items) => match inserted(items, blocks) {
            None => Err("thinking continuity block position is invalid"@),
            Some(all) => Ok(message.with("content"@, JsonV::Array(all))),
        },
    }
}

/// A message whose reasoning could not be put back: text has become a block, and the blocks that found
/// their places are there.
pub open spec fn with_part_of_reasoning(message: JsonV, blocks: Seq<(usize, JsonV)>) -> JsonV {
    let content = match message.get("content"@) {
        Some(c) => as_blocks(c),
        None => None,
    };
    match content {
        None => message,
        Some(items) => message.with("content"@, JsonV::Array(inserted_before_fault(items, blocks))),
    }
}

fn copy_items(items: &Vec<Json>) -> (out: Vec<Json>)
    ensures
        list_view(out@) == list_view(items@),
{
    let mut out: Vec<Json> = Vec::new();
    let mut i: usize = 0;
    while i < items.len()
        invariant
            i <= items@.len(),
            list_view(out@) == list_view(items@).take(i as int),
        decreases items@.len() - i,
    {
        assert(list_view(items@).take(i + 1) =~= list_view(items@).take(i as int).push(list_view(items@)[i as int]));
        out.push(items[i].copy());
        i = i + 1;
    }
    assert(list_view(items@).take(i as int) =~= list_view(items@));
    out
}

fn content_blocks(content: &Json) -> (out: Option<Vec<Json>>)
    ensures
        match (out, as_blocks(content@)) {
            (Some(items), Some(meant)) => list_view(items@) == meant,
            (None, None) => true,
            _ => false,
        },
{
    match content.as_str() {
        Some(text) => {
            let mut items: Vec<Json> = Vec::new();
            items.push(Json::typed("text", "text", text));
            assert(list_view(items@) =~= seq![text_block(text@)]);
            Some(items)
        },
        None => match content.as_array() {
            Some(items) => Some(copy_items(items)),
            None => None,
        },
    }
}

/// Puts reasoning back into its places in a message.
pub fn insert_reasoning_blocks(message: &mut Json, blocks: &Vec<StoredBlock>) -> (out: Result<(), String>)
    ensures
        match (out, with_reasoning(old(message)@, stored_view(blocks@))) {
            (Ok(_), Ok(meant)) => final(message)@ == meant,
            (Err(e), Err(reason)) => e@ == reason && final(message)@ == with_part_of_reasoning(
                old(message)@,
                stored_view(blocks@),
            ),
            _ => false,
        },
{
    let items = match message.get("content") {
        Some(content) => content_blocks(content),
        None => None,
    };
    let mut content = match items {
        Some(items) => items,
        None => {
            return Err("thinking continuity assistant content is invalid".to_owned());
        },
    };
    let ghost start = list_view(content@);
    let ghost all = stored_view(blocks@);
    let mut i: usize = 0;
    while i < blocks.len()
        invariant
            i <= blocks@.len(),
            all == stored_view(blocks@),
            message@ == old(message)@,
            as_blocks(message@.get("content"@).unwrap()) == Some(start),
            message@.get("content"@) is Some,
            inserted(start, all.take(i as int)) == Some(list_view(content@)),
        decreases blocks@.len() - i,
    {
        assert(all.take(i + 1).drop_last() =~= all.take(i as int));
        assert(all[i as int] == (blocks@[i as int].index, blocks@[i as int].block@));
        proof {
            if i > 0 {
                assert(all.take(i as int).last() == all[i - 1]);
                assert(all[i - 1] == (blocks@[i - 1].index, blocks@[i - 1].block@));
            }
        }
        let index: usize = blocks[i].index;
        if (i > 0 && index <= blocks[i - 1].index) || index > content.len() || !is_reasoning_block(&blocks[i].block) {
            proof {
                assert(list_view(content@).len() == content@.len());
                inserted_stays(start, all, i + 1);
            }
            message.set("content", Json::array(content));
            return Err("thinking continuity block position is invalid".to_owned());
        }
        let ghost before = content@;
        content.insert(index, blocks[i].block.copy());
        assert(list_view(content@) =~= list_view(before).insert(index as int, blocks@[i as int].block@));
        i = i + 1;
    }
    assert(all.take(i as int) =~= all);
    message.set("content", Json::array(content));
    Ok(())
}

/// The kinds of blocks that are looked for.
pub enum BlockKind {
    Reasoning,
    Call,
}

pub open spec fn of_kind(block: JsonV, kind: BlockKind) -> bool {
    match kind {
        BlockKind::Reasoning => is_reasoning(block),
        BlockKind::Call => is_call(block),
    }
}

pub open spec fn any_of(items: Seq<JsonV>, kind: BlockKind) -> bool {
    exists|i: int| 0 <= i < items.len() && of_kind(#[trigger] items[i], kind)
}

/// Whether one of a message's blocks is of a kind; a text has no blocks of any.
pub open spec fn any_block(message: JsonV, kind: BlockKind) -> Result<bool, Seq<char>> {
    match message.get("content"@) {
        None => Err("thinking continuity assistant content is missing"@),
        Some(JsonV::Str(_)) => Ok(false),
        Some(JsonV::Array(items)) => Ok(any_of(items, kind)),
        Some(_) => Err("thinking continuity assistant content is invalid"@),
    }
}

/// Whether a message holds reasoning.
pub fn message_has_reasoning(message: &Json) -> (out: Result<bool, String>)
    ensures
        match (out, any_block(message@, BlockKind::Reasoning)) {
            (Ok(yes), Ok(meant)) => yes == meant,
            (Err(e), Err(reason)) => e@ == reason,
            _ => false,
        },
{
    let content = match message.get("content") {
        Some(content) => content,
        None => {
            return Err("thinking continuity assistant content is missing".to_owned());
        },
    };
    if content.as_str().is_some() {
        return Ok(false);
    }
    match content.as_array() {
        Some(items) => {
            let mut i: usize = 0;
            while i < items.len()
                invariant
                    i <= items@.len(),
                    content@ == JsonV::Array(list_view(items@)),
                    message@.get("content"@) == Some(content@),
                    forall|k: int| 0 <= k < i ==> !is_reasoning(#[trigger] list_view(items@)[k]),
                decreases items@.len() - i,
            {
                if is_reasoning_block(&items[i]) {
                    assert(of_kind(list_view(items@)[i as int], BlockKind::Reasoning));
                    return Ok(true);
                }
                i = i + 1;
            }
            Ok(false)
        },
        None => Err("thinking continuity assistant content is invalid".to_owned()),
    }
}

/// Whether a message calls tools.
pub fn message_has_tool_use(message: &Json) -> (out: Result<bool, String>)
    ensures
        match (out, any_block(message@, BlockKind::Call)) {
            (Ok(yes), Ok(meant)) => yes == meant,
            (Err(e), Err(reason)) => e@ == reason,
            _ => false,
        },
{
    let content = match message.get("content") {
        Some(content) => content,
        None => {
            return Err("thinking continuity assistant content is missing".to_owned());
        },
    };
    if content.as_str().is_some() {
        return Ok(false);
    }
    match content.as_array() {
        Some(items) => {
            let mut i: usize = 0;
            while i < items.len()
                invariant
                    i <= items@.len(),
                    content@ == JsonV::Array(list_view(items@)),
                    message@.get("content"@) == Some(content@),
                    forall|k: int| 0 <= k < i ==> !is_call(#[trigger] list_view(items@)[k]),
                decreases items@.len() - i,
            {
                if is_tool_binding_block(&items[i]) {
                    assert(of_kind(list_view(items@)[i as int], BlockKind::Call));
                    return Ok(true);
                }
                i = i + 1;
            }
            Ok(false)
        },
        None => Err("thinking continuity assistant content is invalid".to_owned()),
    }
}

/// The fault of a response that is not a complete message.
pub open spec fn response_fault(response: JsonV) -> Option<Seq<char>> {
    if !(response is Object) {
        Some("thinking continuity response is not a message"@)
    } else if response.text_at("type"@) != Some("message"@) || response.text_at("role"@) != Some("assistant"@)
        || !bounded(response.text_at("id"@), MAX_ID_BYTES as int) || !bounded(
        response.text_at("model"@),
        MAX_MODEL_BYTES as int,
    ) || !bounded(response.text_at("stop_reason"@), MAX_ID_BYTES as int) || !(response.get("usage"@) matches Some(
        JsonV::Object(_),
    )) {
        Some("thinking continuity response is incomplete"@)
    } else {
        match response.items_at("content"@) {
            Some(items) => if items.len() == 0 || items.len() > MAX_CONTENT_BLOCKS {
                Some("thinking continuity response content is invalid"@)
            } else {
                None
            },
            None => Some("thinking continuity response content is invalid"@),
        }
    }
}

/// Checks that a response is a complete message.
pub fn validate_complete_response(response: &Json) -> (out: Result<(), String>)
    ensures
        match (out, response_fault(response@)) {
            (Ok(_), None) => true,
            (Err(e), Some(reason)) => e@ == reason,
            _ => false,
        },
{
    if !response.is_object() {
        return Err("thinking continuity response is not a message".to_owned());
    }
    let has_usage = match response.get("usage") {
        Some(usage) => usage.is_object(),
        None => false,
    };
    if !response.has_text("type", "message") || !response.has_text("role", "assistant") || !is_bounded(
        response.str_at("id"),
        MAX_ID_BYTES,
    ) || !is_bounded(response.str_at("model"), MAX_MODEL_BYTES) || !is_bounded(
        response.str_at("stop_reason"),
        MAX_ID_BYTES,
    ) || !has_usage {
        return Err("thinking continuity response is incomplete".to_owned());
    }
    match response.array_at("content") {
        Some(items) => {
            if items.len() == 0 || items.len() > MAX_CONTENT_BLOCKS {
                return Err("thinking continuity response content is invalid".to_owned());
            }
            Ok(())
        },
        None => Err("thinking continuity response content is invalid".to_owned()),
    }
}

/// Whether a request turns reasoning off.
pub open spec fn no_reasoning_wanted(request: JsonV) -> bool {
    match request.get("thinking"@) {
        Some(thinking) => thinking.text_at("type"@) == Some("disabled"@) || thinking.text_at("type"@) == Some("none"@),
        None => false,
    }
}

pub fn request_has_explicit_no_reasoning(request: &Json) -> (yes: bool)
    ensures
        yes == no_reasoning_wanted(request@),
{
    match request.get("thinking") {
        Some(thinking) => thinking.has_text("type", "disabled") || thinking.has_text("type", "none"),
        None => false,
    }
}

/// A tool result's text as a block.
pub open spec fn result_as_block(tree: JsonV) -> JsonV {
    match (tree.text_at("type"@) == Some("tool_result"@), tree.get("content"@)) {
        (true, Some(JsonV::Str(text))) => tree.with("content"@, JsonV::Array(seq![text_block(text)])),
        _ => tree,
    }
}

/// A part of the history as the fingerprint sees it: no cache markers, and the text of a tool result
/// as a block.
pub open spec fn normalized(tree: JsonV) -> JsonV
    decreases tree,
{
    match tree {
        JsonV::Array(items) => JsonV::Array(
            Seq::new(items.len(), |i: int| if 0 <= i < items.len() { normalized(items[i]) } else { arbitrary() }),
        ),
        JsonV::Object(entries) => result_as_block(JsonV::Object(normalized_entries(entries)).without("cache_control"@)),
        _ => tree,
    }
}

pub open spec fn normalized_entries(entries: Seq<(Seq<char>, JsonV)>) -> Seq<(Seq<char>, JsonV)>
    decreases entries,
{
    if entries.len() == 0 {
        Seq::empty()
    } else {
        normalized_entries(entries.drop_last()).push((entries.last().0, normalized(entries.last().1)))
    }
}

fn normalize_history_for_fingerprint(value: &Json) -> (out: Json)
    ensures
        out@ == normalized(value@),
    decreases value,
{
    match value {
        Json::Array(items) => {
            let ghost all = normalized(value@)->Array_0;
            let mut out: Vec<Json> = Vec::new();
            let mut i: usize = 0;
            while i < items.len()
                invariant
                    i <= items@.len(),
                    value == Json::Array(*items),
                    normalized(value@) == JsonV::Array(all),
                    all.len() == items@.len(),
                    list_view(out@) == all.take(i as int),
                decreases items@.len() - i,
            {
                proof {
                    item_is_smaller(*items, i as int);
                }
                out.push(normalize_history_for_fingerprint(&items[i]));
                assert(all[i as int] == normalized(list_view(items@)[i as int]));
                assert(all.take(i + 1) =~= all.take(i as int).push(all[i as int]));
                i = i + 1;
            }
            assert(all.take(i as int) =~= all);
            Json::Array(out)
        },
        Json::Object(entries) => {
            let ghost all = entries_view(entries@);
            let mut filled: Vec<(String, Json)> = Vec::new();
            assert(entries_view(filled@) =~= Seq::empty());
            let mut i: usize = 0;
            while i < entries.len()
                invariant
                    i <= entries@.len(),
                    value == Json::Object(*entries),
                    value@ == JsonV::Object(all),
                    all == entries_view(entries@),
                    entries_view(filled@) == normalized_entries(all.take(i as int)),
                decreases entries@.len() - i,
            {
                proof {
                    entry_is_smaller(*entries, i as int);
                }
                assert(all.take(i + 1).drop_last() =~= all.take(i as int));
                assert(all[i as int] == (entries@[i as int].0@, entries@[i as int].1@));
                filled.push((entries[i].0.clone(), normalize_history_for_fingerprint(&entries[i].1)));
                i = i + 1;
            }
            assert(all.take(i as int) =~= all);
            let mut out = Json::Object(filled);
            let _ = out.unset("cache_control");
            let text = if out.has_text("type", "tool_result") {
                match out.str_at("content") {
                    Some(text) => Some(text.to_owned()),
                    None => None,
                }
            } else {
                None
            };
            if let Some(text) = text {
                let mut items: Vec<Json> = Vec::new();
                items.push(Json::typed("text", "text", text.as_str()));
                assert(list_view(items@) =~= seq![text_block(text@)]);
                out.set("content", Json::array(items));
            }
            out
        },
        _ => value.copy(),
    }
}

/// A message as the fingerprint sees it: a text as a block, the reasoning of an assistant left out.
pub open spec fn visible_message(message: JsonV) -> Result<JsonV, Seq<char>> {
    let assistant = message.text_at("role"@) == Some("assistant"@);
    match message.get("content"@) {
        None => if assistant {
            Err("thinking continuity assistant content is missing"@)
        } else {
            Ok(normalized(message))
        },
        Some(content) => match as_blocks(content) {
            Some(items) => Ok(
                normalized(
                    message.with(
                        "content"@,
                        JsonV::Array(
                            if assistant {
                                without_reasoning(items)
                            } else {
                                items
                            },
                        ),
                    ),
                ),
            ),
            None => if assistant {
                Err("thinking continuity assistant content is invalid"@)
            } else {
                Ok(normalized(message))
            },
        },
    }
}

/// The blocks that are no reasoning.
pub open spec fn without_reasoning(items: Seq<JsonV>) -> Seq<JsonV>
    decreases items.len(),
{
    if items.len() == 0 {
        Seq::empty()
    } else if is_reasoning(items.last()) {
        without_reasoning(items.drop_last())
    } else {
        without_reasoning(items.drop_last()).push(items.last())
    }
}

fn drop_reasoning(items: &Vec<Json>) -> (out: Vec<Json>)
    ensures
        list_view(out@) == without_reasoning(list_view(items@)),
{
    let ghost all = list_view(items@);
    let mut out: Vec<Json> = Vec::new();
    let mut i: usize = 0;
    while i < items.len()
        invariant
            i <= items@.len(),
            all == list_view(items@),
            list_view(out@) == without_reasoning(all.take(i as int)),
        decreases items@.len() - i,
    {
        assert(all.take(i + 1).drop_last() =~= all.take(i as int));
        if !is_reasoning_block(&items[i]) {
            out.push(items[i].copy());
        }
        i = i + 1;
    }
    assert(all.take(i as int) =~= all);
    out
}

fn read_visible(message: &Json) -> (out: Result<Json, String>)
    ensures
        match (out, visible_message(message@)) {
            (Ok(value), Ok(tree)) => value@ == tree,
            (Err(e), Err(reason)) => e@ == reason,
            _ => false,
        },
{
    let assistant = message.has_text("role", "assistant");
    match message.get("content") {
        None => {
            if assistant {
                Err("thinking continuity assistant content is missing".to_owned())
            } else {
                Ok(normalize_history_for_fingerprint(message))
            }
        },
        Some(content) => match content_blocks(content) {
            Some(items) => {
                let kept = if assistant {
                    drop_reasoning(&items)
                } else {
                    items
                };
                let mut visible = message.copy();
                visible.set("content", Json::array(kept));
                Ok(normalize_history_for_fingerprint(&visible))
            },
            None => {
                if assistant {
                    Err("thinking continuity assistant content is invalid".to_owned())
                } else {
                    Ok(normalize_history_for_fingerprint(message))
                }
            },
        },
    }
}

/// The messages as the fingerprint sees them.
pub open spec fn visible_messages(messages: Seq<JsonV>) -> Result<Seq<JsonV>, Seq<char>>
    decreases messages.len(),
{
    if messages.len() == 0 {
        Ok(Seq::empty())
    } else {
        match (visible_messages(messages.drop_last()), visible_message(messages.last())) {
            (Err(e), _) => Err(e),
            (_, Err(e)) => Err(e),
            (Ok(before), Ok(last)) => Ok(before.push(last)),
        }
    }
}

proof fn visible_stays(messages: Seq<JsonV>, i: int)
    requires
        0 <= i <= messages.len(),
        visible_messages(messages.take(i)) is Err,
    ensures
        visible_messages(messages) == visible_messages(messages.take(i)),
    decreases messages.len() - i,
{
    if i < messages.len() {
        assert(messages.take(i + 1).drop_last() =~= messages.take(i));
        visible_stays(messages, i + 1);
    } else {
        assert(messages.take(i) =~= messages);
    }
}

/// The bytes that a fingerprint is taken of: the model and the visible history up to a message.
pub open spec fn history_bytes(messages: Seq<JsonV>, end: int, model: Seq<char>) -> Result<Seq<u8>, Seq<char>> {
    if end >= messages.len() {
        Err("thinking continuity history prefix is invalid"@)
    } else {
        match visible_messages(messages.take(end + 1)) {
            Err(e) => Err(e),
            Ok(prefix) => {
                let envelope = JsonV::object().and("model"@, JsonV::Str(model)).and("messages"@, JsonV::Array(prefix));
                let bytes = encode_utf8(rendered(canonical(envelope)));
                if bytes.len() > MAX_FINGERPRINT_INPUT_BYTES {
                    Err("thinking continuity history prefix is too large"@)
                } else {
                    Ok(bytes)
                }
            },
        }
    }
}

/// Writes the bytes that a fingerprint is taken of.
pub fn visible_history_bytes(messages: &Vec<Json>, end: usize, model: &str) -> (out: Result<Vec<u8>, String>)
    ensures
        match (out, history_bytes(list_view(messages@), end as int, model@)) {
            (Ok(bytes), Ok(meant)) => bytes@ == meant,
            (Err(e), Err(reason)) => e@ == reason,
            _ => false,
        },
{
    if end >= messages.len() {
        return Err("thinking continuity history prefix is invalid".to_owned());
    }
    let n: usize = messages.len();
    let ghost all = list_view(messages@).take(end + 1);
    let mut prefix: Vec<Json> = Vec::new();
    let mut i: usize = 0;
    while i <= end
        invariant
            i <= end + 1,
            end < n,
            n == messages@.len(),
            all == list_view(messages@).take(end + 1),
            visible_messages(all.take(i as int)) == Ok::<Seq<JsonV>, Seq<char>>(list_view(prefix@)),
        decreases end + 1 - i,
    {
        assert(all.take(i + 1).drop_last() =~= all.take(i as int));
        assert(all[i as int] == list_view(messages@)[i as int]);
        match read_visible(&messages[i]) {
            Ok(visible) => {
                prefix.push(visible);
            },
            Err(e) => {
                proof {
                    visible_stays(all, i + 1);
                }
                return Err(e);
            },
        }
        i = i + 1;
    }
    assert(all.take(i as int) =~= all);
    let envelope = Json::object().and("model", Json::text(model)).and("messages", Json::array(prefix));
    let text = canonicalize(&envelope).render();
    let bytes = text.as_str().as_bytes_vec();
    if bytes.len() > MAX_FINGERPRINT_INPUT_BYTES {
        return Err("thinking continuity history prefix is too large".to_owned());
    }
    Ok(bytes)
}

/// What binds stored reasoning to a call: the tool and its input.
pub struct ToolBinding {
    pub id: String,
    pub name: String,
    pub input_digest: String,
}

#[verifier::ext_equal]
pub struct BindingV {
    pub id: Seq<char>,
    pub name: Seq<char>,
    pub input_digest: Seq<char>,
}

impl View for ToolBinding {
    type V = BindingV;

    open spec fn view(&self) -> BindingV {
        BindingV { id: self.id@, name: self.name@, input_digest: self.input_digest@ }
    }
}

pub open spec fn bindings_view(tools: Seq<ToolBinding>) -> Seq<BindingV> {
    tools.map_values(|t: ToolBinding| t@)
}

/// The canonical text of a tool's input.
pub open spec fn input_bytes(input: JsonV) -> Seq<u8> {
    encode_utf8(rendered(canonical(input)))
}

pub open spec fn binding_of(block: JsonV) -> Result<BindingV, Seq<char>> {
    if !bounded(block.text_at("id"@), MAX_ID_BYTES as int) {
        Err("thinking continuity tool id is invalid"@)
    } else if !bounded(block.text_at("name"@), MAX_TOOL_NAME_BYTES as int) {
        Err("thinking continuity tool name is invalid"@)
    } else {
        match block.get("input"@) {
            None => Err("thinking continuity tool input is missing"@),
            Some(input) => if input_bytes(input).len() > MAX_ENTRY_BYTES {
                Err("thinking continuity tool input is too large"@)
            } else {
                Ok(
                    BindingV {
                        id: block.text_at("id"@).unwrap(),
                        name: block.text_at("name"@).unwrap(),
                        input_digest: hex(sha256(input_bytes(input))),
                    },
                )
            },
        }
    }
}

pub open spec fn block_bindings(blocks: Seq<JsonV>) -> Result<Seq<BindingV>, Seq<char>>
    decreases blocks.len(),
{
    if blocks.len() == 0 {
        Ok(Seq::empty())
    } else {
        match block_bindings(blocks.drop_last()) {
            Err(e) => Err(e),
            Ok(tools) => if !is_call(blocks.last()) {
                Ok(tools)
            } else if tools.len() >= MAX_REASONING_BLOCKS {
                Err("thinking continuity response has too many tool bindings"@)
            } else {
                match binding_of(blocks.last()) {
                    Err(e) => Err(e),
                    Ok(tool) => Ok(tools.push(tool)),
                }
            },
        }
    }
}

/// The calls of a message that reasoning is bound to.
pub open spec fn bindings(message: JsonV) -> Result<Seq<BindingV>, Seq<char>> {
    match message.get("content"@) {
        None => Err("thinking continuity assistant content is missing"@),
        Some(JsonV::Array(blocks)) => block_bindings(blocks),
        Some(_) => Ok(Seq::empty()),
    }
}

proof fn bindings_stay(blocks: Seq<JsonV>, i: int)
    requires
        0 <= i <= blocks.len(),
        block_bindings(blocks.take(i)) is Err,
    ensures
        block_bindings(blocks) == block_bindings(blocks.take(i)),
    decreases blocks.len() - i,
{
    if i < blocks.len() {
        assert(blocks.take(i + 1).drop_last() =~= blocks.take(i));
        bindings_stay(blocks, i + 1);
    } else {
        assert(blocks.take(i) =~= blocks);
    }
}

fn bind_call(block: &Json) -> (out: Result<ToolBinding, String>)
    ensures
        match (out, binding_of(block@)) {
            (Ok(tool), Ok(meant)) => tool@ == meant,
            (Err(e), Err(reason)) => e@ == reason,
            _ => false,
        },
{
    let id = block.str_at("id");
    if !is_bounded(id, MAX_ID_BYTES) {
        return Err("thinking continuity tool id is invalid".to_owned());
    }
    let name = block.str_at("name");
    if !is_bounded(name, MAX_TOOL_NAME_BYTES) {
        return Err("thinking continuity tool name is invalid".to_owned());
    }
    let encoded = match block.get("input") {
        Some(input) => canonicalize(input).render(),
        None => {
            return Err("thinking continuity tool input is missing".to_owned());
        },
    };
    let bytes = encoded.as_str().as_bytes_vec();
    if bytes.len() > MAX_ENTRY_BYTES {
        return Err("thinking continuity tool input is too large".to_owned());
    }
    let input_digest = hex_bytes(digest(bytes.as_slice()).as_slice());
    Ok(ToolBinding { id: str_or_nothing(block, "id").to_owned(), name: str_or_nothing(block, "name").to_owned(), input_digest })
}

/// Reads the calls of a message that reasoning is bound to.
pub fn tool_bindings(message: &Json) -> (out: Result<Vec<ToolBinding>, String>)
    ensures
        match (out, bindings(message@)) {
            (Ok(tools), Ok(meant)) => bindings_view(tools@) == meant,
            (Err(e), Err(reason)) => e@ == reason,
            _ => false,
        },
{
    let mut tools: Vec<ToolBinding> = Vec::new();
    assert(bindings_view(tools@) =~= Seq::empty());
    let content = match message.get("content") {
        Some(content) => content,
        None => {
            return Err("thinking continuity assistant content is missing".to_owned());
        },
    };
    let blocks = match content.as_array() {
        Some(blocks) => blocks,
        None => {
            return Ok(tools);
        },
    };
    let ghost all = list_view(blocks@);
    let mut i: usize = 0;
    while i < blocks.len()
        invariant
            i <= blocks@.len(),
            all == list_view(blocks@),
            message@.get("content"@) == Some(JsonV::Array(all)),
            block_bindings(all.take(i as int)) == Ok::<Seq<BindingV>, Seq<char>>(bindings_view(tools@)),
        decreases blocks@.len() - i,
    {
        assert(all.take(i + 1).drop_last() =~= all.take(i as int));
        if is_tool_binding_block(&blocks[i]) {
            if tools.len() >= MAX_REASONING_BLOCKS {
                proof {
                    assert(bindings_view(tools@).len() == tools@.len());
                    bindings_stay(all, i + 1);
                }
                return Err("thinking continuity response has too many tool bindings".to_owned());
            }
            match bind_call(&blocks[i]) {
                Ok(tool) => {
                    let ghost before = bindings_view(tools@);
                    let ghost added = tool@;
                    tools.push(tool);
                    assert(bindings_view(tools@) =~= before.push(added));
                },
                Err(e) => {
                    proof {
                        bindings_stay(all, i + 1);
                    }
                    return Err(e);
                },
            }
        }
        i = i + 1;
    }
    assert(all.take(i as int) =~= all);
    Ok(tools)
}

pub const MAGIC: &'static str = "CSSWITCH-ANTHROPIC-REASONING-V1\n";

pub const ENCRYPTION_DOMAIN: &'static str = "csswitch/anthropic-reasoning-sidecar/aead/v1\0";

pub const LOOKUP_DOMAIN: &'static str = "csswitch/anthropic-reasoning-sidecar/lookup/v1\0";

pub const FINGERPRINT_DOMAIN: &'static str = "csswitch/anthropic-reasoning-sidecar/fingerprint/v1\0";

/// The bytes that every entry starts with, and that its encryption is bound to.
pub open spec fn magic() -> Seq<u8> {
    encode_utf8(MAGIC@)
}

/// The key of a scope for one purpose.
pub open spec fn scope_key(
    credential: Seq<char>,
    domain: Seq<char>,
    contract: Seq<char>,
    endpoint: Seq<char>,
    profile_scope: Seq<char>,
) -> Seq<u8> {
    hmac_sha256(
        encode_utf8(credential),
        encode_utf8(domain) + field(encode_utf8(contract)) + field(encode_utf8(endpoint)) + field(
            encode_utf8(profile_scope),
        ),
    )
}

fn derive_scope_key(credential: &str, domain: &str, contract: &str, endpoint: &str, profile_scope: &str) -> (key: Vec<
    u8,
>)
    ensures
        key@ == scope_key(credential@, domain@, contract@, endpoint@, profile_scope@),
        key@.len() == KEY_BYTES,
{
    let mut message = domain.as_bytes_vec();
    push_field(&mut message, contract.as_bytes());
    push_field(&mut message, endpoint.as_bytes());
    push_field(&mut message, profile_scope.as_bytes());
    authenticate(credential.as_bytes(), message.as_slice())
}

/// The fingerprint of a history under a key.
pub open spec fn fingerprint(lookup_key: Seq<u8>, bytes: Seq<u8>) -> Seq<char> {
    hex(hmac_sha256(lookup_key, encode_utf8(FINGERPRINT_DOMAIN@) + field(bytes)))
}

/// The fingerprint of the visible history up to a message.
pub open spec fn history_fingerprint(lookup_key: Seq<u8>, messages: Seq<JsonV>, end: int, model: Seq<char>) -> Result<
    Seq<char>,
    Seq<char>,
> {
    match history_bytes(messages, end, model) {
        Err(e) => Err(e),
        Ok(bytes) => Ok(fingerprint(lookup_key, bytes)),
    }
}

pub open spec fn entry_name(fingerprint: Seq<char>) -> Seq<char> {
    fingerprint + ".rsn"@
}

/// What is stored of a turn.
pub struct StoredEntry {
    pub version: u8,
    pub created_at: u64,
    pub fingerprint: String,
    pub model: String,
    pub policy: RestorePolicy,
    pub tools: Vec<ToolBinding>,
    pub no_reasoning: bool,
    pub blocks: Vec<StoredBlock>,
}

#[verifier::ext_equal]
pub struct EntryV {
    pub version: u8,
    pub created_at: u64,
    pub fingerprint: Seq<char>,
    pub model: Seq<char>,
    pub policy: RestorePolicy,
    pub tools: Seq<BindingV>,
    pub no_reasoning: bool,
    pub blocks: Seq<(usize, JsonV)>,
}

impl View for StoredEntry {
    type V = EntryV;

    open spec fn view(&self) -> EntryV {
        EntryV {
            version: self.version,
            created_at: self.created_at,
            fingerprint: self.fingerprint@,
            model: self.model@,
            policy: self.policy,
            tools: bindings_view(self.tools@),
            no_reasoning: self.no_reasoning,
            blocks: stored_view(self.blocks@),
        }
    }
}

pub open spec fn binding_json(tool: BindingV) -> JsonV {
    JsonV::object().and("id"@, JsonV::Str(tool.id)).and("name"@, JsonV::Str(tool.name)).and(
        "input_digest"@,
        JsonV::Str(tool.input_digest),
    )
}

pub open spec fn block_json(block: (usize, JsonV)) -> JsonV {
    JsonV::object().and("index"@, number(block.0 as u64)).and("block"@, block.1)
}

/// An entry as JSON.
pub open spec fn entry_json(entry: EntryV) -> JsonV {
    JsonV::object().and("version"@, number(entry.version as u64)).and("created_at"@, number(entry.created_at)).and(
        "fingerprint"@,
        JsonV::Str(entry.fingerprint),
    ).and("model"@, JsonV::Str(entry.model)).and("policy"@, JsonV::Str("DeepSeekToolUse"@)).and(
        "tools"@,
        JsonV::Array(entry.tools.map_values(|t: BindingV| binding_json(t))),
    ).and("no_reasoning"@, JsonV::Bool(entry.no_reasoning)).and(
        "blocks"@,
        JsonV::Array(entry.blocks.map_values(|b: (usize, JsonV)| block_json(b))),
    )
}

fn write_tools(tools: &Vec<ToolBinding>) -> (items: Vec<Json>)
    ensures
        list_view(items@) == bindings_view(tools@).map_values(|t: BindingV| binding_json(t)),
{
    let ghost all = bindings_view(tools@).map_values(|t: BindingV| binding_json(t));
    let mut items: Vec<Json> = Vec::new();
    let mut i: usize = 0;
    while i < tools.len()
        invariant
            i <= tools@.len(),
            all == bindings_view(tools@).map_values(|t: BindingV| binding_json(t)),
            list_view(items@) == all.take(i as int),
        decreases tools@.len() - i,
    {
        assert(all.take(i + 1) =~= all.take(i as int).push(all[i as int]));
        assert(all[i as int] == binding_json(tools@[i as int]@));
        items.push(
            Json::object().and("id", Json::text(tools[i].id.as_str())).and("name", Json::text(tools[i].name.as_str())).and(
                "input_digest",
                Json::text(tools[i].input_digest.as_str()),
            ),
        );
        i = i + 1;
    }
    assert(all.take(i as int) =~= all);
    items
}

fn write_blocks(blocks: &Vec<StoredBlock>) -> (items: Vec<Json>)
    ensures
        list_view(items@) == stored_view(blocks@).map_values(|b: (usize, JsonV)| block_json(b)),
{
    let ghost all = stored_view(blocks@).map_values(|b: (usize, JsonV)| block_json(b));
    let mut items: Vec<Json> = Vec::new();
    let mut i: usize = 0;
    while i < blocks.len()
        invariant
            i <= blocks@.len(),
            all == stored_view(blocks@).map_values(|b: (usize, JsonV)| block_json(b)),
            list_view(items@) == all.take(i as int),
        decreases blocks@.len() - i,
    {
        assert(all.take(i + 1) =~= all.take(i as int).push(all[i as int]));
        assert(all[i as int] == block_json((blocks@[i as int].index, blocks@[i as int].block@)));
        items.push(
            Json::object().and("index", Json::unsigned(blocks[i].index as u64)).and("block", blocks[i].block.copy()),
        );
        i = i + 1;
    }
    assert(all.take(i as int) =~= all);
    items
}

fn write_entry(entry: &StoredEntry) -> (tree: Json)
    ensures
        tree@ == entry_json(entry@),
{
    Json::object().and("version", Json::unsigned(entry.version as u64)).and(
        "created_at",
        Json::unsigned(entry.created_at),
    ).and("fingerprint", Json::text(entry.fingerprint.as_str())).and("model", Json::text(entry.model.as_str())).and(
        "policy",
        Json::text("DeepSeekToolUse"),
    ).and("tools", Json::array(write_tools(&entry.tools))).and("no_reasoning", Json::Bool(entry.no_reasoning)).and(
        "blocks",
        Json::array(write_blocks(&entry.blocks)),
    )
}

pub open spec fn entry_keys() -> Seq<Seq<char>> {
    seq![
        "version"@,
        "created_at"@,
        "fingerprint"@,
        "model"@,
        "policy"@,
        "tools"@,
        "no_reasoning"@,
        "blocks"@,
    ]
}

pub open spec fn binding_keys() -> Seq<Seq<char>> {
    seq!["id"@, "name"@, "input_digest"@]
}

pub open spec fn block_keys() -> Seq<Seq<char>> {
    seq!["index"@, "block"@]
}

/// Whether a tree is an object of no keys but these.
pub open spec fn object_of(tree: JsonV, allowed: Seq<Seq<char>>) -> bool {
    match tree {
        JsonV::Object(entries) => only_keys(entries, allowed),
        _ => false,
    }
}

pub open spec fn binding_from(record: JsonV) -> Option<BindingV> {
    let tree = named(record, binding_keys());
    match (tree.text_at("id"@), tree.text_at("name"@), tree.text_at("input_digest"@)) {
        (Some(id), Some(name), Some(input_digest)) => if object_of(tree, binding_keys()) {
            Some(BindingV { id, name, input_digest })
        } else {
            None
        },
        _ => None,
    }
}

pub open spec fn block_from(record: JsonV) -> Option<(usize, JsonV)> {
    let tree = named(record, block_keys());
    match (tree.unsigned_at("index"@), tree.get("block"@)) {
        (Some(index), Some(block)) => if object_of(tree, block_keys()) && index <= usize::MAX {
            Some((index as usize, block))
        } else {
            None
        },
        _ => None,
    }
}

pub open spec fn bindings_from(items: Seq<JsonV>) -> Option<Seq<BindingV>>
    decreases items.len(),
{
    if items.len() == 0 {
        Some(Seq::empty())
    } else {
        match (bindings_from(items.drop_last()), binding_from(items.last())) {
            (Some(before), Some(last)) => Some(before.push(last)),
            _ => None,
        }
    }
}

pub open spec fn blocks_from(items: Seq<JsonV>) -> Option<Seq<(usize, JsonV)>>
    decreases items.len(),
{
    if items.len() == 0 {
        Some(Seq::empty())
    } else {
        match (blocks_from(items.drop_last()), block_from(items.last())) {
            (Some(before), Some(last)) => Some(before.push(last)),
            _ => None,
        }
    }
}

/// Whether reasoning was turned off; an entry need not say.
pub open spec fn no_reasoning_from(tree: JsonV) -> Option<bool> {
    match tree.get("no_reasoning"@) {
        None => Some(false),
        Some(JsonV::Bool(b)) => Some(b),
        Some(_) => None,
    }
}

/// Whether JSON stands for the one policy: its name, or an object that gives the name nothing.
pub open spec fn is_policy(value: Option<JsonV>) -> bool {
    match value {
        Some(JsonV::Str(name)) => name == "DeepSeekToolUse"@,
        Some(JsonV::Object(entries)) => entries.len() == 1 && entries[0] == ("DeepSeekToolUse"@, JsonV::Null),
        _ => false,
    }
}

/// The entry that JSON stands for; nothing where a field is missing, strange or unknown. An entry, and each
/// of its tools and blocks, is an object or an array of the fields in their order.
pub open spec fn entry_from(record: JsonV) -> Option<EntryV> {
    let tree = named(record, entry_keys());
    let tools = match tree.items_at("tools"@) {
        Some(items) => bindings_from(items),
        None => None,
    };
    let blocks = match tree.items_at("blocks"@) {
        Some(items) => blocks_from(items),
        None => None,
    };
    let version = tree.unsigned_at("version"@);
    let created_at = tree.unsigned_at("created_at"@);
    let fingerprint = tree.text_at("fingerprint"@);
    let model = tree.text_at("model"@);
    if object_of(tree, entry_keys()) && version is Some && version.unwrap() <= 255 && created_at is Some && fingerprint
        is Some && model is Some && is_policy(tree.get("policy"@)) && tools is Some
        && no_reasoning_from(tree) is Some && blocks is Some {
        Some(
            EntryV {
                version: version.unwrap() as u8,
                created_at: created_at.unwrap(),
                fingerprint: fingerprint.unwrap(),
                model: model.unwrap(),
                policy: RestorePolicy::DeepSeekToolUse,
                tools: tools.unwrap(),
                no_reasoning: no_reasoning_from(tree).unwrap(),
                blocks: blocks.unwrap(),
            },
        )
    } else {
        None
    }
}

pub fn is_object_of(tree: &Json, allowed: &Vec<String>) -> (yes: bool)
    ensures
        yes == object_of(tree@, texts(allowed@)),
{
    match tree.as_object() {
        Some(entries) => has_only_keys(entries, allowed),
        None => false,
    }
}

fn read_tool(record: &Json) -> (out: Option<ToolBinding>)
    ensures
        match (out, binding_from(record@)) {
            (Some(tool), Some(meant)) => tool@ == meant,
            (None, None) => true,
            _ => false,
        },
{
    let mut allowed: Vec<String> = Vec::new();
    allowed.push("id".to_owned());
    allowed.push("name".to_owned());
    allowed.push("input_digest".to_owned());
    assert(texts(allowed@) =~= binding_keys());
    let tree = name_fields(record, &allowed);
    if !is_object_of(&tree, &allowed) {
        return None;
    }
    let id = tree.str_at("id");
    let name = tree.str_at("name");
    let input_digest = tree.str_at("input_digest");
    match (id, name, input_digest) {
        (Some(id), Some(name), Some(input_digest)) => Some(
            ToolBinding { id: id.to_owned(), name: name.to_owned(), input_digest: input_digest.to_owned() },
        ),
        _ => None,
    }
}

fn read_block(record: &Json) -> (out: Option<StoredBlock>)
    ensures
        match (out, block_from(record@)) {
            (Some(block), Some(meant)) => (block.index, block.block@) == meant,
            (None, None) => true,
            _ => false,
        },
{
    let mut allowed: Vec<String> = Vec::new();
    allowed.push("index".to_owned());
    allowed.push("block".to_owned());
    assert(texts(allowed@) =~= block_keys());
    let tree = name_fields(record, &allowed);
    if !is_object_of(&tree, &allowed) {
        return None;
    }
    match (tree.u64_at("index"), tree.get("block")) {
        (Some(index), Some(block)) => {
            if index > usize::MAX as u64 {
                return None;
            }
            Some(StoredBlock { index: index as usize, block: block.copy() })
        },
        _ => None,
    }
}

proof fn bindings_from_stay(items: Seq<JsonV>, i: int)
    requires
        0 <= i <= items.len(),
        bindings_from(items.take(i)) is None,
    ensures
        bindings_from(items) is None,
    decreases items.len() - i,
{
    if i < items.len() {
        assert(items.take(i + 1).drop_last() =~= items.take(i));
        bindings_from_stay(items, i + 1);
    } else {
        assert(items.take(i) =~= items);
    }
}

proof fn blocks_from_stay(items: Seq<JsonV>, i: int)
    requires
        0 <= i <= items.len(),
        blocks_from(items.take(i)) is None,
    ensures
        blocks_from(items) is None,
    decreases items.len() - i,
{
    if i < items.len() {
        assert(items.take(i + 1).drop_last() =~= items.take(i));
        blocks_from_stay(items, i + 1);
    } else {
        assert(items.take(i) =~= items);
    }
}

fn read_tools(items: &Vec<Json>) -> (out: Option<Vec<ToolBinding>>)
    ensures
        match (out, bindings_from(list_view(items@))) {
            (Some(tools), Some(meant)) => bindings_view(tools@) == meant,
            (None, None) => true,
            _ => false,
        },
{
    let ghost all = list_view(items@);
    let mut tools: Vec<ToolBinding> = Vec::new();
    assert(bindings_view(tools@) =~= Seq::empty());
    let mut i: usize = 0;
    while i < items.len()
        invariant
            i <= items@.len(),
            all == list_view(items@),
            bindings_from(all.take(i as int)) == Some(bindings_view(tools@)),
        decreases items@.len() - i,
    {
        assert(all.take(i + 1).drop_last() =~= all.take(i as int));
        match read_tool(&items[i]) {
            Some(tool) => {
                let ghost before = bindings_view(tools@);
                let ghost added = tool@;
                tools.push(tool);
                assert(bindings_view(tools@) =~= before.push(added));
            },
            None => {
                proof {
                    bindings_from_stay(all, i + 1);
                }
                return None;
            },
        }
        i = i + 1;
    }
    assert(all.take(i as int) =~= all);
    Some(tools)
}

fn read_blocks(items: &Vec<Json>) -> (out: Option<Vec<StoredBlock>>)
    ensures
        match (out, blocks_from(list_view(items@))) {
            (Some(blocks), Some(meant)) => stored_view(blocks@) == meant,
            (None, None) => true,
            _ => false,
        },
{
    let ghost all = list_view(items@);
    let mut blocks: Vec<StoredBlock> = Vec::new();
    assert(stored_view(blocks@) =~= Seq::empty());
    let mut i: usize = 0;
    while i < items.len()
        invariant
            i <= items@.len(),
            all == list_view(items@),
            blocks_from(all.take(i as int)) == Some(stored_view(blocks@)),
        decreases items@.len() - i,
    {
        assert(all.take(i + 1).drop_last() =~= all.take(i as int));
        match read_block(&items[i]) {
            Some(block) => {
                let ghost before = stored_view(blocks@);
                let ghost added = (block.index, block.block@);
                blocks.push(block);
                assert(stored_view(blocks@) =~= before.push(added));
            },
            None => {
                proof {
                    blocks_from_stay(all, i + 1);
                }
                return None;
            },
        }
        i = i + 1;
    }
    assert(all.take(i as int) =~= all);
    Some(blocks)
}

fn read_no_reasoning(tree: &Json) -> (out: Option<bool>)
    ensures
        out == no_reasoning_from(tree@),
{
    match tree.get("no_reasoning") {
        None => Some(false),
        Some(value) => match value {
            Json::Bool(b) => Some(*b),
            _ => None,
        },
    }
}

fn read_policy(value: Option<&Json>) -> (yes: bool)
    ensures
        yes == is_policy(match value {
            Some(v) => Some(v@),
            None => None,
        }),
{
    match value {
        Some(Json::Str(name)) => same(name.as_str(), "DeepSeekToolUse"),
        Some(Json::Object(entries)) => {
            if entries.len() != 1 {
                return false;
            }
            assert(entries_view(entries@)[0] == (entries@[0].0@, entries@[0].1@));
            match &entries[0].1 {
                Json::Null => same(entries[0].0.as_str(), "DeepSeekToolUse"),
                _ => false,
            }
        },
        _ => false,
    }
}

fn read_entry(record: &Json) -> (out: Option<StoredEntry>)
    ensures
        match (out, entry_from(record@)) {
            (Some(entry), Some(meant)) => entry@ == meant,
            (None, None) => true,
            _ => false,
        },
{
    let mut allowed: Vec<String> = Vec::new();
    allowed.push("version".to_owned());
    allowed.push("created_at".to_owned());
    allowed.push("fingerprint".to_owned());
    allowed.push("model".to_owned());
    allowed.push("policy".to_owned());
    allowed.push("tools".to_owned());
    allowed.push("no_reasoning".to_owned());
    allowed.push("blocks".to_owned());
    assert(texts(allowed@) =~= entry_keys());
    let tree = name_fields(record, &allowed);
    if !is_object_of(&tree, &allowed) || !read_policy(tree.get("policy")) {
        return None;
    }
    let tools = match tree.array_at("tools") {
        Some(items) => read_tools(items),
        None => None,
    };
    let blocks = match tree.array_at("blocks") {
        Some(items) => read_blocks(items),
        None => None,
    };
    let version = tree.u64_at("version");
    let created_at = tree.u64_at("created_at");
    let fingerprint = tree.str_at("fingerprint");
    let model = tree.str_at("model");
    match (version, created_at, fingerprint, model, tools, read_no_reasoning(&tree), blocks) {
        (
            Some(version),
            Some(created_at),
            Some(fingerprint),
            Some(model),
            Some(tools),
            Some(no_reasoning),
            Some(blocks),
        ) => {
            if version > 255 {
                return None;
            }
            Some(
                StoredEntry {
                    version: version as u8,
                    created_at,
                    fingerprint: fingerprint.to_owned(),
                    model: model.to_owned(),
                    policy: RestorePolicy::DeepSeekToolUse,
                    tools,
                    no_reasoning,
                    blocks,
                },
            )
        },
        _ => None,
    }
}

/// How deep the records of an entry are: the entry, its lists, and the tools and blocks in them. What a
/// block holds is deeper, and there a key may stand twice.
pub const ENTRY_LEVELS: usize = 3;

/// The bytes of an entry besides its encrypted text.
pub open spec fn frame_bytes() -> nat {
    magic().len() + NONCE_BYTES as nat + TAG_BYTES as nat
}

/// The text of an entry before it is encrypted.
pub open spec fn entry_text(entry: EntryV) -> Seq<u8> {
    encode_utf8(rendered(entry_json(entry)))
}

/// Whether an entry is small enough to be stored.
pub open spec fn storable(entry: EntryV) -> bool {
    entry_text(entry).len() + frame_bytes() <= MAX_ENTRY_BYTES
}

/// The file of an entry.
pub open spec fn entry_file(encryption_key: Seq<u8>, entry: EntryV, nonce: Seq<u8>) -> Seq<u8> {
    magic() + nonce + sealed_bytes(encryption_key, nonce, magic(), entry_text(entry))
}

/// The entry that a decrypted text holds.
pub open spec fn entry_of_text(text: Seq<u8>) -> Result<EntryV, Seq<char>> {
    let tree = if valid_utf8(text) {
        json_parse(decode_utf8(text))
    } else {
        None
    };
    let entry = match tree {
        Some(t) => if names_fields_once(decode_utf8(text), t, ENTRY_LEVELS as nat) {
            entry_from(t)
        } else {
            None
        },
        None => None,
    };
    match entry {
        Some(e) => Ok(e),
        None => Err("thinking continuity entry payload is invalid"@),
    }
}

/// Reads the entry of a decrypted text.
pub fn read_plaintext(plaintext: Vec<u8>) -> (out: Result<StoredEntry, String>)
    ensures
        match (out, entry_of_text(plaintext@)) {
            (Ok(entry), Ok(meant)) => entry@ == meant,
            (Err(e), Err(reason)) => e@ == reason,
            _ => false,
        },
{
    let entry = match decode_strict(plaintext) {
        Some(text) => {
            let mut text = text;
            let entry = match Json::parse(text.as_str()) {
                Some(tree) => if fields_are_named_once(text.as_str(), &tree, ENTRY_LEVELS) {
                    read_entry(&tree)
                } else {
                    None
                },
                None => None,
            };
            wipe_text(&mut text);
            entry
        },
        None => None,
    };
    match entry {
        Some(entry) => Ok(entry),
        None => Err("thinking continuity entry payload is invalid".to_owned()),
    }
}

/// The entry that a file holds.
pub open spec fn entry_of_file(encryption_key: Seq<u8>, file: Seq<u8>) -> Result<EntryV, Seq<char>> {
    let m = magic().len() as int;
    if file.len() > MAX_ENTRY_BYTES || file.len() < frame_bytes() || !magic().is_prefix_of(file) {
        Err("thinking continuity entry is invalid"@)
    } else {
        match opened_bytes(encryption_key, file.subrange(m, m + NONCE_BYTES), magic(), file.skip(m + NONCE_BYTES)) {
            None => Err("thinking continuity entry authentication failed"@),
            Some(text) => entry_of_text(text),
        }
    }
}

/// The first fault of reasoning blocks.
pub open spec fn blocks_fault(blocks: Seq<(usize, JsonV)>) -> Option<Seq<char>>
    decreases blocks.len(),
{
    if blocks.len() == 0 {
        None
    } else {
        match blocks_fault(blocks.drop_last()) {
            Some(reason) => Some(reason),
            None => reasoning_fault(blocks.last().1),
        }
    }
}

/// Whether an entry belongs to a history, and is not too old.
pub open spec fn in_scope(entry: EntryV, fingerprint: Seq<char>, model: Seq<char>, policy: RestorePolicy, now: u64) -> bool {
    &&& entry.version == 1
    &&& entry.fingerprint == fingerprint
    &&& entry.model == model
    &&& entry.policy == policy
    &&& entry.tools.len() <= MAX_REASONING_BLOCKS
    &&& entry.blocks.len() <= MAX_REASONING_BLOCKS
    &&& now - entry.created_at <= ENTRY_TTL_SECONDS
    &&& if entry.no_reasoning {
        entry.tools.len() > 0 && entry.blocks.len() == 0
    } else {
        entry.blocks.len() > 0
    }
}

/// The fault of an entry for a history.
pub open spec fn entry_fault(
    entry: EntryV,
    fingerprint: Seq<char>,
    model: Seq<char>,
    policy: RestorePolicy,
    now: u64,
) -> Option<Seq<char>> {
    if !in_scope(entry, fingerprint, model, policy, now) {
        Some("thinking continuity entry scope changed"@)
    } else {
        blocks_fault(entry.blocks)
    }
}

proof fn blocks_fault_stays(blocks: Seq<(usize, JsonV)>, i: int)
    requires
        0 <= i <= blocks.len(),
        blocks_fault(blocks.take(i)) is Some,
    ensures
        blocks_fault(blocks) == blocks_fault(blocks.take(i)),
    decreases blocks.len() - i,
{
    if i < blocks.len() {
        assert(blocks.take(i + 1).drop_last() =~= blocks.take(i));
        blocks_fault_stays(blocks, i + 1);
    } else {
        assert(blocks.take(i) =~= blocks);
    }
}

/// Checks that an entry belongs to a history.
pub fn validate_stored_entry(stored: &StoredEntry, fingerprint: &str, model: &str, policy: RestorePolicy, now: u64) -> (out:
    Result<(), String>)
    ensures
        match (out, entry_fault(stored@, fingerprint@, model@, policy, now)) {
            (Ok(_), None) => true,
            (Err(e), Some(reason)) => e@ == reason,
            _ => false,
        },
{
    let valid_payload = if stored.no_reasoning {
        stored.tools.len() > 0 && stored.blocks.len() == 0
    } else {
        stored.blocks.len() > 0
    };
    assert(stored@.tools.len() == stored.tools@.len());
    assert(stored@.blocks.len() == stored.blocks@.len());
    let too_old = now > stored.created_at && now - stored.created_at > ENTRY_TTL_SECONDS;
    if stored.version != 1 || !same(stored.fingerprint.as_str(), fingerprint) || !same(stored.model.as_str(), model)
        || stored.policy != policy || stored.tools.len() > MAX_REASONING_BLOCKS || !valid_payload || stored.blocks.len()
        > MAX_REASONING_BLOCKS || too_old {
        return Err("thinking continuity entry scope changed".to_owned());
    }
    let ghost all = stored@.blocks;
    let mut i: usize = 0;
    while i < stored.blocks.len()
        invariant
            i <= stored.blocks@.len(),
            all == stored_view(stored.blocks@),
            all == stored@.blocks,
            in_scope(stored@, fingerprint@, model@, policy, now),
            blocks_fault(all.take(i as int)) is None,
        decreases stored.blocks@.len() - i,
    {
        assert(all.take(i + 1).drop_last() =~= all.take(i as int));
        assert(all[i as int].1 == stored.blocks@[i as int].block@);
        match validate_reasoning_block(&stored.blocks[i].block) {
            Ok(_) => {},
            Err(e) => {
                proof {
                    blocks_fault_stays(all, i + 1);
                }
                return Err(e);
            },
        }
        i = i + 1;
    }
    assert(all.take(i as int) =~= all);
    Ok(())
}

/// The entry that a response gives, if it needs one.
pub open spec fn captured(
    lookup_key: Seq<u8>,
    request: JsonV,
    response: JsonV,
    model: Seq<char>,
    policy: RestorePolicy,
    now: u64,
) -> Result<Option<EntryV>, Seq<char>> {
    if !bounded(Some(model), MAX_MODEL_BYTES as int) {
        Err("thinking continuity model is invalid"@)
    } else if response_fault(response) is Some {
        Err(response_fault(response).unwrap())
    } else {
        match split(response.items_at("content"@).unwrap()) {
            Err(e) => Err(e),
            Ok(parts) => {
                let no_reasoning = parts.blocks.len() == 0 && no_reasoning_wanted(request);
                if !any_of(parts.visible, BlockKind::Call) {
                    Ok(None)
                } else if parts.blocks.len() == 0 && !no_reasoning {
                    Err("provider response omitted required thinking continuity"@)
                } else {
                    match request.items_at("messages"@) {
                        None => Err("thinking continuity request messages are invalid"@),
                        Some(messages) => {
                            let assistant = assistant_message(parts.visible);
                            let history = messages.push(assistant);
                            match bindings(assistant) {
                                Err(e) => Err(e),
                                Ok(tools) => match history_fingerprint(
                                    lookup_key,
                                    history,
                                    history.len() - 1,
                                    model,
                                ) {
                                    Err(e) => Err(e),
                                    Ok(fingerprint) => Ok(
                                        Some(
                                            EntryV {
                                                version: 1,
                                                created_at: now,
                                                fingerprint,
                                                model,
                                                policy,
                                                tools,
                                                no_reasoning,
                                                blocks: parts.blocks,
                                            },
                                        ),
                                    ),
                                },
                            }
                        },
                    }
                }
            },
        }
    }
}

/// An assistant's message.
pub open spec fn assistant_message(content: Seq<JsonV>) -> JsonV {
    JsonV::object().and("role"@, JsonV::Str("assistant"@)).and("content"@, JsonV::Array(content))
}

/// The keys of a store.
pub struct StoreV {
    pub encryption_key: Seq<u8>,
    pub lookup_key: Seq<u8>,
}

/// The keys under which reasoning is stored, for one credential and one scope.
pub struct ReasoningStore {
    encryption_key: Vec<u8>,
    lookup_key: Vec<u8>,
}

impl View for ReasoningStore {
    type V = StoreV;

    closed spec fn view(&self) -> StoreV {
        StoreV { encryption_key: self.encryption_key@, lookup_key: self.lookup_key@ }
    }
}

/// An entry that waits to be written.
pub struct PendingCommit {
    pub target: String,
    pub encrypted: Vec<u8>,
}

fn magic_bytes() -> (bytes: Vec<u8>)
    ensures
        bytes@ == magic(),
        bytes@.len() == 32,
{
    proof {
        reveal_strlit("CSSWITCH-ANTHROPIC-REASONING-V1\n");
        is_ascii_chars_encode_utf8(MAGIC@);
    }
    MAGIC.as_bytes_vec()
}

fn starts_with_bytes(bytes: &[u8], prefix: &[u8]) -> (yes: bool)
    ensures
        yes == prefix@.is_prefix_of(bytes@),
{
    if prefix.len() > bytes.len() {
        return false;
    }
    let mut i: usize = 0;
    while i < prefix.len()
        invariant
            i <= prefix@.len() <= bytes@.len(),
            forall|k: int| 0 <= k < i ==> prefix@[k] == bytes@[k],
        decreases prefix@.len() - i,
    {
        if prefix[i] != bytes[i] {
            assert(prefix@[i as int] != bytes@.subrange(0, prefix@.len() as int)[i as int]);
            return false;
        }
        i = i + 1;
    }
    assert(prefix@ =~= bytes@.subrange(0, prefix@.len() as int));
    true
}

fn is_storable(entry: &StoredEntry) -> (yes: bool)
    ensures
        yes == storable(entry@),
{
    let bound = magic_bytes();
    let mut text = write_entry(entry).render();
    let n: usize = byte_len(text.as_str());
    wipe_text(&mut text);
    n <= MAX_ENTRY_BYTES - (bound.len() + NONCE_BYTES + TAG_BYTES)
}

/// What a history needs next.
pub enum RestoreStep {
    /// The file of this name is to be read and handed over.
    Read(String),
    /// Every message has what it needs.
    Done,
}

/// A request whose reasoning is being put back.
pub struct Restoration {
    messages: Vec<Json>,
    index: usize,
    model: String,
    policy: RestorePolicy,
}

#[verifier::ext_equal]
pub struct RestorationV {
    pub messages: Seq<JsonV>,
    /// The message that is looked at.
    pub index: nat,
    pub model: Seq<char>,
    pub policy: RestorePolicy,
}

impl View for Restoration {
    type V = RestorationV;

    closed spec fn view(&self) -> RestorationV {
        RestorationV {
            messages: list_view(self.messages@),
            index: self.index as nat,
            model: self.model@,
            policy: self.policy,
        }
    }
}

/// Whether reasoning is to be put back into a message.
pub open spec fn needs_reasoning(message: JsonV) -> Result<bool, Seq<char>> {
    if message.text_at("role"@) != Some("assistant"@) {
        Ok(false)
    } else {
        match (any_block(message, BlockKind::Reasoning), any_block(message, BlockKind::Call)) {
            (Err(e), _) => Err(e),
            (_, Err(e)) => Err(e),
            (Ok(present), Ok(calls)) => Ok(calls && !present),
        }
    }
}

/// The first message from an index on that needs its reasoning, or the fault before it.
pub open spec fn next_needed(messages: Seq<JsonV>, from: int) -> Result<Option<int>, Seq<char>>
    decreases messages.len() - from,
{
    if from >= messages.len() {
        Ok(None)
    } else {
        match needs_reasoning(messages[from]) {
            Err(e) => Err(e),
            Ok(true) => Ok(Some(from)),
            Ok(false) => next_needed(messages, from + 1),
        }
    }
}

/// Where the look for a message that needs its reasoning stops: at that message, at the first fault, or
/// behind the last message.
pub open spec fn first_needed(messages: Seq<JsonV>, from: int) -> int
    decreases messages.len() - from,
{
    if from >= messages.len() || needs_reasoning(messages[from]) != Ok::<bool, Seq<char>>(false) {
        from
    } else {
        first_needed(messages, from + 1)
    }
}

/// A message with its reasoning from a file.
pub open spec fn restored_message(
    store: StoreV,
    messages: Seq<JsonV>,
    index: int,
    model: Seq<char>,
    policy: RestorePolicy,
    file: Option<Seq<u8>>,
    now: u64,
) -> Result<JsonV, Seq<char>> {
    match history_fingerprint(store.lookup_key, messages, index, model) {
        Err(e) => Err(e),
        Ok(fingerprint) => match file {
            None => Err("thinking continuity state is missing"@),
            Some(bytes) => match entry_of_file(store.encryption_key, bytes) {
                Err(e) => Err(e),
                Ok(entry) => if entry_fault(entry, fingerprint, model, policy, now) is Some {
                    Err(entry_fault(entry, fingerprint, model, policy, now).unwrap())
                } else {
                    match bindings(messages[index]) {
                        Err(e) => Err(e),
                        Ok(tools) => if entry.tools != tools {
                            Err("thinking continuity tool binding changed"@)
                        } else if entry.no_reasoning {
                            Ok(messages[index])
                        } else {
                            with_reasoning(messages[index], entry.blocks)
                        },
                    }
                },
            },
        },
    }
}

fn same_bindings(a: &Vec<ToolBinding>, b: &Vec<ToolBinding>) -> (yes: bool)
    ensures
        yes == (bindings_view(a@) == bindings_view(b@)),
{
    let ghost x = bindings_view(a@);
    let ghost y = bindings_view(b@);
    if a.len() != b.len() {
        assert(x.len() != y.len());
        return false;
    }
    let mut i: usize = 0;
    while i < a.len()
        invariant
            i <= a@.len(),
            a@.len() == b@.len(),
            x == bindings_view(a@),
            y == bindings_view(b@),
            forall|k: int| 0 <= k < i ==> x[k] == y[k],
        decreases a@.len() - i,
    {
        assert(x[i as int] == a@[i as int]@ && y[i as int] == b@[i as int]@);
        if !same(a[i].id.as_str(), b[i].id.as_str()) || !same(a[i].name.as_str(), b[i].name.as_str()) || !same(
            a[i].input_digest.as_str(),
            b[i].input_digest.as_str(),
        ) {
            assert(x[i as int] != y[i as int]);
            return false;
        }
        assert(x[i as int] =~= y[i as int]);
        i = i + 1;
    }
    assert(x =~= y);
    true
}

impl ReasoningStore {
    #[verifier::type_invariant]
    spec fn holds(self) -> bool {
        self.encryption_key@.len() == KEY_BYTES
    }

    /// The keys for a credential and a scope.
    pub fn open(credential: &str, contract: &str, endpoint: &str, profile_scope: &str) -> (out: Result<
        ReasoningStore,
        String,
    >)
        ensures
            out is Err <==> credential@.len() == 0 || contract@.len() == 0 || endpoint@.len() == 0
                || profile_scope@.len() == 0,
            match out {
                Ok(store) => {
                    &&& store@.encryption_key == scope_key(
                        credential@,
                        ENCRYPTION_DOMAIN@,
                        contract@,
                        endpoint@,
                        profile_scope@,
                    )
                    &&& store@.lookup_key == scope_key(credential@, LOOKUP_DOMAIN@, contract@, endpoint@, profile_scope@)
                    &&& store@.encryption_key.len() == KEY_BYTES
                },
                Err(e) => e@ == "thinking continuity key scope is unavailable"@,
            },
    {
        if credential.is_empty() || contract.is_empty() || endpoint.is_empty() || profile_scope.is_empty() {
            return Err("thinking continuity key scope is unavailable".to_owned());
        }
        Ok(
            ReasoningStore {
                encryption_key: derive_scope_key(credential, ENCRYPTION_DOMAIN, contract, endpoint, profile_scope),
                lookup_key: derive_scope_key(credential, LOOKUP_DOMAIN, contract, endpoint, profile_scope),
            },
        )
    }

    /// Overwrites the keys.
    pub fn wipe(self) {
        let ReasoningStore { encryption_key, lookup_key } = self;
        let mut encryption_key = encryption_key;
        let mut lookup_key = lookup_key;
        wipe(&mut encryption_key);
        wipe(&mut lookup_key);
    }

    /// The fingerprint of the visible history up to a message.
    pub fn history_fingerprint(&self, messages: &Vec<Json>, end: usize, model: &str) -> (out: Result<String, String>)
        ensures
            match (out, history_fingerprint(self@.lookup_key, list_view(messages@), end as int, model@)) {
                (Ok(text), Ok(meant)) => text@ == meant,
                (Err(e), Err(reason)) => e@ == reason,
                _ => false,
            },
    {
        match visible_history_bytes(messages, end, model) {
            Ok(bytes) => {
                let mut message = FINGERPRINT_DOMAIN.as_bytes_vec();
                push_field(&mut message, bytes.as_slice());
                Ok(hex_bytes(authenticate(self.lookup_key.as_slice(), message.as_slice()).as_slice()))
            },
            Err(e) => Err(e),
        }
    }

    /// Encrypts an entry under a nonce.
    pub fn encrypt_with(&self, entry: &StoredEntry, nonce: &Vec<u8>) -> (out: Result<Vec<u8>, String>)
        requires
            nonce@.len() == NONCE_BYTES,
        ensures
            out is Ok <==> storable(entry@),
            match out {
                Ok(file) => {
                    &&& file@ == entry_file(self@.encryption_key, entry@, nonce@)
                    &&& file@.len() == entry_text(entry@).len() + frame_bytes()
                    &&& readable(entry_json(entry@), 127) ==> entry_of_file(self@.encryption_key, file@) == Ok::<
                        EntryV,
                        Seq<char>,
                    >(entry@)
                },
                Err(e) => e@ == "thinking continuity entry exceeds the size limit"@,
            },
    {
        proof {
            use_type_invariant(self);
        }
        let bound = magic_bytes();
        let mut text = write_entry(entry).render();
        let mut plaintext = text.as_str().as_bytes_vec();
        wipe_text(&mut text);
        let most: usize = MAX_ENTRY_BYTES - (bound.len() + NONCE_BYTES + TAG_BYTES);
        if plaintext.len() > most {
            wipe(&mut plaintext);
            return Err("thinking continuity entry exceeds the size limit".to_owned());
        }
        match seal(&self.encryption_key, nonce, &bound, plaintext) {
            Some(sealed) => {
                let mut file: Vec<u8> = Vec::new();
                file.extend_from_slice(bound.as_slice());
                file.extend_from_slice(nonce.as_slice());
                file.extend_from_slice(sealed.as_slice());
                proof {
                    let m = magic().len() as int;
                    assert(file@ =~= magic() + nonce@ + sealed@);
                    assert(file@.subrange(0, m) =~= magic());
                    assert(file@.subrange(m, m + NONCE_BYTES) =~= nonce@);
                    assert(file@.skip(m + NONCE_BYTES) =~= sealed@);
                    encode_utf8_valid_utf8(rendered(entry_json(entry@)));
                    encode_utf8_decode_utf8(rendered(entry_json(entry@)));
                    entries_come_back(entry@);
                    if readable(entry_json(entry@), 127) {
                        readable_values_are_settled(entry_json(entry@), 127);
                        assert(written_fields(rendered(entry_json(entry@)), ENTRY_LEVELS as nat) == held_fields(
                            entry_json(entry@),
                            ENTRY_LEVELS as nat,
                        ));
                    }
                }
                Ok(file)
            },
            None => Err("thinking continuity entry exceeds the size limit".to_owned()),
        }
    }

    /// Reads the entry of a file.
    pub fn decrypt(&self, encrypted: &[u8]) -> (out: Result<StoredEntry, String>)
        ensures
            match (out, entry_of_file(self@.encryption_key, encrypted@)) {
                (Ok(entry), Ok(meant)) => entry@ == meant,
                (Err(e), Err(reason)) => e@ == reason,
                _ => false,
            },
    {
        proof {
            use_type_invariant(self);
        }
        let bound = magic_bytes();
        let n: usize = encrypted.len();
        let m: usize = bound.len();
        if n > MAX_ENTRY_BYTES || n < m + NONCE_BYTES + TAG_BYTES || !starts_with_bytes(encrypted, bound.as_slice()) {
            return Err("thinking continuity entry is invalid".to_owned());
        }
        let nonce = bytes_between(encrypted, m, m + NONCE_BYTES);
        let sealed = bytes_between(encrypted, m + NONCE_BYTES, n);
        assert(encrypted@.subrange(m + NONCE_BYTES, n as int) =~= encrypted@.skip(m + NONCE_BYTES));
        match open(&self.encryption_key, &nonce, &bound, sealed) {
            Some(plaintext) => read_plaintext(plaintext),
            None => Err("thinking continuity entry authentication failed".to_owned()),
        }
    }

    /// The entry that a response gives, if it needs one.
    pub fn capture_entry(&self, request: &Json, response: &Json, model: &str, policy: RestorePolicy, now: u64) -> (out:
        Result<Option<StoredEntry>, String>)
        ensures
            match (out, captured(self@.lookup_key, request@, response@, model@, policy, now)) {
                (Ok(Some(entry)), Ok(Some(meant))) => entry@ == meant,
                (Ok(None), Ok(None)) => true,
                (Err(e), Err(reason)) => e@ == reason,
                _ => false,
            },
    {
        match validate_model(model) {
            Ok(_) => {},
            Err(e) => {
                return Err(e);
            },
        }
        match validate_complete_response(response) {
            Ok(_) => {},
            Err(e) => {
                return Err(e);
            },
        }
        let content = match response.array_at("content") {
            Some(content) => content,
            None => {
                return Err("thinking continuity response content is invalid".to_owned());
            },
        };
        let (blocks, visible) = match split_reasoning_blocks(content) {
            Ok(parts) => parts,
            Err(e) => {
                return Err(e);
            },
        };
        assert(stored_view(blocks@).len() == blocks@.len());
        if !has_call(&visible) {
            return Ok(None);
        }
        let no_reasoning = blocks.len() == 0 && request_has_explicit_no_reasoning(request);
        if blocks.len() == 0 && !no_reasoning {
            return Err("provider response omitted required thinking continuity".to_owned());
        }
        let mut history = match request.array_at("messages") {
            Some(messages) => copy_items(messages),
            None => {
                return Err("thinking continuity request messages are invalid".to_owned());
            },
        };
        let n: usize = history.len();
        let assistant = Json::object().and("role", Json::text("assistant")).and("content", Json::array(visible));
        let tools = match tool_bindings(&assistant) {
            Ok(tools) => tools,
            Err(e) => {
                return Err(e);
            },
        };
        history.push(assistant);
        assert(list_view(history@).len() - 1 == n);
        let fingerprint = match self.history_fingerprint(&history, n, model) {
            Ok(fingerprint) => fingerprint,
            Err(e) => {
                return Err(e);
            },
        };
        Ok(
            Some(
                StoredEntry {
                    version: 1,
                    created_at: now,
                    fingerprint,
                    model: model.to_owned(),
                    policy,
                    tools,
                    no_reasoning,
                    blocks,
                },
            ),
        )
    }

    /// The file that a response gives, if it needs one. A random nonce is part of the file.
    pub fn capture_message(&self, request: &Json, response: &Json, model: &str, policy: RestorePolicy, now: u64) -> (out:
        Result<Option<PendingCommit>, String>)
        ensures
            match captured(self@.lookup_key, request@, response@, model@, policy, now) {
                Err(reason) => out is Err && out->Err_0@ == reason,
                Ok(None) => out is Ok && out->Ok_0 is None,
                Ok(Some(entry)) => match out {
                    Ok(Some(pending)) => {
                        &&& storable(entry)
                        &&& pending.target@ == entry_name(entry.fingerprint)
                        &&& exists|nonce: Seq<u8>|
                            nonce.len() == NONCE_BYTES && pending.encrypted@ == #[trigger] entry_file(
                                self@.encryption_key,
                                entry,
                                nonce,
                            )
                        &&& readable(entry_json(entry), 127) ==> entry_of_file(
                            self@.encryption_key,
                            pending.encrypted@,
                        ) == Ok::<EntryV, Seq<char>>(entry)
                    },
                    Ok(None) => false,
                    Err(e) => if storable(entry) {
                        e@ == "thinking continuity nonce generation failed"@
                    } else {
                        e@ == "thinking continuity entry exceeds the size limit"@
                    },
                },
            },
    {
        let entry = match self.capture_entry(request, response, model, policy, now) {
            Ok(Some(entry)) => entry,
            Ok(None) => {
                return Ok(None);
            },
            Err(e) => {
                return Err(e);
            },
        };
        if !is_storable(&entry) {
            return Err("thinking continuity entry exceeds the size limit".to_owned());
        }
        let nonce = match random_bytes(NONCE_BYTES) {
            Some(nonce) => nonce,
            None => {
                return Err("thinking continuity nonce generation failed".to_owned());
            },
        };
        match self.encrypt_with(&entry, &nonce) {
            Ok(encrypted) => Ok(
                Some(PendingCommit { target: concat(entry.fingerprint.as_str(), ".rsn"), encrypted }),
            ),
            Err(e) => Err(e),
        }
    }

    /// Starts to put reasoning back into a request.
    pub fn begin_restore(&self, request: &Json, model: &str, policy: RestorePolicy) -> (out: Result<Restoration, String>)
        ensures
            match out {
                Ok(restoration) => {
                    &&& bounded(Some(model@), MAX_MODEL_BYTES as int)
                    &&& request@.items_at("messages"@) == Some(restoration@.messages)
                    &&& restoration@.index == 0
                    &&& restoration@.model == model@
                    &&& restoration@.policy == policy
                },
                Err(e) => if !bounded(Some(model@), MAX_MODEL_BYTES as int) {
                    e@ == "thinking continuity model is invalid"@
                } else {
                    request@.items_at("messages"@) is None && e@
                        == "thinking continuity request messages are invalid"@
                },
            },
    {
        match validate_model(model) {
            Ok(_) => {},
            Err(e) => {
                return Err(e);
            },
        }
        match request.array_at("messages") {
            Some(messages) => Ok(
                Restoration { messages: copy_items(messages), index: 0, model: model.to_owned(), policy },
            ),
            None => Err("thinking continuity request messages are invalid".to_owned()),
        }
    }

    /// Finds the next message that needs its reasoning, and the file that holds it.
    pub fn next_restore(&self, restoration: &mut Restoration) -> (out: Result<RestoreStep, String>)
        ensures
            final(restoration)@.messages == old(restoration)@.messages,
            final(restoration)@.model == old(restoration)@.model,
            final(restoration)@.policy == old(restoration)@.policy,
            match next_needed(old(restoration)@.messages, old(restoration)@.index as int) {
                Err(reason) => {
                    &&& out is Err && out->Err_0@ == reason
                    &&& final(restoration)@.index == first_needed(
                        old(restoration)@.messages,
                        old(restoration)@.index as int,
                    )
                },
                Ok(None) => {
                    &&& out is Ok && out->Ok_0 is Done
                    &&& final(restoration)@.index == first_needed(
                        old(restoration)@.messages,
                        old(restoration)@.index as int,
                    )
                },
                Ok(Some(index)) => {
                    let meant = history_fingerprint(
                        self@.lookup_key,
                        old(restoration)@.messages,
                        index,
                        old(restoration)@.model,
                    );
                    &&& final(restoration)@.index == index
                    &&& match (out, meant) {
                        (Ok(RestoreStep::Read(name)), Ok(fingerprint)) => name@ == entry_name(fingerprint),
                        (Err(e), Err(reason)) => e@ == reason,
                        _ => false,
                    }
                },
            },
    {
        let ghost messages = restoration@.messages;
        let ghost start = restoration@.index as int;
        while restoration.index < restoration.messages.len()
            invariant
                messages == old(restoration)@.messages,
                start == old(restoration)@.index,
                messages == list_view(restoration.messages@),
                restoration.model@ == old(restoration)@.model,
                restoration.policy == old(restoration)@.policy,
                next_needed(messages, start) == next_needed(messages, restoration.index as int),
                first_needed(messages, start) == first_needed(messages, restoration.index as int),
            decreases restoration.messages@.len() - restoration.index,
        {
            let index: usize = restoration.index;
            assert(messages[index as int] == restoration.messages@[index as int]@);
            if restoration.messages[index].has_text("role", "assistant") {
                let present = match message_has_reasoning(&restoration.messages[index]) {
                    Ok(present) => present,
                    Err(e) => {
                        return Err(e);
                    },
                };
                let calls = match message_has_tool_use(&restoration.messages[index]) {
                    Ok(calls) => calls,
                    Err(e) => {
                        return Err(e);
                    },
                };
                if calls && !present {
                    return match self.history_fingerprint(
                        &restoration.messages,
                        index,
                        restoration.model.as_str(),
                    ) {
                        Ok(fingerprint) => Ok(RestoreStep::Read(concat(fingerprint.as_str(), ".rsn"))),
                        Err(e) => Err(e),
                    };
                }
            }
            restoration.index = index + 1;
        }
        Ok(RestoreStep::Done)
    }

    /// Puts the reasoning of a file into the message that needs it.
    pub fn provide_restore(&self, restoration: &mut Restoration, file: Option<&Vec<u8>>, now: u64) -> (out: Result<
        (),
        String,
    >)
        requires
            old(restoration)@.index < old(restoration)@.messages.len(),
        ensures
            final(restoration)@.model == old(restoration)@.model,
            final(restoration)@.policy == old(restoration)@.policy,
            match (
                out,
                restored_message(
                    self@,
                    old(restoration)@.messages,
                    old(restoration)@.index as int,
                    old(restoration)@.model,
                    old(restoration)@.policy,
                    match file {
                        Some(bytes) => Some(bytes@),
                        None => None,
                    },
                    now,
                ),
            ) {
                (Ok(_), Ok(message)) => {
                    &&& final(restoration)@.messages == old(restoration)@.messages.update(
                        old(restoration)@.index as int,
                        message,
                    )
                    &&& final(restoration)@.index == old(restoration)@.index + 1
                },
                (Err(e), Err(reason)) => {
                    &&& e@ == reason
                    &&& final(restoration)@.messages == old(restoration)@.messages
                    &&& final(restoration)@.index == old(restoration)@.index
                },
                _ => false,
            },
    {
        let index: usize = restoration.index;
        let n: usize = restoration.messages.len();
        let ghost messages = restoration@.messages;
        assert(index < n);
        assert(messages[index as int] == restoration.messages@[index as int]@);
        let fingerprint = match self.history_fingerprint(&restoration.messages, index, restoration.model.as_str()) {
            Ok(fingerprint) => fingerprint,
            Err(e) => {
                return Err(e);
            },
        };
        let bytes = match file {
            Some(bytes) => bytes,
            None => {
                return Err("thinking continuity state is missing".to_owned());
            },
        };
        let stored = match self.decrypt(bytes.as_slice()) {
            Ok(stored) => stored,
            Err(e) => {
                return Err(e);
            },
        };
        match validate_stored_entry(
            &stored,
            fingerprint.as_str(),
            restoration.model.as_str(),
            restoration.policy,
            now,
        ) {
            Ok(_) => {},
            Err(e) => {
                return Err(e);
            },
        }
        let tools = match tool_bindings(&restoration.messages[index]) {
            Ok(tools) => tools,
            Err(e) => {
                return Err(e);
            },
        };
        if !same_bindings(&stored.tools, &tools) {
            return Err("thinking continuity tool binding changed".to_owned());
        }
        if stored.no_reasoning {
            assert(messages.update(index as int, messages[index as int]) =~= messages);
        } else {
            let mut message = restoration.messages[index].copy();
            match insert_reasoning_blocks(&mut message, &stored.blocks) {
                Ok(_) => {},
                Err(e) => {
                    return Err(e);
                },
            }
            restoration.messages.set(index, message);
        }
        restoration.index = index + 1;
        Ok(())
    }
}

impl Restoration {
    /// Hands the messages over to the request.
    pub fn finish(self, request: &mut Json)
        ensures
            final(request)@ == old(request)@.with("messages"@, JsonV::Array(self@.messages)),
    {
        request.set("messages", Json::array(self.messages));
    }
}

fn has_call(items: &Vec<Json>) -> (yes: bool)
    ensures
        yes == any_of(list_view(items@), BlockKind::Call),
{
    let mut i: usize = 0;
    while i < items.len()
        invariant
            i <= items@.len(),
            forall|k: int| 0 <= k < i ==> !is_call(#[trigger] list_view(items@)[k]),
        decreases items@.len() - i,
    {
        if is_tool_binding_block(&items[i]) {
            assert(of_kind(list_view(items@)[i as int], BlockKind::Call));
            return true;
        }
        i = i + 1;
    }
    false
}

/// Whether a character is a lower-case hexadecimal digit.
pub open spec fn lower_hex(c: char) -> bool {
    ('0' <= c && c <= '9') || ('a' <= c && c <= 'f')
}

/// Whether a text is `count` lower-case hexadecimal digits between two given texts.
pub open spec fn hex_between(name: Seq<char>, before: Seq<char>, count: int, after: Seq<char>) -> bool {
    &&& name.len() == before.len() + count + after.len()
    &&& name.take(before.len() as int) == before
    &&& name.skip(before.len() + count) == after
    &&& forall|i: int| before.len() <= i < before.len() + count ==> lower_hex(#[trigger] name[i])
}

/// Whether a file name is that of an entry.
pub open spec fn is_entry_name(name: Seq<char>) -> bool {
    hex_between(name, Seq::empty(), 64, ".rsn"@)
}

/// Whether a file name is that of an entry half written.
pub open spec fn is_temp_name(name: Seq<char>) -> bool {
    hex_between(name, "."@, 32, ".tmp"@)
}

fn is_hex_between(name: &str, before: &str, count: usize, after: &str) -> (yes: bool)
    requires
        count <= 64,
        before@.len() <= 8,
        after@.len() <= 8,
    ensures
        yes == hex_between(name@, before@, count as int, after@),
{
    let chars = chars_of(name);
    let head = chars_of(before);
    let tail = chars_of(after);
    let from: usize = head.len();
    let to: usize = from + count;
    if chars.len() != to + tail.len() {
        return false;
    }
    let mut i: usize = 0;
    while i < from
        invariant
            i <= from <= to <= chars@.len(),
            from == head@.len(),
            chars@ == name@,
            head@ == before@,
            forall|k: int| 0 <= k < i ==> chars@[k] == head@[k],
        decreases from - i,
    {
        if chars[i] != head[i] {
            assert(name@.take(from as int)[i as int] != before@[i as int]);
            return false;
        }
        i = i + 1;
    }
    assert(name@.take(from as int) =~= before@);
    while i < to
        invariant
            from <= i <= to <= chars@.len(),
            chars@ == name@,
            from == before@.len(),
            to == from + count,
            forall|k: int| from <= k < i ==> lower_hex(#[trigger] name@[k]),
        decreases to - i,
    {
        let c = chars[i];
        if !(('0' <= c && c <= '9') || ('a' <= c && c <= 'f')) {
            assert(!lower_hex(name@[i as int]));
            return false;
        }
        i = i + 1;
    }
    while i < chars.len()
        invariant
            to <= i <= chars@.len(),
            chars@ == name@,
            tail@ == after@,
            to == before@.len() + count,
            chars@.len() == to + tail@.len(),
            forall|k: int| to <= k < i ==> chars@[k] == tail@[k - to],
        decreases chars@.len() - i,
    {
        if chars[i] != tail[i - to] {
            assert(name@.skip(to as int)[i - to] != after@[i - to]);
            return false;
        }
        i = i + 1;
    }
    assert(name@.skip(to as int) =~= after@);
    true
}

/// Tells the file name of an entry.
pub fn valid_entry_name(name: &str) -> (yes: bool)
    ensures
        yes == is_entry_name(name@),
{
    proof {
        reveal_strlit("");
        reveal_strlit(".rsn");
        assert(""@ =~= Seq::empty());
    }
    is_hex_between(name, "", 64, ".rsn")
}

/// Tells the file name of an entry half written.
pub fn valid_temp_name(name: &str) -> (yes: bool)
    ensures
        yes == is_temp_name(name@),
{
    proof {
        reveal_strlit(".");
        reveal_strlit(".tmp");
    }
    is_hex_between(name, ".", 32, ".tmp")
}

/// The name of an entry half written, from the bytes that were drawn for it.
pub open spec fn temp_name_of(bytes: Seq<u8>) -> Seq<char> {
    "."@ + hex(bytes) + ".tmp"@
}

/// Writes the name of an entry half written, from the bytes that were drawn for it.
pub fn temp_name(bytes: &[u8]) -> (name: String)
    ensures
        name@ == "."@ + hex(bytes@) + ".tmp"@,
        bytes@.len() == 16 ==> is_temp_name(name@),
{
    let digits = hex_bytes(bytes);
    let opened = concat(".", digits.as_str());
    let name = concat(opened.as_str(), ".tmp");
    proof {
        reveal_strlit(".");
        reveal_strlit(".tmp");
        hex_is_lower(bytes@);
        if bytes@.len() == 16 {
            assert(name@.take(1) =~= "."@);
            assert(name@.skip(33) =~= ".tmp"@);
            assert forall|i: int| 1 <= i < 33 implies lower_hex(#[trigger] name@[i]) by {
                assert(name@[i] == hex(bytes@)[i - 1]);
            }
        }
    }
    name
}

/// A fresh name for an entry half written: the name of sixteen bytes. Which bytes they are is left to
/// chance, and so is whether any can be drawn.
pub fn random_temp_name() -> (out: Result<String, String>)
    ensures
        match out {
            Ok(name) => is_temp_name(name@) && exists|bytes: Seq<u8>|
                bytes.len() == 16 && name@ == #[trigger] temp_name_of(bytes),
            Err(e) => e@ == "thinking continuity temporary name generation failed"@,
        },
{
    match random_bytes(16) {
        Some(bytes) => {
            let name = temp_name(bytes.as_slice());
            assert(name@ == temp_name_of(bytes@));
            Ok(name)
        },
        None => Err("thinking continuity temporary name generation failed".to_owned()),
    }
}

/// Bytes as hexadecimal digits are two lower-case digits each.
pub proof fn hex_is_lower(bytes: Seq<u8>)
    ensures
        hex(bytes).len() == 2 * bytes.len(),
        forall|i: int| 0 <= i < hex(bytes).len() ==> lower_hex(#[trigger] hex(bytes)[i]),
    decreases bytes.len(),
{
    if bytes.len() > 0 {
        hex_is_lower(bytes.drop_last());
    }
}

/// Whether a name can stand for a file of the store.
pub open spec fn is_plain_name(name: Seq<char>) -> bool {
    name.len() > 0 && name != "."@ && name != ".."@ && !name.contains('/') && !name.contains('\0')
}

/// Checks a name before a file of it is touched.
pub fn checked_name(name: &str) -> (out: Result<(), String>)
    ensures
        out is Ok <==> is_plain_name(name@),
        out matches Err(e) ==> e@ == "thinking continuity store entry name is invalid"@,
{
    if name.is_empty() || same(name, ".") || same(name, "..") || contains_char(name, '/') || contains_char(name, '\0') {
        return Err("thinking continuity store entry name is invalid".to_owned());
    }
    Ok(())
}

/// What is known of a file or directory.
pub struct FileFacts {
    pub is_dir: bool,
    pub is_file: bool,
    pub is_symlink: bool,
    pub uid: u32,
    /// The permission bits.
    pub mode: u32,
}

/// Whether a directory is the owner's alone.
pub open spec fn private_root(facts: FileFacts, euid: u32) -> bool {
    facts.is_dir && !facts.is_symlink && facts.uid == euid && facts.mode == 0o700
}

/// Checks the facts of the store's directory.
pub fn validate_private_root(facts: &FileFacts, euid: u32) -> (out: Result<(), String>)
    ensures
        out is Ok <==> private_root(*facts, euid),
        out matches Err(e) ==> if !facts.is_dir || facts.is_symlink {
            e@ == "thinking continuity store root is unsafe"@
        } else {
            e@ == "thinking continuity store root permissions are unsafe"@
        },
{
    if !facts.is_dir || facts.is_symlink {
        return Err("thinking continuity store root is unsafe".to_owned());
    }
    if facts.uid != euid || facts.mode != 0o700 {
        return Err("thinking continuity store root permissions are unsafe".to_owned());
    }
    Ok(())
}

/// Whether a file is the owner's alone.
pub open spec fn private_file(facts: FileFacts, euid: u32) -> bool {
    facts.is_file && !facts.is_symlink && facts.uid == euid && facts.mode == 0o600
}

/// Checks the facts of a file of the store.
pub fn validate_private_file(facts: &FileFacts, euid: u32) -> (out: Result<(), String>)
    ensures
        out is Ok <==> private_file(*facts, euid),
        out matches Err(e) ==> if !facts.is_file || facts.is_symlink {
            e@ == "thinking continuity store entry is unsafe"@
        } else {
            e@ == "thinking continuity store entry permissions are unsafe"@
        },
{
    if !facts.is_file || facts.is_symlink {
        return Err("thinking continuity store entry is unsafe".to_owned());
    }
    if facts.uid != euid || facts.mode != 0o600 {
        return Err("thinking continuity store entry permissions are unsafe".to_owned());
    }
    Ok(())
}

/// What the directory of the store tells of an entry.
pub struct EntryInfo {
    pub name: String,
    pub size: u64,
    /// When it was written last, in nanoseconds of one clock.
    pub modified: i128,
}

#[verifier::ext_equal]
pub struct InfoV {
    pub name: Seq<char>,
    pub size: u64,
    pub modified: int,
}

impl View for EntryInfo {
    type V = InfoV;

    open spec fn view(&self) -> InfoV {
        InfoV { name: self.name@, size: self.size, modified: self.modified as int }
    }
}

pub open spec fn infos(entries: Seq<EntryInfo>) -> Seq<InfoV> {
    entries.map_values(|e: EntryInfo| e@)
}

/// What becomes of a file that the store's directory lists.
#[derive(Debug, Clone, Copy, PartialEq, Eq, Structural)]
pub enum FileFate {
    /// An entry half written, to be removed.
    Remove,
    /// An entry to be looked at.
    Inspect,
    /// No file of the store.
    Ignore,
}

pub fn fate_of_name(name: &str) -> (fate: FileFate)
    ensures
        fate == (if is_temp_name(name@) {
            FileFate::Remove
        } else if is_entry_name(name@) {
            FileFate::Inspect
        } else {
            FileFate::Ignore
        }),
{
    if valid_temp_name(name) {
        FileFate::Remove
    } else if valid_entry_name(name) {
        FileFate::Inspect
    } else {
        FileFate::Ignore
    }
}

/// Whether an entry is too old. An entry from the future is not.
pub open spec fn expired(modified: int, now: int) -> bool {
    now - modified > ENTRY_TTL_SECONDS * 1_000_000_000
}

/// Whether an entry of the store is to be removed for its age; one that is too large is a fault.
pub fn fate_of_entry(size: u64, modified: i128, now: i128) -> (out: Result<bool, String>)
    requires
        i128::MIN <= now - modified <= i128::MAX,
    ensures
        match out {
            Ok(old) => size <= MAX_ENTRY_BYTES && old == expired(modified as int, now as int),
            Err(e) => size > MAX_ENTRY_BYTES && e@ == "thinking continuity store entry exceeds the size limit"@,
        },
{
    if size > MAX_ENTRY_BYTES as u64 {
        return Err("thinking continuity store entry exceeds the size limit".to_owned());
    }
    Ok(now - modified > 2_592_000_000_000_000)
}

/// Entries by age, the oldest first; of one age, in the order they came.
pub open spec fn aged(entries: Seq<InfoV>) -> Seq<InfoV>
    decreases entries.len(),
{
    if entries.len() == 0 {
        Seq::empty()
    } else {
        aged_with(aged(entries.drop_last()), entries.last())
    }
}

pub open spec fn aged_with(sorted: Seq<InfoV>, entry: InfoV) -> Seq<InfoV>
    decreases sorted.len(),
{
    if sorted.len() == 0 || sorted.last().modified <= entry.modified {
        sorted.push(entry)
    } else {
        aged_with(sorted.drop_last(), entry).push(sorted.last())
    }
}

/// How full the store is, and what was removed.
#[verifier::ext_equal]
pub struct PlanV {
    pub total: nat,
    pub count: nat,
    pub removed: Seq<Seq<char>>,
}

pub open spec fn less(a: nat, b: nat) -> nat {
    if a >= b {
        (a - b) as nat
    } else {
        0
    }
}

/// One entry more considered for removal: only while the store is too full, and never the target.
pub open spec fn plan_step(
    plan: PlanV,
    entry: InfoV,
    target: Option<Seq<char>>,
    max_total: nat,
    max_entries: nat,
) -> PlanV {
    if (plan.total <= max_total && plan.count <= max_entries) || target == Some(entry.name) {
        plan
    } else {
        PlanV {
            total: less(plan.total, entry.size as nat),
            count: less(plan.count, 1),
            removed: plan.removed.push(entry.name),
        }
    }
}

pub open spec fn planned(
    sorted: Seq<InfoV>,
    start: PlanV,
    target: Option<Seq<char>>,
    max_total: nat,
    max_entries: nat,
) -> PlanV
    decreases sorted.len(),
{
    if sorted.len() == 0 {
        start
    } else {
        plan_step(
            planned(sorted.drop_last(), start, target, max_total, max_entries),
            sorted.last(),
            target,
            max_total,
            max_entries,
        )
    }
}

/// The entries to remove so that the store keeps its bounds; nothing where that cannot be.
pub open spec fn evictions(
    entries: Seq<InfoV>,
    total: nat,
    count: nat,
    target: Option<Seq<char>>,
    max_total: nat,
    max_entries: nat,
) -> Option<Seq<Seq<char>>> {
    let plan = planned(
        aged(entries),
        PlanV { total, count, removed: Seq::empty() },
        target,
        max_total,
        max_entries,
    );
    if plan.total > max_total || plan.count > max_entries {
        None
    } else {
        Some(plan.removed)
    }
}

fn sort_by_age(entries: &Vec<EntryInfo>) -> (order: Vec<usize>)
    ensures
        order@.len() == entries@.len(),
        forall|i: int| 0 <= i < order@.len() ==> (#[trigger] order@[i]) < entries@.len(),
        Seq::new(order@.len(), |i: int| infos(entries@)[order@[i] as int]) == aged(infos(entries@)),
{
    let ghost all = infos(entries@);
    let mut order: Vec<usize> = Vec::new();
    let mut i: usize = 0;
    assert(Seq::new(order@.len(), |k: int| all[order@[k] as int]) =~= aged(all.take(0)));
    while i < entries.len()
        invariant
            i <= entries@.len(),
            order@.len() == i,
            all == infos(entries@),
            forall|k: int| 0 <= k < order@.len() ==> (#[trigger] order@[k]) < i,
            Seq::new(order@.len(), |k: int| all[order@[k] as int]) == aged(all.take(i as int)),
        decreases entries@.len() - i,
    {
        assert(all.take(i + 1).drop_last() =~= all.take(i as int));
        let ghost before = order@;
        let ghost sorted = Seq::new(before.len(), |k: int| all[before[k] as int]);
        let mut at: usize = order.len();
        while at > 0 && entries[order[at - 1]].modified > entries[i].modified
            invariant
                at <= order@.len(),
                order@ == before,
                i < entries@.len(),
                all == infos(entries@),
                sorted == Seq::new(before.len(), |k: int| all[before[k] as int]),
                forall|k: int| 0 <= k < order@.len() ==> (#[trigger] order@[k]) < i,
                forall|k: int| at <= k < sorted.len() ==> (#[trigger] sorted[k]).modified > all[i as int].modified,
            decreases at,
        {
            assert(sorted[at - 1] == all[before[at - 1] as int]);
            assert(all[before[at - 1] as int] == entries@[before[at - 1] as int]@);
            assert(all[i as int] == entries@[i as int]@);
            at = at - 1;
        }
        proof {
            assert(all[i as int] == entries@[i as int]@);
            if at > 0 {
                assert(sorted[at - 1] == all[before[at - 1] as int]);
                assert(all[before[at - 1] as int] == entries@[before[at - 1] as int]@);
            }
            aged_with_at(sorted, all[i as int], at as int);
        }
        order.insert(at, i);
        assert(Seq::new(order@.len(), |k: int| all[order@[k] as int]) =~= sorted.insert(at as int, all[i as int])) by {
            assert(order@ == before.insert(at as int, i));
        }
        i = i + 1;
    }
    assert(all.take(i as int) =~= all);
    order
}

proof fn aged_with_at(sorted: Seq<InfoV>, entry: InfoV, at: int)
    requires
        0 <= at <= sorted.len(),
        forall|k: int| at <= k < sorted.len() ==> (#[trigger] sorted[k]).modified > entry.modified,
        at > 0 ==> sorted[at - 1].modified <= entry.modified,
    ensures
        aged_with(sorted, entry) == sorted.insert(at, entry),
    decreases sorted.len(),
{
    if at < sorted.len() {
        let shorter = sorted.drop_last();
        assert forall|k: int| at <= k < shorter.len() implies (#[trigger] shorter[k]).modified > entry.modified by {
            assert(shorter[k] == sorted[k]);
        }
        aged_with_at(shorter, entry, at);
        assert(aged_with(sorted, entry) =~= sorted.insert(at, entry));
    } else {
        assert(aged_with(sorted, entry) =~= sorted.insert(at, entry));
    }
}

/// Plans which entries to remove, the oldest first.
pub fn plan_evictions(
    entries: &Vec<EntryInfo>,
    total: u64,
    count: usize,
    target: Option<&str>,
    max_total: u64,
    max_entries: usize,
) -> (out: Result<Vec<String>, String>)
    ensures
        match (
            out,
            evictions(
                infos(entries@),
                total as nat,
                count as nat,
                opt_text(target),
                max_total as nat,
                max_entries as nat,
            ),
        ) {
            (Ok(names), Some(meant)) => texts(names@) == meant,
            (Err(e), None) => e@ == "thinking continuity store capacity is exhausted"@,
            _ => false,
        },
{
    let order = sort_by_age(entries);
    let ghost all = infos(entries@);
    let ghost sorted = aged(all);
    let ghost start = PlanV { total: total as nat, count: count as nat, removed: Seq::empty() };
    let mut total_left: u64 = total;
    let mut count_left: usize = count;
    let mut removed: Vec<String> = Vec::new();
    let mut i: usize = 0;
    assert(sorted.take(0) =~= Seq::empty());
    while i < order.len()
        invariant
            i <= order@.len(),
            order@.len() == entries@.len(),
            all == infos(entries@),
            sorted == aged(all),
            Seq::new(order@.len(), |k: int| all[order@[k] as int]) == sorted,
            forall|k: int| 0 <= k < order@.len() ==> (#[trigger] order@[k]) < entries@.len(),
            planned(sorted.take(i as int), start, opt_text(target), max_total as nat, max_entries as nat) == (PlanV {
                total: total_left as nat,
                count: count_left as nat,
                removed: texts(removed@),
            }),
        decreases order@.len() - i,
    {
        assert(sorted.take(i + 1).drop_last() =~= sorted.take(i as int));
        let at: usize = order[i];
        assert(sorted[i as int] == all[at as int]);
        assert(all[at as int] == entries@[at as int]@);
        let is_target = match target {
            Some(name) => same(name, entries[at].name.as_str()),
            None => false,
        };
        if !(total_left <= max_total && count_left <= max_entries) && !is_target {
            total_left = if total_left >= entries[at].size {
                total_left - entries[at].size
            } else {
                0
            };
            count_left = if count_left >= 1 {
                count_left - 1
            } else {
                0
            };
            removed.push(entries[at].name.clone());
        }
        i = i + 1;
    }
    assert(sorted.take(i as int) =~= sorted);
    if total_left > max_total || count_left > max_entries {
        return Err("thinking continuity store capacity is exhausted".to_owned());
    }
    Ok(removed)
}

/// The bytes of all entries.
pub open spec fn size_sum(entries: Seq<InfoV>) -> nat
    decreases entries.len(),
{
    if entries.len() == 0 {
        0
    } else {
        size_sum(entries.drop_last()) + entries.last().size as nat
    }
}

/// The size of the entry of a name, where there is one.
pub open spec fn size_of_name(entries: Seq<InfoV>, name: Option<Seq<char>>) -> Option<u64>
    decreases entries.len(),
{
    if entries.len() == 0 {
        None
    } else {
        match size_of_name(entries.drop_last(), name) {
            Some(size) => Some(size),
            None => if Some(entries.last().name) == name {
                Some(entries.last().size)
            } else {
                None
            },
        }
    }
}

pub open spec fn saturated(n: int) -> nat {
    if n > u64::MAX {
        u64::MAX as nat
    } else if n < 0 {
        0
    } else {
        n as nat
    }
}

/// The entries to remove before an entry of `incoming` bytes is written to `target`.
pub open spec fn cleanup(entries: Seq<InfoV>, incoming: u64, target: Option<Seq<char>>) -> Option<Seq<Seq<char>>> {
    let replaced = size_of_name(entries, target);
    let total = saturated(
        saturated(
            size_sum(entries) - (match replaced {
                Some(size) => size as int,
                None => 0,
            }),
        ) + incoming,
    );
    let count = entries.len() + if incoming > 0 && replaced is None {
        1nat
    } else {
        0nat
    };
    evictions(entries, total, count, target, MAX_TOTAL_BYTES as nat, MAX_ENTRIES as nat)
}

/// Plans which entries to remove before one is written.
pub fn plan_cleanup(entries: &Vec<EntryInfo>, incoming: u64, target: Option<&str>) -> (out: Result<Vec<String>, String>)
    requires
        size_sum(infos(entries@)) <= u64::MAX,
        entries@.len() < usize::MAX,
    ensures
        match out {
            Ok(names) => incoming <= MAX_ENTRY_BYTES && cleanup(infos(entries@), incoming, opt_text(target)) == Some(
                texts(names@),
            ),
            Err(e) => if incoming > MAX_ENTRY_BYTES {
                e@ == "thinking continuity entry exceeds the size limit"@
            } else {
                cleanup(infos(entries@), incoming, opt_text(target)) is None && e@
                    == "thinking continuity store capacity is exhausted"@
            },
        },
{
    if incoming > MAX_ENTRY_BYTES as u64 {
        return Err("thinking continuity entry exceeds the size limit".to_owned());
    }
    let ghost all = infos(entries@);
    let mut sum: u64 = 0;
    let mut replaced: Option<u64> = None;
    let mut i: usize = 0;
    while i < entries.len()
        invariant
            i <= entries@.len(),
            all == infos(entries@),
            size_sum(all) <= u64::MAX,
            sum == size_sum(all.take(i as int)),
            replaced == size_of_name(all.take(i as int), opt_text(target)),
        decreases entries@.len() - i,
    {
        assert(all.take(i + 1).drop_last() =~= all.take(i as int));
        assert(all[i as int] == entries@[i as int]@);
        proof {
            size_sum_grows(all, i + 1);
        }
        sum = sum + entries[i].size;
        if replaced.is_none() {
            if let Some(name) = target {
                if same(entries[i].name.as_str(), name) {
                    replaced = Some(entries[i].size);
                }
            }
        }
        i = i + 1;
    }
    assert(all.take(i as int) =~= all);
    let old: u64 = match replaced {
        Some(size) => size,
        None => 0,
    };
    let total: u64 = sum.saturating_sub(old).saturating_add(incoming);
    let count: usize = if incoming > 0 && replaced.is_none() {
        entries.len() + 1
    } else {
        entries.len()
    };
    assert(all.len() == entries@.len());
    plan_evictions(entries, total, count, target, MAX_TOTAL_BYTES, MAX_ENTRIES)
}

proof fn size_sum_grows(entries: Seq<InfoV>, i: int)
    requires
        0 <= i <= entries.len(),
    ensures
        size_sum(entries.take(i)) <= size_sum(entries),
    decreases entries.len() - i,
{
    if i < entries.len() {
        assert(entries.take(i + 1).drop_last() =~= entries.take(i));
        size_sum_grows(entries, i + 1);
    } else {
        assert(entries.take(i) =~= entries);
    }
}

/// What was found where a written entry should be.
pub enum FoundEntry {
    File(Vec<u8>),
    Nothing,
    Fault(String),
}

/// Whether a written entry may be undone; the reason where it may not.
pub fn rollback_refusal(found: &FoundEntry, written_digest: &Vec<u8>) -> (reason: Option<String>)
    ensures
        match found {
            FoundEntry::File(bytes) => if sha256(bytes@) == written_digest@ {
                reason is None
            } else {
                reason is Some && reason.unwrap()@ == "thinking continuity committed entry changed before rollback"@
            },
            FoundEntry::Nothing => reason is Some && reason.unwrap()@
                == "thinking continuity committed entry is missing"@,
            FoundEntry::Fault(e) => reason is Some && reason.unwrap()@ == e@,
        },
{
    match found {
        FoundEntry::File(bytes) => {
            let current = digest(bytes.as_slice());
            if same_bytes(&current, written_digest) {
                None
            } else {
                Some("thinking continuity committed entry changed before rollback".to_owned())
            }
        },
        FoundEntry::Nothing => Some("thinking continuity committed entry is missing".to_owned()),
        FoundEntry::Fault(e) => Some(e.clone()),
    }
}

/// The digest by which a written entry is known again.
pub fn written_digest(encrypted: &Vec<u8>) -> (hash: Vec<u8>)
    ensures
        hash@ == sha256(encrypted@),
{
    digest(encrypted.as_slice())
}

fn same_bytes(a: &Vec<u8>, b: &Vec<u8>) -> (yes: bool)
    ensures
        yes == (a@ == b@),
{
    if a.len() != b.len() {
        return false;
    }
    let mut i: usize = 0;
    while i < a.len()
        invariant
            i <= a@.len(),
            a@.len() == b@.len(),
            forall|k: int| 0 <= k < i ==> a@[k] == b@[k],
        decreases a@.len() - i,
    {
        if a[i] != b[i] {
            return false;
        }
        i = i + 1;
    }
    assert(a@ =~= b@);
    true
}

} // verus!
