//! Web search for a channel whose upstream cannot be offered the server tool on every turn.
//!
//! The request carries `web_search` as a tool of the client. A call of it is the wish to search: the
//! bridge takes the call out of the stream, asks for the search to be done, and puts the blocks of
//! the search into the same message before it ends.
use crate::anthropic_compat::{opt_tree, type_only, typed_object};
use crate::json::{Json, JsonV, NumberV};
use crate::json_model::{group_json_views, json_parse, json_parse_bytes, list_view, rendered, text_block, typed_block};
use crate::kimi_search_noise::{only_space, opt_string};
use crate::messages::{ErrorV, UpstreamError};
use crate::sse::{
    bytes_between, event_and_data, frame_end, frame_event, passthrough, render_sse, split_frame, sse_bytes,
};
use crate::text::{
    byte_len, concat, contains_text, decimal, group_texts, join, joined, number_text, opt_text, same, texts, trim, trimmed,
};
use vstd::prelude::*;
use vstd::utf8::encode_utf8;

verus! {

broadcast use {group_json_views, group_texts};

pub const MAX_FRAME_BYTES: usize = 1_048_576;

pub const MAX_TOOL_INPUT_BYTES: usize = 65_536;

pub const MAX_QUERY_BYTES: usize = 2_048;

/// The most searches of one turn.
pub const MAX_QUERIES: usize = 4;

pub const BRIDGE_TOOL_NAME: &'static str = "web_search";

pub const BRIDGE_TOOL_DESCRIPTION: &'static str =
    "Search the web for current information. Provide a focused query; results are fetched and returned automatically.";

/// The declaration of the client's tool that stands in for the server's.
pub open spec fn bridge_tool() -> JsonV {
    JsonV::object().and("name"@, JsonV::Str(BRIDGE_TOOL_NAME@)).and(
        "description"@,
        JsonV::Str(BRIDGE_TOOL_DESCRIPTION@),
    ).and(
        "input_schema"@,
        type_only("object"@).and(
            "properties"@,
            JsonV::object().and(
                "query"@,
                type_only("string"@).and("description"@, JsonV::Str("The search query"@)),
            ),
        ).and("required"@, JsonV::Array(seq![JsonV::Str("query"@)])),
    )
}

pub fn bridge_tool_declaration() -> (tool: Json)
    ensures
        tool@ == bridge_tool(),
{
    let mut required: Vec<Json> = Vec::new();
    required.push(Json::text("query"));
    assert(list_view(required@) =~= seq![JsonV::Str("query"@)]);
    let query = typed_object("string").and("description", Json::text("The search query"));
    let schema = typed_object("object").and("properties", Json::object().and("query", query)).and(
        "required",
        Json::array(required),
    );
    Json::object().and("name", Json::text(BRIDGE_TOOL_NAME)).and("description", Json::text(BRIDGE_TOOL_DESCRIPTION)).and(
        "input_schema",
        schema,
    )
}

/// Queries as a list of lines.
pub open spec fn listed(queries: Seq<Seq<char>>) -> Seq<Seq<char>> {
    queries.map_values(|q: Seq<char>| "- "@ + q)
}

/// The instruction to search for queries.
pub open spec fn instruction(queries: Seq<Seq<char>>) -> Seq<char> {
    if queries.len() == 1 {
        "Use web_search to look up: "@ + queries[0]
    } else {
        "Use web_search to look up each of the following, then answer:\n"@ + joined(listed(queries), "\n"@)
    }
}

fn write_instruction(queries: &Vec<String>) -> (text: String)
    ensures
        text@ == instruction(texts(queries@)),
{
    if queries.len() == 1 {
        return concat("Use web_search to look up: ", queries[0].as_str());
    }
    let ghost all = texts(queries@);
    let mut lines: Vec<String> = Vec::new();
    let mut i: usize = 0;
    while i < queries.len()
        invariant
            i <= queries@.len(),
            all == texts(queries@),
            texts(lines@) == listed(all).take(i as int),
        decreases queries@.len() - i,
    {
        assert(listed(all).take(i + 1) =~= listed(all).take(i as int).push("- "@ + all[i as int]));
        lines.push(concat("- ", queries[i].as_str()));
        i = i + 1;
    }
    assert(listed(all).take(i as int) =~= listed(all));
    let list = join(&lines, "\n");
    concat("Use web_search to look up each of the following, then answer:\n", list.as_str())
}

/// The tools without the one that stands in.
pub open spec fn without_bridge(tools: Seq<JsonV>) -> Seq<JsonV>
    decreases tools.len(),
{
    if tools.len() == 0 {
        Seq::empty()
    } else if tools.last().text_at("name"@) == Some(BRIDGE_TOOL_NAME@) {
        without_bridge(tools.drop_last())
    } else {
        without_bridge(tools.drop_last()).push(tools.last())
    }
}

/// The declaration of the server's tool.
pub open spec fn server_search() -> JsonV {
    type_only("web_search_20250305"@).and("name"@, JsonV::Str("web_search"@))
}

/// The request that does the search: the conversation, the instruction, and the server's tool.
pub open spec fn follow_up_request(original: JsonV, queries: Seq<Seq<char>>) -> Result<JsonV, Seq<char>> {
    match original {
        JsonV::Object(_) => match original.items_at("messages"@) {
            None => Err("web search bridge requires a 'messages' array"@),
            Some(messages) => {
                let ask = JsonV::object().and("role"@, JsonV::Str("user"@)).and(
                    "content"@,
                    JsonV::Str(instruction(queries)),
                );
                let asked = original.with("messages"@, JsonV::Array(messages.push(ask)));
                let tools = match asked.items_at("tools"@) {
                    Some(items) => without_bridge(items),
                    None => Seq::empty(),
                };
                let armed = asked.with("tools"@, JsonV::Array(seq![server_search()] + tools));
                Ok(armed.without("tool_choice"@).with("stream"@, JsonV::Bool(false)))
            },
        },
        _ => Err("web search bridge requires a JSON object request"@),
    }
}

fn server_search_json() -> (tool: Json)
    ensures
        tool@ == server_search(),
{
    typed_object("web_search_20250305").and("name", Json::text("web_search"))
}

/// Leaves out the tool that stands in.
pub fn drop_bridge_tool(tools: &Vec<Json>) -> (out: Vec<Json>)
    ensures
        list_view(out@) == without_bridge(list_view(tools@)),
{
    let ghost all = list_view(tools@);
    let mut out: Vec<Json> = Vec::new();
    let mut i: usize = 0;
    while i < tools.len()
        invariant
            i <= tools@.len(),
            all == list_view(tools@),
            list_view(out@) == without_bridge(all.take(i as int)),
        decreases tools@.len() - i,
    {
        assert(all.take(i + 1).drop_last() =~= all.take(i as int));
        if !tools[i].has_text("name", BRIDGE_TOOL_NAME) {
            out.push(tools[i].copy());
        }
        i = i + 1;
    }
    assert(all.take(i as int) =~= all);
    out
}

fn search_tools(tools: Option<&Vec<Json>>) -> (out: Vec<Json>)
    ensures
        list_view(out@) == seq![server_search()] + (match tools {
            Some(items) => without_bridge(list_view(items@)),
            None => Seq::empty(),
        }),
{
    let mut out: Vec<Json> = Vec::new();
    out.push(server_search_json());
    assert(list_view(out@) =~= seq![server_search()] + Seq::<JsonV>::empty());
    if let Some(items) = tools {
        let mut rest = drop_bridge_tool(items);
        let ghost kept = list_view(rest@);
        out.append(&mut rest);
        assert(list_view(out@) =~= seq![server_search()] + kept);
    }
    out
}

/// Builds the request that does the search.
pub fn search_request(original: &Json, queries: &Vec<String>) -> (out: Result<Json, String>)
    ensures
        match (out, follow_up_request(original@, texts(queries@))) {
            (Ok(body), Ok(tree)) => body@ == tree,
            (Err(e), Err(reason)) => e@ == reason,
            _ => false,
        },
{
    if !original.is_object() {
        return Err("web search bridge requires a JSON object request".to_owned());
    }
    let mut body = original.copy();
    let ask = Json::object().and("role", Json::text("user")).and(
        "content",
        Json::text(write_instruction(queries).as_str()),
    );
    match body.get_mut("messages") {
        Some(value) => match value.as_array_mut() {
            Some(messages) => {
                messages.push(ask);
            },
            None => {
                return Err("web search bridge requires a 'messages' array".to_owned());
            },
        },
        None => {
            return Err("web search bridge requires a 'messages' array".to_owned());
        },
    }
    let tools = search_tools(body.array_at("tools"));
    body.set("tools", Json::array(tools));
    let _ = body.unset("tool_choice");
    body.set("stream", Json::Bool(false));
    Ok(body)
}

/// Whether a block is evidence of a search.
pub open spec fn is_evidence(block: JsonV) -> bool {
    block.text_at("type"@) == Some("server_tool_use"@) || block.text_at("type"@) == Some("web_search_tool_result"@)
}

/// The place of the first evidence, or the number of blocks.
pub open spec fn first_evidence(blocks: Seq<JsonV>) -> int
    decreases blocks.len(),
{
    if blocks.len() == 0 || is_evidence(blocks[0]) {
        0
    } else {
        1 + first_evidence(blocks.drop_first())
    }
}

/// What of the answer belongs into the message: the evidence and what follows it.
pub open spec fn continuation(response: JsonV) -> Result<Seq<JsonV>, Seq<char>> {
    match response.items_at("content"@) {
        None => Err("web search follow-up response has no content array"@),
        Some(blocks) => if first_evidence(blocks) >= blocks.len() {
            Err("web search follow-up returned no server search blocks"@)
        } else {
            Ok(blocks.skip(first_evidence(blocks)))
        },
    }
}

/// What of the answer belongs into the message.
pub fn continuation_blocks(response: &Json) -> (out: Result<Vec<Json>, String>)
    ensures
        match (out, continuation(response@)) {
            (Ok(blocks), Ok(trees)) => list_view(blocks@) == trees,
            (Err(e), Err(reason)) => e@ == reason,
            _ => false,
        },
{
    let content = match response.array_at("content") {
        Some(content) => content,
        None => {
            return Err("web search follow-up response has no content array".to_owned());
        },
    };
    let ghost all = list_view(content@);
    let mut start: usize = 0;
    assert(all.skip(0) =~= all);
    while start < content.len() && !content[start].has_text("type", "server_tool_use") && !content[start].has_text(
        "type",
        "web_search_tool_result",
    )
        invariant
            start <= content@.len(),
            all == list_view(content@),
            first_evidence(all) == start + first_evidence(all.skip(start as int)),
        decreases content@.len() - start,
    {
        assert(all.skip(start as int).drop_first() =~= all.skip(start + 1));
        assert(all.skip(start as int)[0] == all[start as int]);
        start = start + 1;
    }
    assert(start < content@.len() ==> all.skip(start as int)[0] == all[start as int]);
    if start == content.len() {
        return Err("web search follow-up returned no server search blocks".to_owned());
    }
    let mut out: Vec<Json> = Vec::new();
    let mut i: usize = start;
    while i < content.len()
        invariant
            start <= i <= content@.len(),
            all == list_view(content@),
            list_view(out@) == all.subrange(start as int, i as int),
        decreases content@.len() - i,
    {
        out.push(content[i].copy());
        assert(list_view(out@) =~= all.subrange(start as int, i + 1));
        i = i + 1;
    }
    assert(all.subrange(start as int, i as int) =~= all.skip(start as int));
    Ok(out)
}

pub open spec fn number(n: u64) -> JsonV {
    JsonV::Number(NumberV::PosInt(n))
}

pub open spec fn start_frame(index: u64, block: JsonV) -> Seq<u8> {
    sse_bytes(
        Some("content_block_start"@),
        type_only("content_block_start"@).and("index"@, number(index)).and("content_block"@, block),
    )
}

pub open spec fn delta_frame(index: u64, delta: JsonV) -> Seq<u8> {
    sse_bytes(
        Some("content_block_delta"@),
        type_only("content_block_delta"@).and("index"@, number(index)).and("delta"@, delta),
    )
}

pub open spec fn stop_frame(index: u64) -> Seq<u8> {
    sse_bytes(Some("content_block_stop"@), type_only("content_block_stop"@).and("index"@, number(index)))
}

pub fn block_start(index: u64, block: Json) -> (out: Vec<u8>)
    ensures
        out@ == start_frame(index, block@),
{
    let frame = typed_object("content_block_start").and("index", Json::unsigned(index)).and("content_block", block);
    render_sse(Some("content_block_start"), &frame)
}

pub fn block_delta(index: u64, delta: Json) -> (out: Vec<u8>)
    ensures
        out@ == delta_frame(index, delta@),
{
    let frame = typed_object("content_block_delta").and("index", Json::unsigned(index)).and("delta", delta);
    render_sse(Some("content_block_delta"), &frame)
}

pub fn block_stop(index: u64) -> (out: Vec<u8>)
    ensures
        out@ == stop_frame(index),
{
    let frame = typed_object("content_block_stop").and("index", Json::unsigned(index));
    render_sse(Some("content_block_stop"), &frame)
}

pub open spec fn text_or_empty(block: JsonV, key: Seq<char>) -> Seq<char> {
    match block.text_at(key) {
        Some(t) => t,
        None => ""@,
    }
}

/// The delta frame of a text that is not empty.
pub open spec fn delta_of(index: u64, kind: Seq<char>, key: Seq<char>, text: Seq<char>) -> Seq<u8> {
    if text.len() == 0 {
        Seq::empty()
    } else {
        delta_frame(index, typed_block(kind, key, text))
    }
}

/// A block as the frames of a stream. Every field that streams piece by piece comes as a delta, for
/// a client keeps of such a field what the deltas bring.
pub open spec fn block_frames(index: u64, block: JsonV) -> Seq<u8> {
    let kind = text_or_empty(block, "type"@);
    let frames = if kind == "text"@ {
        start_frame(index, text_block(""@)) + delta_of(index, "text_delta"@, "text"@, text_or_empty(block, "text"@))
    } else if kind == "thinking"@ {
        start_frame(
            index,
            type_only("thinking"@).and("thinking"@, JsonV::Str(""@)).and("signature"@, JsonV::Str(""@)),
        ) + delta_of(index, "thinking_delta"@, "thinking"@, text_or_empty(block, "thinking"@)) + delta_of(
            index,
            "signature_delta"@,
            "signature"@,
            text_or_empty(block, "signature"@),
        )
    } else if kind == "server_tool_use"@ {
        let input = match block.get("input"@) {
            Some(v) => v,
            None => JsonV::object(),
        };
        start_frame(index, block.with("input"@, JsonV::object())) + delta_frame(
            index,
            typed_block("input_json_delta"@, "partial_json"@, rendered(input)),
        )
    } else {
        start_frame(index, block)
    };
    frames + stop_frame(index)
}

fn text_delta(index: u64, kind: &str, key: &str, text: &str) -> (out: Vec<u8>)
    ensures
        out@ == delta_of(index, kind@, key@, text@),
{
    if text.is_empty() {
        Vec::new()
    } else {
        block_delta(index, Json::typed(kind, key, text))
    }
}

pub fn str_or_empty<'a>(block: &'a Json, key: &str) -> (text: &'a str)
    ensures
        text@ == text_or_empty(block@, key@),
{
    match block.str_at(key) {
        Some(t) => t,
        None => "",
    }
}

/// Renders a block as the frames of a stream.
pub fn render_block(index: u64, block: &Json) -> (out: Vec<u8>)
    ensures
        out@ == block_frames(index, block@),
{
    let kind = str_or_empty(block, "type");
    let mut out: Vec<u8>;
    if same(kind, "text") {
        out = block_start(index, Json::typed("text", "text", ""));
        let delta = text_delta(index, "text_delta", "text", str_or_empty(block, "text"));
        out.extend_from_slice(delta.as_slice());
        assert(out@ =~= start_frame(index, text_block(""@)) + delta_of(index, "text_delta"@, "text"@, text_or_empty(block@, "text"@)));
    } else if same(kind, "thinking") {
        let shell = typed_object("thinking").and("thinking", Json::text("")).and("signature", Json::text(""));
        let ghost tree = shell@;
        out = block_start(index, shell);
        let first = text_delta(index, "thinking_delta", "thinking", str_or_empty(block, "thinking"));
        let second = text_delta(index, "signature_delta", "signature", str_or_empty(block, "signature"));
        out.extend_from_slice(first.as_slice());
        assert(out@ =~= start_frame(index, tree) + first@);
        out.extend_from_slice(second.as_slice());
        assert(out@ =~= start_frame(index, tree) + first@ + second@);
    } else if same(kind, "server_tool_use") {
        let mut shell = block.copy();
        shell.set("input", Json::object());
        let ghost tree = shell@;
        let partial = match block.get("input") {
            Some(v) => v.render(),
            None => Json::object().render(),
        };
        out = block_start(index, shell);
        let delta = block_delta(index, Json::typed("input_json_delta", "partial_json", partial.as_str()));
        out.extend_from_slice(delta.as_slice());
        assert(out@ =~= start_frame(index, tree) + delta@);
    } else {
        out = block_start(index, block.copy());
    }
    let ghost frames = out@;
    let stop = block_stop(index);
    out.extend_from_slice(stop.as_slice());
    assert(out@ =~= frames + stop_frame(index));
    out
}

/// The frame that ends a message with a reason.
pub open spec fn ending_frame(stop_reason: Seq<char>, usage: Option<JsonV>) -> Seq<u8> {
    let delta = JsonV::object().and("stop_reason"@, JsonV::Str(stop_reason)).and("stop_sequence"@, JsonV::Null);
    let frame = type_only("message_delta"@).and("delta"@, delta);
    sse_bytes(
        Some("message_delta"@),
        match usage {
            Some(u) => frame.and("usage"@, u),
            None => frame,
        },
    )
}

/// Renders the frame that ends a message.
pub fn render_message_delta(stop_reason: &str, usage: Option<&Json>) -> (out: Vec<u8>)
    ensures
        out@ == ending_frame(stop_reason@, opt_tree(usage)),
{
    let delta = Json::object().and("stop_reason", Json::text(stop_reason)).and("stop_sequence", Json::Null);
    let mut frame = typed_object("message_delta").and("delta", delta);
    if let Some(u) = usage {
        frame = frame.and("usage", u.copy());
    }
    render_sse(Some("message_delta"), &frame)
}

/// What the request for the search came to: its answer, or why there is none.
pub open spec fn follow_up_of(reply: Result<Seq<u8>, ErrorV>) -> Result<JsonV, Seq<char>> {
    match reply {
        Err(error) => Err(
            "web search follow-up failed upstream ("@ + decimal(error.status as nat) + "): "@ + error.detail,
        ),
        Ok(bytes) => match json_parse_bytes(bytes) {
            Ok(tree) => Ok(tree),
            Err(_) => Err("web search follow-up returned invalid JSON"@),
        },
    }
}

/// Reads what the request for the search came to.
pub fn follow_up_answer(reply: Result<Vec<u8>, UpstreamError>) -> (out: Result<Json, String>)
    ensures
        match (
            out,
            follow_up_of(
                match reply {
                    Ok(bytes) => Ok(bytes@),
                    Err(error) => Err(error@),
                },
            ),
        ) {
            (Ok(tree), Ok(meant)) => tree@ == meant,
            (Err(e), Err(reason)) => e@ == reason,
            _ => false,
        },
{
    match reply {
        Ok(bytes) => match Json::parse_bytes(bytes.as_slice()) {
            Ok(tree) => Ok(tree),
            Err(_) => Err("web search follow-up returned invalid JSON".to_owned()),
        },
        Err(error) => {
            let start = concat("web search follow-up failed upstream (", number_text(error.status as u64).as_str());
            let told = concat(start.as_str(), "): ");
            Err(concat(told.as_str(), error.detail.as_str()))
        },
    }
}

/// The state of the bridge.
#[verifier::ext_equal]
pub struct BridgeV {
    pub buf: Seq<u8>,
    pub next_upstream: u64,
    pub next_output: u64,
    /// The block that is open: its index upstream and the one it goes out with.
    pub active: Option<(u64, u64)>,
    /// The input so far of the call that is being taken out.
    pub swallowed: Option<Seq<char>>,
    pub queries: Seq<Seq<char>>,
    pub swallowed_blocks: usize,
    /// Whether the search has been asked for.
    pub resolved: bool,
    /// Whether the outcome of the search is awaited. The frame that asked for it still heads the buffer.
    pub waiting: bool,
    /// What goes out together with the search, once that succeeds.
    pub held: Seq<u8>,
}

/// What a frame gives: bytes that go out, or the wish to search.
#[verifier::ext_equal]
pub enum FrameOut {
    Bytes(Seq<u8>),
    Search,
}

pub open spec fn new_bridge() -> BridgeV {
    BridgeV {
        buf: Seq::empty(),
        next_upstream: 0,
        next_output: 0,
        active: None,
        swallowed: None,
        queries: Seq::empty(),
        swallowed_blocks: 0,
        resolved: false,
        waiting: false,
        held: Seq::empty(),
    }
}

/// The text under two keys.
pub open spec fn text_under(obj: JsonV, outer: Seq<char>, inner: Seq<char>) -> Option<Seq<char>> {
    match obj.get(outer) {
        Some(v) => v.text_at(inner),
        None => None,
    }
}

/// The query that a call's input holds, where it can be used.
pub open spec fn usable_query(input: Option<JsonV>) -> Option<Seq<char>> {
    match input {
        Some(v) => match v.text_at("query"@) {
            Some(t) => if trimmed(t).len() > 0 && encode_utf8(trimmed(t)).len() <= MAX_QUERY_BYTES {
                Some(trimmed(t))
            } else {
                None
            },
            None => None,
        },
        None => None,
    }
}

/// The call that is being taken out goes on.
pub open spec fn on_swallowed(s: BridgeV, kind: Seq<char>, obj: JsonV) -> (BridgeV, Result<Seq<u8>, Seq<char>>) {
    if kind == "content_block_delta"@ {
        let fragment = match text_under(obj, "delta"@, "partial_json"@) {
            Some(t) => t,
            None => ""@,
        };
        let input = s.swallowed.unwrap() + fragment;
        let s1 = BridgeV { swallowed: Some(input), ..s };
        if encode_utf8(input).len() > MAX_TOOL_INPUT_BYTES {
            (s1, Err("Kimi for Coding web search input exceeds the bounded buffer"@))
        } else {
            (s1, Ok(Seq::empty()))
        }
    } else if kind == "content_block_stop"@ {
        let s1 = BridgeV { swallowed: None, ..s };
        if s.next_upstream == u64::MAX {
            (s1, Err("Kimi for Coding content block index overflow"@))
        } else {
            let s2 = BridgeV { next_upstream: (s.next_upstream + 1) as u64, ..s1 };
            match usable_query(json_parse(s.swallowed.unwrap())) {
                None => (s2, Err("Kimi for Coding web search request has no usable query"@)),
                Some(query) => (
                    if s.queries.contains(query) {
                        s2
                    } else {
                        BridgeV { queries: s.queries.push(query), ..s2 }
                    },
                    Ok(Seq::empty()),
                ),
            }
        }
    } else if kind == "ping"@ {
        (s, Ok(Seq::empty()))
    } else {
        (s, Err("Kimi for Coding web search block ended before content_block_stop"@))
    }
}

/// A block that goes out goes on.
pub open spec fn on_active(s: BridgeV, kind: Seq<char>, event: Option<Seq<char>>, obj: JsonV) -> (
    BridgeV,
    Result<Seq<u8>, Seq<char>>,
) {
    let (upstream, mapped) = s.active.unwrap();
    if kind == "error"@ {
        (BridgeV { active: None, ..s }, Ok(sse_bytes(event, obj)))
    } else if kind == "ping"@ {
        (s, Ok(sse_bytes(event, obj)))
    } else if obj.unsigned_at("index"@) != Some(upstream) {
        (s, Err("Kimi for Coding content block index changed"@))
    } else if kind != "content_block_delta"@ && kind != "content_block_stop"@ {
        (s, Err("Kimi for Coding content block ended before content_block_stop"@))
    } else {
        let out = sse_bytes(event, obj.with("index"@, number(mapped)));
        if kind == "content_block_stop"@ {
            let s1 = BridgeV { active: None, ..s };
            if s.next_upstream == u64::MAX {
                (s1, Err("Kimi for Coding content block index overflow"@))
            } else {
                let s2 = BridgeV { next_upstream: (s.next_upstream + 1) as u64, ..s1 };
                if s.next_output == u64::MAX {
                    (s2, Err("Kimi for Coding output block index overflow"@))
                } else {
                    (BridgeV { next_output: (s.next_output + 1) as u64, ..s2 }, Ok(out))
                }
            }
        } else {
            (s, Ok(out))
        }
    }
}

/// Whether a block is a call of the tool that stands in.
pub open spec fn is_bridge_call(block: JsonV) -> bool {
    block.text_at("type"@) == Some("tool_use"@) && block.text_at("name"@) == Some(BRIDGE_TOOL_NAME@)
}

/// The input that a block brings when it starts.
pub open spec fn seed_input(block: JsonV) -> Seq<char> {
    match block.get("input"@) {
        Some(JsonV::Object(entries)) => if entries.len() > 0 {
            rendered(JsonV::Object(entries))
        } else {
            Seq::empty()
        },
        _ => Seq::empty(),
    }
}

/// A block starts.
pub open spec fn on_start(s: BridgeV, event: Option<Seq<char>>, obj: JsonV) -> (BridgeV, Result<Seq<u8>, Seq<char>>) {
    match obj.unsigned_at("index"@) {
        None => (s, Err("Kimi for Coding content block start index is invalid"@)),
        Some(index) => if index != s.next_upstream {
            (s, Err("Kimi for Coding content block start index is invalid"@))
        } else {
            let block = obj.get("content_block"@);
            if block is Some && is_bridge_call(block.unwrap()) {
                if s.queries.len() >= MAX_QUERIES {
                    (s, Err("Kimi for Coding web search requested too many queries"@))
                } else {
                    (
                        BridgeV {
                            swallowed: Some(seed_input(block.unwrap())),
                            swallowed_blocks: s.swallowed_blocks.wrapping_add(1),
                            ..s
                        },
                        Ok(Seq::empty()),
                    )
                }
            } else {
                (
                    BridgeV { active: Some((index, s.next_output)), ..s },
                    Ok(sse_bytes(event, obj.with("index"@, number(s.next_output)))),
                )
            }
        },
    }
}

pub open spec fn as_bytes_out(step: (BridgeV, Result<Seq<u8>, Seq<char>>)) -> (BridgeV, Result<FrameOut, Seq<char>>) {
    (
        step.0,
        match step.1 {
            Ok(bytes) => Ok(FrameOut::Bytes(bytes)),
            Err(e) => Err(e),
        },
    )
}

/// One frame of the stream.
pub open spec fn bridge_frame(s: BridgeV, frame: Seq<u8>, sep: Seq<u8>) -> (BridgeV, Result<FrameOut, Seq<char>>) {
    let (event, data) = frame_event(frame);
    let plain = (s, Ok(FrameOut::Bytes(frame + sep)));
    match json_parse(data) {
        None => plain,
        Some(obj) => match obj.text_at("type"@) {
            None => plain,
            Some(kind) => if data.len() == 0 {
                plain
            } else if event is Some && event.unwrap() != kind {
                (s, Err("Kimi for Coding SSE event and JSON type do not match"@))
            } else if s.swallowed is Some {
                as_bytes_out(on_swallowed(s, kind, obj))
            } else if s.active is Some {
                as_bytes_out(on_active(s, kind, event, obj))
            } else if kind == "content_block_start"@ {
                as_bytes_out(on_start(s, event, obj))
            } else if kind == "message_delta"@ && s.queries.len() > 0 && !s.resolved {
                (BridgeV { resolved: true, ..s }, Ok(FrameOut::Search))
            } else {
                plain
            },
        },
    }
}

/// What has gone out, and whether the outcome of a search is awaited.
#[verifier::ext_equal]
pub struct StepV {
    pub out: Seq<u8>,
    pub search: bool,
}

/// A step behind bytes that stand before it: they go out first, or are held where a search is awaited.
pub open spec fn step_after(before: Seq<u8>, step: (BridgeV, Result<StepV, Seq<char>>)) -> (
    BridgeV,
    Result<StepV, Seq<char>>,
) {
    match step.1 {
        Ok(more) => if more.search {
            (BridgeV { held: before + step.0.held, ..step.0 }, step.1)
        } else {
            (step.0, Ok(StepV { out: before + more.out, search: false }))
        },
        Err(e) => step,
    }
}

/// What stands behind the first frame of a buffer.
pub open spec fn behind_frame(buf: Seq<u8>) -> Seq<u8> {
    match frame_end(buf) {
        Some((at, sep)) => buf.skip(at + sep),
        None => buf,
    }
}

/// The frames in the buffer, one after another, up to a search.
pub open spec fn bridge_drained(s: BridgeV) -> (BridgeV, Result<StepV, Seq<char>>)
    decreases s.buf.len(),
{
    if s.waiting {
        (s, Ok(StepV { out: Seq::empty(), search: true }))
    } else {
        match frame_end(s.buf) {
            None => if s.buf.len() > MAX_FRAME_BYTES {
                (s, Err("Kimi for Coding SSE frame exceeds the bounded buffer"@))
            } else {
                (s, Ok(StepV { out: Seq::empty(), search: false }))
            },
            Some((at, sep)) => if at < 0 || sep <= 0 || at + sep > s.buf.len() {
                (s, Ok(StepV { out: Seq::empty(), search: false }))
            } else {
                let (s1, r) = bridge_frame(s, s.buf.take(at), s.buf.subrange(at, at + sep));
                let rest = s.buf.skip(at + sep);
                match r {
                    Err(e) => (s1, Err(e)),
                    Ok(FrameOut::Bytes(out)) => step_after(out, bridge_drained(BridgeV { buf: rest, ..s1 })),
                    Ok(FrameOut::Search) => (
                        BridgeV { waiting: true, held: Seq::empty(), ..s1 },
                        Ok(StepV { out: Seq::empty(), search: true }),
                    ),
                }
            },
        }
    }
}

/// Bytes handed to the bridge.
pub open spec fn bridge_fed(s: BridgeV, chunk: Seq<u8>) -> (BridgeV, Result<StepV, Seq<char>>) {
    bridge_drained(BridgeV { buf: s.buf + chunk, ..s })
}

/// Blocks rendered one after another from an index on.
pub open spec fn spliced(s: BridgeV, blocks: Seq<JsonV>) -> (BridgeV, Result<Seq<u8>, Seq<char>>)
    decreases blocks.len(),
{
    if blocks.len() == 0 {
        (s, Ok(Seq::empty()))
    } else {
        match spliced(s, blocks.drop_last()) {
            (s1, Err(e)) => (s1, Err(e)),
            (s1, Ok(out)) => if s1.next_output == u64::MAX {
                (s1, Err("Kimi for Coding output block index overflow"@))
            } else {
                (
                    BridgeV { next_output: (s1.next_output + 1) as u64, ..s1 },
                    Ok(out + block_frames(s1.next_output, blocks.last())),
                )
            },
        }
    }
}

/// The reason with which the message ends after a search.
pub open spec fn ending_reason(follow_up: JsonV) -> Seq<char> {
    match follow_up.text_at("stop_reason"@) {
        Some(reason) => if reason == "tool_use"@ {
            "end_turn"@
        } else {
            reason
        },
        None => "end_turn"@,
    }
}

/// The outcome of the search put into the message: its blocks and a new ending.
pub open spec fn search_spliced(s: BridgeV, follow_up: JsonV) -> (BridgeV, Result<Seq<u8>, Seq<char>>) {
    match continuation(follow_up) {
        Err(e) => (s, Err(e)),
        Ok(blocks) => match spliced(s, blocks) {
            (s1, Err(e)) => (s1, Err(e)),
            (s1, Ok(out)) => (
                s1,
                Ok(out + ending_frame(ending_reason(follow_up), follow_up.get("usage"@))),
            ),
        },
    }
}

/// The outcome of the search, and the frames that waited behind it. Where it failed, the frame that asked
/// for it stays, and what was held is dropped.
pub open spec fn search_done(s: BridgeV, follow_up: Result<JsonV, Seq<char>>) -> (BridgeV, Result<StepV, Seq<char>>) {
    let s0 = BridgeV { waiting: false, held: Seq::empty(), ..s };
    match follow_up {
        Err(e) => (s0, Err(e)),
        Ok(response) => match search_spliced(s0, response) {
            (s1, Err(e)) => (s1, Err(e)),
            (s1, Ok(out)) => {
                let rest = if s.waiting {
                    behind_frame(s1.buf)
                } else {
                    s1.buf
                };
                step_after(s.held + out, bridge_drained(BridgeV { buf: rest, ..s1 }))
            },
        },
    }
}

/// The end of the stream.
pub open spec fn bridge_finished(s: BridgeV) -> (BridgeV, Result<Seq<u8>, Seq<char>>) {
    if s.swallowed is Some || s.active is Some {
        (s, Err("Kimi for Coding content block ended before content_block_stop"@))
    } else if !only_space(s.buf) {
        (s, Err("Kimi for Coding SSE stream ended with a partial frame"@))
    } else {
        (BridgeV { buf: Seq::empty(), ..s }, Ok(Seq::empty()))
    }
}

/// Takes the calls of the stand-in tool out of a stream and puts the search in.
pub struct WebSearchBridge {
    buf: Vec<u8>,
    next_upstream_index: u64,
    next_output_index: u64,
    active_output_block: Option<(u64, u64)>,
    swallowed: Option<String>,
    queries: Vec<String>,
    swallowed_blocks: usize,
    resolved: bool,
    waiting: bool,
    held: Vec<u8>,
}

impl View for WebSearchBridge {
    type V = BridgeV;

    closed spec fn view(&self) -> BridgeV {
        BridgeV {
            buf: self.buf@,
            next_upstream: self.next_upstream_index,
            next_output: self.next_output_index,
            active: self.active_output_block,
            swallowed: opt_string(self.swallowed),
            queries: texts(self.queries@),
            swallowed_blocks: self.swallowed_blocks,
            resolved: self.resolved,
            waiting: self.waiting,
            held: self.held@,
        }
    }
}

/// What has gone out, and whether the outcome of a search is awaited.
pub struct BridgeStep {
    pub out: Vec<u8>,
    pub search: bool,
}

pub open spec fn step_outcome(out: Result<BridgeStep, String>) -> Result<StepV, Seq<char>> {
    match out {
        Ok(step) => Ok(StepV { out: step.out@, search: step.search }),
        Err(e) => Err(e@),
    }
}

pub open spec fn bytes_outcome(out: Result<Vec<u8>, String>) -> Result<Seq<u8>, Seq<char>> {
    match out {
        Ok(bytes) => Ok(bytes@),
        Err(e) => Err(e@),
    }
}

pub enum FrameStep {
    Bytes(Vec<u8>),
    Search,
}

pub open spec fn frame_outcome(out: Result<FrameStep, String>) -> Result<FrameOut, Seq<char>> {
    match out {
        Ok(FrameStep::Bytes(bytes)) => Ok(FrameOut::Bytes(bytes@)),
        Ok(FrameStep::Search) => Ok(FrameOut::Search),
        Err(e) => Err(e@),
    }
}

fn as_frame_step(out: Result<Vec<u8>, String>) -> (step: Result<FrameStep, String>)
    ensures
        frame_outcome(step) == (match bytes_outcome(out) {
            Ok(bytes) => Ok::<FrameOut, Seq<char>>(FrameOut::Bytes(bytes)),
            Err(e) => Err(e),
        }),
{
    match out {
        Ok(bytes) => Ok(FrameStep::Bytes(bytes)),
        Err(e) => Err(e),
    }
}

fn read_query(input: &str) -> (query: Option<String>)
    ensures
        opt_string(query) == usable_query(json_parse(input@)),
{
    match Json::parse(input) {
        Some(v) => match v.str_at("query") {
            Some(t) => {
                let q = trim(t);
                if !q.as_str().is_empty() && byte_len(q.as_str()) <= MAX_QUERY_BYTES {
                    Some(q)
                } else {
                    None
                }
            },
            None => None,
        },
        None => None,
    }
}

impl WebSearchBridge {
    pub fn new() -> (bridge: WebSearchBridge)
        ensures
            bridge@ == new_bridge(),
    {
        WebSearchBridge {
            buf: Vec::new(),
            next_upstream_index: 0,
            next_output_index: 0,
            active_output_block: None,
            swallowed: None,
            queries: Vec::new(),
            swallowed_blocks: 0,
            resolved: false,
            waiting: false,
            held: Vec::new(),
        }
    }

    /// The queries that were asked for, in order, each once.
    pub fn queries(&self) -> (queries: &Vec<String>)
        ensures
            texts(queries@) == self@.queries,
    {
        &self.queries
    }

    pub fn swallowed_blocks(&self) -> (n: usize)
        ensures
            n == self@.swallowed_blocks,
    {
        self.swallowed_blocks
    }

    fn rewrite_swallowed_frame(&mut self, kind: &str, obj: &Json) -> (out: Result<Vec<u8>, String>)
        requires
            old(self)@.swallowed is Some,
        ensures
            (final(self)@, bytes_outcome(out)) == on_swallowed(old(self)@, kind@, obj@),
    {
        if same(kind, "content_block_delta") {
            let fragment = match obj.get("delta") {
                Some(delta) => match delta.str_at("partial_json") {
                    Some(t) => t,
                    None => "",
                },
                None => "",
            };
            match self.swallowed.take() {
                Some(input) => {
                    let mut input = input;
                    input.append(fragment);
                    let over = byte_len(input.as_str()) > MAX_TOOL_INPUT_BYTES;
                    self.swallowed = Some(input);
                    if over {
                        Err("Kimi for Coding web search input exceeds the bounded buffer".to_owned())
                    } else {
                        Ok(Vec::new())
                    }
                },
                None => Ok(Vec::new()),
            }
        } else if same(kind, "content_block_stop") {
            let input = match self.swallowed.take() {
                Some(input) => input,
                None => String::new(),
            };
            if self.next_upstream_index == u64::MAX {
                return Err("Kimi for Coding content block index overflow".to_owned());
            }
            self.next_upstream_index = self.next_upstream_index + 1;
            match read_query(input.as_str()) {
                None => Err("Kimi for Coding web search request has no usable query".to_owned()),
                Some(query) => {
                    if !contains_text(&self.queries, query.as_str()) {
                        self.queries.push(query);
                    }
                    Ok(Vec::new())
                },
            }
        } else if same(kind, "ping") {
            Ok(Vec::new())
        } else {
            Err("Kimi for Coding web search block ended before content_block_stop".to_owned())
        }
    }

    fn rewrite_active_frame(&mut self, kind: &str, event: Option<&str>, obj: Json) -> (out: Result<Vec<u8>, String>)
        requires
            old(self)@.active is Some,
        ensures
            (final(self)@, bytes_outcome(out)) == on_active(old(self)@, kind@, opt_text(event), obj@),
    {
        if same(kind, "error") {
            self.active_output_block = None;
            return Ok(render_sse(event, &obj));
        }
        if same(kind, "ping") {
            return Ok(render_sse(event, &obj));
        }
        let (upstream, mapped): (u64, u64) = match self.active_output_block {
            Some(pair) => pair,
            None => (0, 0),
        };
        let matches_index = match obj.u64_at("index") {
            Some(index) => index == upstream,
            None => false,
        };
        if !matches_index {
            return Err("Kimi for Coding content block index changed".to_owned());
        }
        let stop = same(kind, "content_block_stop");
        if !stop && !same(kind, "content_block_delta") {
            return Err("Kimi for Coding content block ended before content_block_stop".to_owned());
        }
        let mut obj = obj;
        obj.set("index", Json::unsigned(mapped));
        if stop {
            self.active_output_block = None;
            if self.next_upstream_index == u64::MAX {
                return Err("Kimi for Coding content block index overflow".to_owned());
            }
            self.next_upstream_index = self.next_upstream_index + 1;
            if self.next_output_index == u64::MAX {
                return Err("Kimi for Coding output block index overflow".to_owned());
            }
            self.next_output_index = self.next_output_index + 1;
        }
        Ok(render_sse(event, &obj))
    }

    fn start_block(&mut self, event: Option<&str>, obj: Json) -> (out: Result<Vec<u8>, String>)
        ensures
            (final(self)@, bytes_outcome(out)) == on_start(old(self)@, opt_text(event), obj@),
    {
        let index = match obj.u64_at("index") {
            Some(index) => index,
            None => {
                return Err("Kimi for Coding content block start index is invalid".to_owned());
            },
        };
        if index != self.next_upstream_index {
            return Err("Kimi for Coding content block start index is invalid".to_owned());
        }
        let call = match obj.get("content_block") {
            Some(block) => if block.has_text("type", "tool_use") && block.has_text("name", BRIDGE_TOOL_NAME) {
                let seed = match block.get("input") {
                    Some(input) => {
                        assert(input@ is Object && input@->Object_0.len() == 0 ==> input@->Object_0 =~= Seq::empty());
                        if input.is_object() && !input.is_empty_object() {
                            input.render()
                        } else {
                            String::new()
                        }
                    },
                    None => String::new(),
                };
                assert(seed@ =~= seed_input(block@));
                Some(seed)
            } else {
                None
            },
            None => None,
        };
        match call {
            Some(seed) => {
                if self.queries.len() >= MAX_QUERIES {
                    return Err("Kimi for Coding web search requested too many queries".to_owned());
                }
                self.swallowed = Some(seed);
                self.swallowed_blocks = self.swallowed_blocks.wrapping_add(1);
                Ok(Vec::new())
            },
            None => {
                let mut obj = obj;
                let mapped: u64 = self.next_output_index;
                obj.set("index", Json::unsigned(mapped));
                self.active_output_block = Some((index, mapped));
                Ok(render_sse(event, &obj))
            },
        }
    }

    fn rewrite_frame(&mut self, frame: &[u8], sep: &[u8]) -> (out: Result<FrameStep, String>)
        ensures
            (final(self)@, frame_outcome(out)) == bridge_frame(old(self)@, frame@, sep@),
    {
        let (event, data) = event_and_data(frame);
        if data.as_str().is_empty() {
            return Ok(FrameStep::Bytes(passthrough(frame, sep)));
        }
        let obj = match Json::parse(data.as_str()) {
            Some(obj) => obj,
            None => {
                return Ok(FrameStep::Bytes(passthrough(frame, sep)));
            },
        };
        let kind = match obj.str_at("type") {
            Some(kind) => kind.to_owned(),
            None => {
                return Ok(FrameStep::Bytes(passthrough(frame, sep)));
            },
        };
        let event_ref = match &event {
            Some(e) => Some(e.as_str()),
            None => None,
        };
        assert(opt_text(event_ref) == frame_event(frame@).0);
        if let Some(e) = event_ref {
            if !same(e, kind.as_str()) {
                return Err("Kimi for Coding SSE event and JSON type do not match".to_owned());
            }
        }
        if self.swallowed.is_some() {
            return as_frame_step(self.rewrite_swallowed_frame(kind.as_str(), &obj));
        }
        if self.active_output_block.is_some() {
            return as_frame_step(self.rewrite_active_frame(kind.as_str(), event_ref, obj));
        }
        if same(kind.as_str(), "content_block_start") {
            return as_frame_step(self.start_block(event_ref, obj));
        }
        if same(kind.as_str(), "message_delta") && self.queries.len() > 0 && !self.resolved {
            self.resolved = true;
            return Ok(FrameStep::Search);
        }
        Ok(FrameStep::Bytes(passthrough(frame, sep)))
    }

    fn drain(&mut self) -> (out: Result<BridgeStep, String>)
        ensures
            (final(self)@, step_outcome(out)) == bridge_drained(old(self)@),
    {
        let ghost start = self@;
        let mut out: Vec<u8> = Vec::new();
        proof {
            nothing_before(bridge_drained(start));
        }
        loop
            invariant
                step_after(out@, bridge_drained(self@)) == bridge_drained(start),
                start == old(self)@,
            decreases self.buf@.len(),
        {
            if self.waiting {
                let mut held = out;
                let ghost done = held@;
                held.extend_from_slice(self.held.as_slice());
                assert(held@ =~= done + self.held@);
                self.held = held;
                return Ok(BridgeStep { out: Vec::new(), search: true });
            }
            let (frame, sep_len, rest) = match split_frame(self.buf.as_slice()) {
                Some(found) => found,
                None => {
                    assert(out@ + Seq::<u8>::empty() =~= out@);
                    if self.buf.len() > MAX_FRAME_BYTES {
                        return Err("Kimi for Coding SSE frame exceeds the bounded buffer".to_owned());
                    }
                    return Ok(BridgeStep { out, search: false });
                },
            };
            let n: usize = self.buf.len();
            assert(frame@.len() + sep_len <= n);
            let sep = bytes_between(self.buf.as_slice(), frame.len(), frame.len() + sep_len);
            let ghost before = self@;
            proof {
                crate::kimi_search_noise_laws::frame_end_stays(before.buf, Seq::empty());
            }
            match self.rewrite_frame(frame.as_slice(), sep.as_slice()) {
                Ok(FrameStep::Bytes(more)) => {
                    let ghost done = out@;
                    out.extend_from_slice(more.as_slice());
                    self.buf = rest;
                    proof {
                        assert(out@ =~= done + more@);
                        steps_after(done, more@, bridge_drained(self@));
                    }
                },
                Ok(FrameStep::Search) => {
                    self.waiting = true;
                    assert(out@ + Seq::<u8>::empty() =~= out@);
                    self.held = out;
                    return Ok(BridgeStep { out: Vec::new(), search: true });
                },
                Err(e) => {
                    return Err(e);
                },
            }
        }
    }

    /// Takes more of the stream. Where a search is wanted, the stream stops until its outcome is
    /// handed over.
    pub fn feed(&mut self, chunk: &[u8]) -> (out: Result<BridgeStep, String>)
        ensures
            (final(self)@, step_outcome(out)) == bridge_fed(old(self)@, chunk@),
    {
        let ghost was = self.buf@;
        self.buf.extend_from_slice(chunk);
        assert(self.buf@ =~= was + chunk@);
        self.drain()
    }

    fn splice(&mut self, blocks: &Vec<Json>) -> (out: Result<Vec<u8>, String>)
        ensures
            (final(self)@, bytes_outcome(out)) == spliced(old(self)@, list_view(blocks@)),
    {
        let ghost all = list_view(blocks@);
        let ghost start = self@;
        let mut out: Vec<u8> = Vec::new();
        let mut i: usize = 0;
        while i < blocks.len()
            invariant
                i <= blocks@.len(),
                all == list_view(blocks@),
                start == old(self)@,
                spliced(start, all.take(i as int)) == (self@, Ok::<Seq<u8>, Seq<char>>(out@)),
            decreases blocks@.len() - i,
        {
            assert(all.take(i + 1).drop_last() =~= all.take(i as int));
            if self.next_output_index == u64::MAX {
                proof {
                    splice_stays(start, all, i + 1);
                }
                return Err("Kimi for Coding output block index overflow".to_owned());
            }
            let ghost done = out@;
            let frames = render_block(self.next_output_index, &blocks[i]);
            out.extend_from_slice(frames.as_slice());
            assert(out@ =~= done + frames@);
            self.next_output_index = self.next_output_index + 1;
            i = i + 1;
        }
        assert(all.take(i as int) =~= all);
        Ok(out)
    }

    fn splice_search(&mut self, follow_up: &Json) -> (out: Result<Vec<u8>, String>)
        ensures
            (final(self)@, bytes_outcome(out)) == search_spliced(old(self)@, follow_up@),
    {
        let blocks = match continuation_blocks(follow_up) {
            Ok(blocks) => blocks,
            Err(e) => {
                return Err(e);
            },
        };
        match self.splice(&blocks) {
            Ok(bytes) => {
                let mut out = bytes;
                let ghost done = out@;
                let reason = match follow_up.str_at("stop_reason") {
                    Some(reason) => if same(reason, "tool_use") {
                        "end_turn"
                    } else {
                        reason
                    },
                    None => "end_turn",
                };
                let ending = render_message_delta(reason, follow_up.get("usage"));
                out.extend_from_slice(ending.as_slice());
                assert(out@ =~= done + ending@);
                Ok(out)
            },
            Err(e) => Err(e),
        }
    }

    /// Hands over the outcome of the search; the blocks of it go out in place of the ending that the
    /// upstream sent, and the stream goes on. Where the search failed, that ending is kept and goes out
    /// with what is fed next.
    pub fn resolve_search(&mut self, follow_up: Result<Json, String>) -> (out: Result<BridgeStep, String>)
        ensures
            (final(self)@, step_outcome(out)) == search_done(
                old(self)@,
                match follow_up {
                    Ok(response) => Ok(response@),
                    Err(e) => Err(e@),
                },
            ),
    {
        let waited = self.waiting;
        let mut out: Vec<u8> = Vec::new();
        out.append(&mut self.held);
        let ghost held = out@;
        self.waiting = false;
        let response = match follow_up {
            Ok(response) => response,
            Err(e) => {
                return Err(e);
            },
        };
        match self.splice_search(&response) {
            Ok(bytes) => {
                out.extend_from_slice(bytes.as_slice());
                assert(out@ =~= held + bytes@);
                if waited {
                    if let Some((_, _, rest)) = split_frame(self.buf.as_slice()) {
                        self.buf = rest;
                    }
                }
                let ghost done = out@;
                match self.drain() {
                    Ok(step) => {
                        if step.search {
                            let ghost step_held = self.held@;
                            let mut all = out;
                            all.append(&mut self.held);
                            assert(all@ =~= done + step_held);
                            self.held = all;
                            return Ok(step);
                        }
                        out.extend_from_slice(step.out.as_slice());
                        assert(out@ =~= done + step.out@);
                        Ok(BridgeStep { out, search: false })
                    },
                    Err(e) => Err(e),
                }
            },
            Err(e) => Err(e),
        }
    }

    /// Ends the stream.
    pub fn finalize(&mut self) -> (out: Result<Vec<u8>, String>)
        ensures
            (final(self)@, bytes_outcome(out)) == bridge_finished(old(self)@),
    {
        if self.swallowed.is_some() || self.active_output_block.is_some() {
            return Err("Kimi for Coding content block ended before content_block_stop".to_owned());
        }
        if !crate::kimi_search_noise::is_only_space(self.buf.as_slice()) {
            return Err("Kimi for Coding SSE stream ended with a partial frame".to_owned());
        }
        self.buf = Vec::new();
        Ok(Vec::new())
    }
}

proof fn nothing_before(step: (BridgeV, Result<StepV, Seq<char>>))
    ensures
        step_after(Seq::empty(), step) == step,
{
    match step.1 {
        Ok(more) => {
            assert(Seq::<u8>::empty() + more.out =~= more.out);
            assert(Seq::<u8>::empty() + step.0.held =~= step.0.held);
        },
        Err(_) => {},
    }
}

proof fn steps_after(a: Seq<u8>, b: Seq<u8>, step: (BridgeV, Result<StepV, Seq<char>>))
    ensures
        step_after(a, step_after(b, step)) == step_after(a + b, step),
{
    match step.1 {
        Ok(more) => {
            assert(a + (b + more.out) =~= (a + b) + more.out);
            assert(a + (b + step.0.held) =~= (a + b) + step.0.held);
        },
        Err(_) => {},
    }
}

proof fn splice_stays(s: BridgeV, blocks: Seq<JsonV>, i: int)
    requires
        0 <= i <= blocks.len(),
        spliced(s, blocks.take(i)).1 is Err,
    ensures
        spliced(s, blocks) == spliced(s, blocks.take(i)),
    decreases blocks.len() - i,
{
    if i < blocks.len() {
        assert(blocks.take(i + 1).drop_last() =~= blocks.take(i));
        splice_stays(s, blocks, i + 1);
    } else {
        assert(blocks.take(i) =~= blocks);
    }
}

/// The queries of a response that came in one piece: each once, in order, up to the limit.
pub open spec fn response_queries(blocks: Seq<JsonV>) -> Seq<Seq<char>>
    decreases blocks.len(),
{
    if blocks.len() == 0 {
        Seq::empty()
    } else {
        let before = response_queries(blocks.drop_last());
        match usable_query(blocks.last().get("input"@)) {
            Some(query) => if before.len() < MAX_QUERIES && is_bridge_call(blocks.last()) && !before.contains(query) {
                before.push(query)
            } else {
                before
            },
            None => before,
        }
    }
}

/// The queries of a response.
pub open spec fn queries_of(response: JsonV) -> Seq<Seq<char>> {
    match response.items_at("content"@) {
        Some(blocks) => response_queries(blocks),
        None => Seq::empty(),
    }
}

proof fn queries_stay(blocks: Seq<JsonV>, i: int)
    requires
        0 <= i <= blocks.len(),
        response_queries(blocks.take(i)).len() >= MAX_QUERIES,
    ensures
        response_queries(blocks) == response_queries(blocks.take(i)),
    decreases blocks.len() - i,
{
    if i < blocks.len() {
        assert(blocks.take(i + 1).drop_last() =~= blocks.take(i));
        queries_stay(blocks, i + 1);
    } else {
        assert(blocks.take(i) =~= blocks);
    }
}

/// Reads the queries of a response that came in one piece.
pub fn nonstream_queries(response: &Json) -> (queries: Vec<String>)
    ensures
        texts(queries@) == queries_of(response@),
{
    let mut queries: Vec<String> = Vec::new();
    let content = match response.array_at("content") {
        Some(content) => content,
        None => {
            return queries;
        },
    };
    let ghost all = list_view(content@);
    let mut i: usize = 0;
    while i < content.len()
        invariant
            i <= content@.len(),
            all == list_view(content@),
            response@.get("content"@) == Some(JsonV::Array(all)),
            queries@.len() < MAX_QUERIES,
            texts(queries@) == response_queries(all.take(i as int)),
        decreases content@.len() - i,
    {
        assert(all.take(i + 1).drop_last() =~= all.take(i as int));
        let block = &content[i];
        if block.has_text("type", "tool_use") && block.has_text("name", BRIDGE_TOOL_NAME) {
            let query = match block.get("input") {
                Some(input) => match input.str_at("query") {
                    Some(t) => trim(t),
                    None => String::new(),
                },
                None => String::new(),
            };
            if !query.as_str().is_empty() && byte_len(query.as_str()) <= MAX_QUERY_BYTES && !contains_text(
                &queries,
                query.as_str(),
            ) {
                queries.push(query);
            }
        }
        assert(texts(queries@) == response_queries(all.take(i + 1)));
        if queries.len() >= MAX_QUERIES {
            proof {
                queries_stay(all, i + 1);
            }
            return queries;
        }
        i = i + 1;
    }
    assert(all.take(i as int) =~= all);
    queries
}

/// The blocks without the calls of the stand-in tool.
pub open spec fn without_calls(blocks: Seq<JsonV>) -> Seq<JsonV>
    decreases blocks.len(),
{
    if blocks.len() == 0 {
        Seq::empty()
    } else if is_bridge_call(blocks.last()) {
        without_calls(blocks.drop_last())
    } else {
        without_calls(blocks.drop_last()).push(blocks.last())
    }
}

/// Two responses made one: the first without its calls, and the blocks of the search.
pub open spec fn merged_response(first: JsonV, follow_up: JsonV) -> Result<JsonV, Seq<char>> {
    match continuation(follow_up) {
        Err(e) => Err(e),
        Ok(blocks) => if !(first is Object) {
            Err("web search bridge requires a JSON object response"@)
        } else {
            let kept = match first.items_at("content"@) {
                Some(items) => without_calls(items),
                None => Seq::empty(),
            };
            let filled = first.with("content"@, JsonV::Array(kept + blocks));
            let reason = match follow_up.get("stop_reason"@) {
                Some(r) => r,
                None => JsonV::Str("end_turn"@),
            };
            let ended = filled.with("stop_reason"@, reason);
            Ok(
                match follow_up.get("usage"@) {
                    Some(usage) => ended.with("usage"@, usage),
                    None => ended,
                },
            )
        },
    }
}

/// Leaves out the calls of the stand-in tool.
pub fn drop_calls(blocks: &Vec<Json>) -> (kept: Vec<Json>)
    ensures
        list_view(kept@) == without_calls(list_view(blocks@)),
{
    let ghost all = list_view(blocks@);
    let mut kept: Vec<Json> = Vec::new();
    let mut i: usize = 0;
    while i < blocks.len()
        invariant
            i <= blocks@.len(),
            all == list_view(blocks@),
            list_view(kept@) == without_calls(all.take(i as int)),
        decreases blocks@.len() - i,
    {
        assert(all.take(i + 1).drop_last() =~= all.take(i as int));
        if !(blocks[i].has_text("type", "tool_use") && blocks[i].has_text("name", BRIDGE_TOOL_NAME)) {
            kept.push(blocks[i].copy());
        }
        i = i + 1;
    }
    assert(all.take(i as int) =~= all);
    kept
}

/// Puts the blocks of the search into the first response.
pub fn merge_nonstream(first: &Json, follow_up: &Json) -> (out: Result<Json, String>)
    ensures
        match (out, merged_response(first@, follow_up@)) {
            (Ok(merged), Ok(tree)) => merged@ == tree,
            (Err(e), Err(reason)) => e@ == reason,
            _ => false,
        },
{
    let mut content = match first.array_at("content") {
        Some(blocks) => drop_calls(blocks),
        None => Vec::new(),
    };
    let ghost kept = list_view(content@);
    match continuation_blocks(follow_up) {
        Err(e) => {
            return Err(e);
        },
        Ok(blocks) => {
            let mut blocks = blocks;
            let ghost more = list_view(blocks@);
            content.append(&mut blocks);
            assert(list_view(content@) =~= kept + more);
        },
    }
    if !first.is_object() {
        return Err("web search bridge requires a JSON object response".to_owned());
    }
    let mut merged = first.copy();
    merged.set("content", Json::array(content));
    let reason = match follow_up.get("stop_reason") {
        Some(r) => r.copy(),
        None => Json::text("end_turn"),
    };
    merged.set("stop_reason", reason);
    if let Some(usage) = follow_up.get("usage") {
        merged.set("usage", usage.copy());
    }
    Ok(merged)
}

} // verus!
