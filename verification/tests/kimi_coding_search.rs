use csswitch_gateway::json::Json;
use csswitch_gateway::kimi_coding_search::{
    bridge_tool_declaration, continuation_blocks, follow_up_answer, merge_nonstream, nonstream_queries, render_block, render_message_delta,
    search_request, WebSearchBridge,
};
use csswitch_gateway::messages::UpstreamError;

fn j(text: &str) -> Json {
    Json::parse(text).unwrap()
}

#[allow(dead_code)]
trait Piece {
    fn piece(&self) -> String;
}

impl Piece for Json {
    fn piece(&self) -> String {
        self.render()
    }
}

impl Piece for str {
    fn piece(&self) -> String {
        Json::text(self).render()
    }
}

impl Piece for String {
    fn piece(&self) -> String {
        Json::text(self).render()
    }
}

impl Piece for u64 {
    fn piece(&self) -> String {
        self.to_string()
    }
}

impl Piece for usize {
    fn piece(&self) -> String {
        self.to_string()
    }
}

impl<T: Piece + ?Sized> Piece for &T {
    fn piece(&self) -> String {
        (**self).piece()
    }
}

impl<T: Piece> Piece for Vec<T> {
    fn piece(&self) -> String {
        let items: Vec<String> = self.iter().map(|item| item.piece()).collect();
        format!("[{}]", items.join(","))
    }
}

#[allow(dead_code)]
fn piece<T: Piece + ?Sized>(value: &T) -> String {
    value.piece()
}

#[allow(dead_code)]
fn at<'a>(value: &'a Json, path: &[&str]) -> &'a Json {
    let mut here = value;
    for step in path {
        let next = match here {
            Json::Array(items) => step.parse::<usize>().ok().and_then(|index| items.get(index)),
            other => other.get(step),
        };
        here = match next {
            Some(found) => found,
            None => return Box::leak(Box::new(Json::Null)),
        };
    }
    here
}

#[allow(dead_code)]
fn at_mut<'a>(value: &'a mut Json, path: &[&str]) -> &'a mut Json {
    let mut here = value;
    for step in path {
        here = match here {
            Json::Array(items) => &mut items[step.parse::<usize>().unwrap()],
            Json::Object(entries) => {
                let place = entries.iter().position(|entry| entry.0 == *step);
                let index = place.unwrap_or_else(|| {
                    entries.push((step.to_string(), Json::Null));
                    entries.len() - 1
                });
                &mut entries[index].1
            }
            _ => panic!("no value at {step}"),
        };
    }
    here
}

/// Searches for the queries of a bridge.
type Searcher = Box<dyn FnMut(&[String]) -> Result<Json, String>>;

/// A bridge together with what it searches by.
struct Driver {
    bridge: WebSearchBridge,
    searcher: Searcher,
}

impl Driver {
    fn new(searcher: Searcher) -> Driver {
        Driver { bridge: WebSearchBridge::new(), searcher }
    }

    fn feed(&mut self, chunk: &[u8]) -> Result<Vec<u8>, String> {
        let mut step = self.bridge.feed(chunk)?;
        let mut out = std::mem::take(&mut step.out);
        while step.search {
            let follow_up = (self.searcher)(self.bridge.queries());
            step = self.bridge.resolve_search(follow_up)?;
            out.extend_from_slice(&step.out);
        }
        Ok(out)
    }

    fn finalize(&mut self) -> Result<Vec<u8>, String> {
        self.bridge.finalize()
    }

    fn queries(&self) -> &[String] {
        self.bridge.queries()
    }

    fn swallowed_blocks(&self) -> usize {
        self.bridge.swallowed_blocks()
    }
}

/// A searcher that must never run.
fn no_search() -> Searcher {
    Box::new(|_| Err("searcher must not be called".into()))
}

/// A searcher returning a canned follow-up response.
fn canned_search() -> Searcher {
    Box::new(|queries| {
        Ok(j(&format!(r#"{{"stop_reason": "end_turn", "usage": {{"output_tokens": 11}}, "content": [{{"type": "text", "text": "let me look"}}, {{"type": "server_tool_use", "id": "s1", "name": "web_search", "input": {{"query": {}}}}}, {{"type": "web_search_tool_result", "tool_use_id": "s1", "content": []}}, {{"type": "text", "text": "the answer"}}]}}"#, piece(&(queries[0])))))
    })
}

fn feed_all(bridge: &mut Driver, frames: &[&str]) -> String {
    let mut out = Vec::new();
    for frame in frames {
        out.extend_from_slice(&bridge.feed(frame.as_bytes()).unwrap());
    }
    bridge.finalize().unwrap();
    String::from_utf8(out).unwrap()
}

#[test]
fn ordinary_stream_passes_through_untouched_and_arms_no_search() {
    let mut bridge = Driver::new(no_search());
    let text = feed_all(
        &mut bridge,
        &[
            "event: message_start\ndata: {\"type\":\"message_start\"}\n\n",
            "event: content_block_start\ndata: {\"type\":\"content_block_start\",\"index\":0,\"content_block\":{\"type\":\"text\",\"text\":\"\"}}\n\n",
            "event: content_block_delta\ndata: {\"type\":\"content_block_delta\",\"index\":0,\"delta\":{\"type\":\"text_delta\",\"text\":\"hi\"}}\n\n",
            "event: content_block_stop\ndata: {\"type\":\"content_block_stop\",\"index\":0}\n\n",
            "event: message_delta\ndata: {\"type\":\"message_delta\",\"delta\":{\"stop_reason\":\"end_turn\"}}\n\n",
            "event: message_stop\ndata: {\"type\":\"message_stop\"}\n\n",
        ],
    );
    assert!(bridge.queries().is_empty());
    assert_eq!(bridge.swallowed_blocks(), 0);
    assert!(text.contains("text_delta"));
    assert!(text.contains("message_stop"));
}

#[test]
fn bridge_tool_use_is_swallowed_and_its_query_captured() {
    let mut bridge = Driver::new(no_search());
    let text = feed_all(
        &mut bridge,
        &[
            "event: content_block_start\ndata: {\"type\":\"content_block_start\",\"index\":0,\"content_block\":{\"type\":\"thinking\",\"thinking\":\"\",\"signature\":\"\"}}\n\n",
            "event: content_block_stop\ndata: {\"type\":\"content_block_stop\",\"index\":0}\n\n",
            "event: content_block_start\ndata: {\"type\":\"content_block_start\",\"index\":1,\"content_block\":{\"type\":\"tool_use\",\"id\":\"t1\",\"name\":\"web_search\",\"input\":{}}}\n\n",
            "event: content_block_delta\ndata: {\"type\":\"content_block_delta\",\"index\":1,\"delta\":{\"type\":\"input_json_delta\",\"partial_json\":\"{\\\"query\\\":\\\"rust \"}}\n\n",
            "event: content_block_delta\ndata: {\"type\":\"content_block_delta\",\"index\":1,\"delta\":{\"type\":\"input_json_delta\",\"partial_json\":\"version\\\"}\"}}\n\n",
            "event: content_block_stop\ndata: {\"type\":\"content_block_stop\",\"index\":1}\n\n",
        ],
    );
    assert_eq!(bridge.queries(), ["rust version".to_string()]);
    assert_eq!(bridge.swallowed_blocks(), 1);
    // Science must never see the client-tool call.
    assert!(!text.contains("web_search"));
    assert!(!text.contains("tool_use"));
    // The surviving thinking block keeps output index 0.
    assert!(text.contains("\"index\":0"));
}

#[test]
fn indexes_are_compacted_after_a_swallowed_block() {
    let mut bridge = Driver::new(no_search());
    let text = feed_all(
        &mut bridge,
        &[
            "event: content_block_start\ndata: {\"type\":\"content_block_start\",\"index\":0,\"content_block\":{\"type\":\"tool_use\",\"id\":\"t1\",\"name\":\"web_search\",\"input\":{\"query\":\"a\"}}}\n\n",
            "event: content_block_stop\ndata: {\"type\":\"content_block_stop\",\"index\":0}\n\n",
            "event: content_block_start\ndata: {\"type\":\"content_block_start\",\"index\":1,\"content_block\":{\"type\":\"text\",\"text\":\"\"}}\n\n",
            "event: content_block_stop\ndata: {\"type\":\"content_block_stop\",\"index\":1}\n\n",
        ],
    );
    // The text block was upstream index 1 but must reach Science as index 0.
    assert!(text.contains("\"index\":0"));
    assert!(!text.contains("\"index\":1"));
    assert_eq!(bridge.queries(), ["a".to_string()]);
}

#[test]
fn repeated_queries_are_deduplicated_and_bounded() {
    let mut bridge = Driver::new(no_search());
    let mut frames = Vec::new();
    for index in 0..3u64 {
        frames.push(format!(
            "event: content_block_start\ndata: {{\"type\":\"content_block_start\",\"index\":{index},\"content_block\":{{\"type\":\"tool_use\",\"id\":\"t\",\"name\":\"web_search\",\"input\":{{\"query\":\"same\"}}}}}}\n\n"
        ));
        frames.push(format!(
            "event: content_block_stop\ndata: {{\"type\":\"content_block_stop\",\"index\":{index}}}\n\n"
        ));
    }
    let refs: Vec<&str> = frames.iter().map(String::as_str).collect();
    feed_all(&mut bridge, &refs);
    assert_eq!(bridge.queries(), ["same".to_string()]);
    assert_eq!(bridge.swallowed_blocks(), 3);
}

#[test]
fn a_bridge_tool_call_without_a_query_fails_closed() {
    let mut bridge = Driver::new(no_search());
    bridge
        .feed(b"event: content_block_start\ndata: {\"type\":\"content_block_start\",\"index\":0,\"content_block\":{\"type\":\"tool_use\",\"id\":\"t1\",\"name\":\"web_search\",\"input\":{}}}\n\n")
        .unwrap();
    let err = bridge
        .feed(b"event: content_block_stop\ndata: {\"type\":\"content_block_stop\",\"index\":0}\n\n")
        .unwrap_err();
    assert!(err.contains("no usable query"));
}

#[test]
fn search_request_restores_the_server_tool_and_names_the_queries() {
    let original = j(&format!(r#"{{"model": "kimi-for-coding", "stream": true, "tool_choice": {{"type": "auto"}}, "messages": [{{"role": "user", "content": "latest rust?"}}], "tools": [{}, {{"name": "bash", "input_schema": {{"type": "object"}}}}]}}"#, piece(&(bridge_tool_declaration()))));
    let follow_up = search_request(&original, &vec!["rust version".to_string()]).unwrap();
    assert_eq!((*at(&follow_up, &["stream"])), j(r#"false"#));
    assert!(follow_up.get("tool_choice").is_none());
    assert_eq!(at(&follow_up, &["tools", "0", "type"]).as_str(), Some("web_search_20250305"));
    assert!(!at(&follow_up, &["tools"])
        .as_array()
        .unwrap()
        .iter()
        .any(
            |tool| tool.get("name").and_then(Json::as_str) == Some("web_search")
                && tool.get("type").is_none()
        ));
    let messages = at(&follow_up, &["messages"]).as_array().unwrap();
    assert_eq!(messages.len(), 2);
    assert!(at(&messages[1], &["content"])
        .as_str()
        .unwrap()
        .contains("rust version"));
}

#[test]
fn continuation_starts_at_the_first_search_block_and_requires_evidence() {
    let response = j(r#"{"content": [{"type": "text", "text": "let me look"}, {"type": "server_tool_use", "id": "s1", "name": "web_search", "input": {"query": "q"}}, {"type": "web_search_tool_result", "tool_use_id": "s1", "content": []}, {"type": "text", "text": "answer"}]}"#);
    let blocks = continuation_blocks(&response).unwrap();
    assert_eq!(blocks.len(), 3);
    assert_eq!(at(&blocks[0], &["type"]).as_str(), Some("server_tool_use"));

    let without = j(r#"{"content": [{"type": "text", "text": "no search happened"}]}"#);
    assert!(continuation_blocks(&without).is_err());
}

#[test]
fn nonstream_merge_drops_the_bridge_call_and_appends_real_evidence() {
    let first = j(r#"{"type": "message", "stop_reason": "tool_use", "content": [{"type": "thinking", "thinking": "need a search", "signature": "sig"}, {"type": "tool_use", "id": "t1", "name": "web_search", "input": {"query": "q"}}]}"#);
    let follow_up = j(r#"{"stop_reason": "end_turn", "usage": {"output_tokens": 7}, "content": [{"type": "text", "text": "searching"}, {"type": "server_tool_use", "id": "s1", "name": "web_search", "input": {"query": "q"}}, {"type": "web_search_tool_result", "tool_use_id": "s1", "content": []}, {"type": "text", "text": "answer"}]}"#);
    let merged = merge_nonstream(&first, &follow_up).unwrap();
    let kinds: Vec<&str> = at(&merged, &["content"])
        .as_array()
        .unwrap()
        .iter()
        .map(|block| at(&block, &["type"]).as_str().unwrap())
        .collect();
    assert_eq!(kinds, [
            "thinking",
            "server_tool_use",
            "web_search_tool_result",
            "text"
        ]);
    assert_eq!(at(&merged, &["stop_reason"]).as_str(), Some("end_turn"));
    assert_eq!(at(&merged, &["usage", "output_tokens"]).as_u64(), Some(7));
    assert_eq!(nonstream_queries(&first), ["q".to_string()]);
}

/// Rebuild a block the way a spec-compliant Anthropic client does: seed from
/// `content_block_start`, then accumulate deltas. Anything the renderer puts
/// only in the start frame is therefore invisible here — which is exactly
/// the bug this guards against.
fn reconstruct_like_a_client(frames: &[u8]) -> Json {
    let text = String::from_utf8(frames.to_vec()).unwrap();
    let mut block = j(r#"{}"#);
    let mut partial_json = String::new();
    for line in text.lines() {
        let Some(data) = line.strip_prefix("data: ") else {
            continue;
        };
        let event = j(data);
        match at(&event, &["type"]).as_str() {
            Some("content_block_start") => {
                block = at(&event, &["content_block"]).clone();
                // A real client treats the streamed fields as empty seeds.
                for field in ["text", "thinking", "signature"] {
                    if block.get(field).is_some() {
                        block.set(field, Json::text(""));
                    }
                }
                if block.get("input").is_some() {
                    block.set("input", j("{}"));
                }
            }
            Some("content_block_delta") => {
                let delta = at(&event, &["delta"]);
                match at(&delta, &["type"]).as_str() {
                    Some("text_delta") => append(&mut block, "text", at(&delta, &["text"]).as_str()),
                    Some("thinking_delta") => {
                        append(&mut block, "thinking", at(&delta, &["thinking"]).as_str())
                    }
                    Some("signature_delta") => {
                        append(&mut block, "signature", at(&delta, &["signature"]).as_str())
                    }
                    Some("input_json_delta") => {
                        partial_json.push_str(at(&delta, &["partial_json"]).as_str().unwrap_or(""))
                    }
                    _ => {}
                }
            }
            _ => {}
        }
    }
    if !partial_json.is_empty() {
        block.set("input", j(&partial_json));
    }
    block
}

fn append(block: &mut Json, field: &str, value: Option<&str>) {
    let current = at(block, &[field]).as_str().unwrap_or("").to_string();
    block.set(field, Json::text(&format!("{current}{}", value.unwrap_or(""))));
}

#[test]
fn spliced_blocks_survive_a_spec_compliant_client_round_trip() {
    // Science accumulates deltas and ignores payload left in the start
    // frame. Blocks that arrive stripped get echoed back stripped on the
    // next turn, and the upstream rejects the request.
    for original in [
        j(r#"{"type": "text", "text": "the answer"}"#),
        j(r#"{"type": "thinking", "thinking": "reasoning", "signature": "sig-abc"}"#),
        j(r#"{"type": "server_tool_use", "id": "srvtoolu_1", "name": "web_search", "input": {"query": "latest rust version"}}"#),
        j(r#"{"type": "web_search_tool_result", "tool_use_id": "srvtoolu_1", "content": [{"type": "web_search_result", "url": "https://example.test"}]}"#),
    ] {
        let rebuilt = reconstruct_like_a_client(&render_block(0, &original));
        assert_eq!(rebuilt, original, "block lost content in transit: {original:?}");
    }
}

#[test]
fn rendered_blocks_are_well_formed_sse() {
    let frames = render_block(3, &j(r#"{"type": "text", "text": "hello"}"#));
    let text = String::from_utf8(frames).unwrap();
    assert!(text.contains("event: content_block_start"));
    assert!(text.contains("\"index\":3"));
    assert!(text.contains("text_delta"));
    assert!(text.contains("event: content_block_stop"));

    let terminal = String::from_utf8(render_message_delta("end_turn", None)).unwrap();
    assert!(terminal.contains("\"stop_reason\":\"end_turn\""));
    // message_stop must stay upstream's, so the lifecycle validator sees it.
    assert!(!terminal.contains("message_stop"));
}

#[test]
fn the_search_is_spliced_into_the_same_message_before_message_stop() {
    let mut bridge = Driver::new(canned_search());
    let text = feed_all(
        &mut bridge,
        &[
            "event: message_start\ndata: {\"type\":\"message_start\"}\n\n",
            "event: content_block_start\ndata: {\"type\":\"content_block_start\",\"index\":0,\"content_block\":{\"type\":\"text\",\"text\":\"\"}}\n\n",
            "event: content_block_delta\ndata: {\"type\":\"content_block_delta\",\"index\":0,\"delta\":{\"type\":\"text_delta\",\"text\":\"looking\"}}\n\n",
            "event: content_block_stop\ndata: {\"type\":\"content_block_stop\",\"index\":0}\n\n",
            "event: content_block_start\ndata: {\"type\":\"content_block_start\",\"index\":1,\"content_block\":{\"type\":\"tool_use\",\"id\":\"t1\",\"name\":\"web_search\",\"input\":{\"query\":\"rust\"}}}\n\n",
            "event: content_block_stop\ndata: {\"type\":\"content_block_stop\",\"index\":1}\n\n",
            "event: message_delta\ndata: {\"type\":\"message_delta\",\"delta\":{\"stop_reason\":\"tool_use\"}}\n\n",
            "event: message_stop\ndata: {\"type\":\"message_stop\"}\n\n",
        ],
    );
    // Science sees real server evidence, never the client-tool call.
    assert!(text.contains("server_tool_use"));
    assert!(text.contains("web_search_tool_result"));
    assert!(!text.contains("\"type\":\"tool_use\""));
    // The upstream's tool_use terminal is replaced by a completed one.
    assert!(text.contains("\"stop_reason\":\"end_turn\""));
    assert!(!text.contains("\"stop_reason\":\"tool_use\""));
    // Ordering: evidence, then terminal delta, then upstream's message_stop.
    let evidence = text.find("server_tool_use").unwrap();
    let delta = text.find("\"stop_reason\":\"end_turn\"").unwrap();
    let stop = text.find("event: message_stop").unwrap();
    assert!(evidence < delta && delta < stop);
    // Blocks keep a gapless index sequence: text 0, then 1 and 2 spliced in.
    assert!(text.contains("\"index\":1"));
    assert!(text.contains("\"index\":2"));
}

#[test]
fn a_failing_follow_up_surfaces_instead_of_inventing_an_answer() {
    let mut bridge = Driver::new(Box::new(|_| Err("upstream 429".into())));
    bridge
        .feed(b"event: content_block_start\ndata: {\"type\":\"content_block_start\",\"index\":0,\"content_block\":{\"type\":\"tool_use\",\"id\":\"t1\",\"name\":\"web_search\",\"input\":{\"query\":\"q\"}}}\n\n")
        .unwrap();
    bridge
        .feed(b"event: content_block_stop\ndata: {\"type\":\"content_block_stop\",\"index\":0}\n\n")
        .unwrap();
    let err = bridge
        .feed(b"event: message_delta\ndata: {\"type\":\"message_delta\",\"delta\":{\"stop_reason\":\"tool_use\"}}\n\n")
        .unwrap_err();
    assert_eq!(err, "upstream 429");
}

#[test]
fn a_failed_search_leaves_the_ending_to_what_comes_next() {
    let mut bridge = WebSearchBridge::new();
    let text = b"event: content_block_start\ndata: {\"type\":\"content_block_start\",\"index\":0,\"content_block\":{\"type\":\"text\",\"text\":\"\"}}\n\nevent: content_block_stop\ndata: {\"type\":\"content_block_stop\",\"index\":0}\n\n";
    assert!(!bridge.feed(text).unwrap().search);
    bridge
        .feed(b"event: content_block_start\ndata: {\"type\":\"content_block_start\",\"index\":1,\"content_block\":{\"type\":\"tool_use\",\"id\":\"t1\",\"name\":\"web_search\",\"input\":{\"query\":\"q\"}}}\n\nevent: content_block_stop\ndata: {\"type\":\"content_block_stop\",\"index\":1}\n\n")
        .unwrap();
    let ending = b"event: message_delta\ndata: {\"type\":\"message_delta\",\"delta\":{\"stop_reason\":\"tool_use\"}}\n\n";
    let step = bridge.feed(ending).unwrap();
    assert!(step.search);
    assert!(step.out.is_empty());
    assert_eq!(bridge.resolve_search(Err("upstream 429".to_string())).err().unwrap(), "upstream 429");
    let step = bridge.feed(b"").unwrap();
    assert!(!step.search);
    assert_eq!(step.out, ending);
}

#[test]
fn follow_ups_are_read_or_refused() {
    assert_eq!(follow_up_answer(Ok(b"{\"content\":[]}".to_vec())).unwrap().render(), r#"{"content":[]}"#);
    assert_eq!(follow_up_answer(Ok(b"<html>".to_vec())).unwrap_err(), "web search follow-up returned invalid JSON");
    let error = UpstreamError { status: 429, upstream_status: Some(429), detail: "slow down".to_string() };
    assert_eq!(follow_up_answer(Err(error)).unwrap_err(), "web search follow-up failed upstream (429): slow down");
}
