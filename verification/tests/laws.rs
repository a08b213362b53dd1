use csswitch_gateway::anthropic_compat::{
    apply_anthropic_server_tool_policy, debug_tool_skeleton, degrade_missing_tool_choice, is_anthropic_client_tool,
    is_anthropic_web_search_server_tool, repair_web_search_result_pairing, transform_relay_request_for_contract, validate_relay_tool_history,
    AnthropicServerToolPolicy,
};
use csswitch_gateway::canonical_json::canonicalize;
use csswitch_gateway::crypto::{hex_bytes, push_field};
use csswitch_gateway::deepseek_compat::{append_rule, normalize_request};
use csswitch_gateway::json::Json;
use csswitch_gateway::kimi_search_noise::{strip_nonstream_noise, SearchNoiseFilter};
use csswitch_gateway::messages::{redact_ascii_token, redact_json, sensitive_error_key};
use csswitch_gateway::policy::normalize_thinking;
use csswitch_gateway::reasoning_state::{
    checked_name, fate_of_name, insert_reasoning_blocks, message_has_reasoning, message_has_tool_use, plan_evictions, random_temp_name,
    request_has_explicit_no_reasoning, split_reasoning_blocks, tool_bindings, valid_entry_name, valid_temp_name, validate_model,
    validate_reasoning_block, visible_history_bytes, EntryInfo, FileFate, ReasoningStore, RestorePolicy, StoredBlock,
};
use csswitch_gateway::sse::{event_and_data, render_sse, split_frame};
use csswitch_gateway::wire::{head_length, header_value, split_text, split_whitespace};

fn j(text: &str) -> Json {
    Json::parse(text).unwrap()
}

fn kimi(text: &str) -> Json {
    transform_relay_request_for_contract(j(text), "kimi-for-coding", None, Some("kimi-anthropic-relay")).unwrap().0
}

const HISTORY: &str = r#"{"messages":[{"role":"assistant","content":[{"type":"web_search_tool_result","tool_use_id":"a","content":[{"type":"web_search_result"}]},{"type":"server_tool_use","id":"b","name":"web_search","input":{}},{"type":"web_search_tool_result","tool_use_id":"z","content":[]}]},{"role":"user","content":[{"type":"document","source":{"media_type":"application/pdf"}}]}]}"#;

#[test]
fn repairs_pair_every_search_result_and_are_done_once() {
    let once = kimi(HISTORY);
    let blocks = once.array_at("messages").unwrap()[0].array_at("content").unwrap();
    let calls: Vec<&str> = blocks.iter().filter(|b| b.str_at("type") == Some("server_tool_use")).filter_map(|b| b.str_at("id")).collect();
    let results: Vec<&Json> = blocks.iter().filter(|b| b.str_at("type") == Some("web_search_tool_result")).collect();
    assert_eq!(calls, vec!["a", "b"]);
    assert_eq!(results.len(), 2);
    assert!(results.iter().all(|b| calls.contains(&b.str_at("tool_use_id").unwrap())));
    let twice = transform_relay_request_for_contract(once.copy(), "kimi-for-coding", None, Some("kimi-anthropic-relay")).unwrap().0;
    assert_eq!(once, twice);
}

#[test]
fn no_document_goes_to_an_upstream_without_them() {
    assert!(!kimi(HISTORY).render().contains("\"document\""));
}

#[test]
fn named_tools_are_there() {
    let mut body = j(r#"{"tools":[{"name":"a"}],"tool_choice":{"type":"tool","name":"b"}}"#);
    degrade_missing_tool_choice(&mut body);
    assert_eq!(body.get("tool_choice").unwrap().str_at("type"), Some("auto"));
    let mut kept = j(r#"{"tools":[{"name":"a"}],"tool_choice":{"type":"tool","name":"a"}}"#);
    degrade_missing_tool_choice(&mut kept);
    assert_eq!(kept.get("tool_choice").unwrap().str_at("name"), Some("a"));
    let mut bare = j(r#"{"tool_choice":{"type":"auto"}}"#);
    degrade_missing_tool_choice(&mut bare);
    assert!(bare.get("tool_choice").is_none());
}

#[test]
fn unsupported_server_tools_go_and_the_others_stay() {
    let mut body = j(r#"{"tools":[{"name":"f","input_schema":{}},{"type":"web_search_20250305","name":"web_search"},{"type":"web_fetch_20260209","name":"web_fetch"}],"mcp_servers":[]}"#);
    let mut rules: Vec<String> = Vec::new();
    assert_eq!(apply_anthropic_server_tool_policy(&mut body, AnthropicServerToolPolicy::Kimi, &mut rules), 2);
    assert_eq!(body.array_at("tools").unwrap().len(), 2);
    assert!(body.get("mcp_servers").is_none());
    append_rule(&mut rules, "x");
    let count = rules.len();
    append_rule(&mut rules, "x");
    assert_eq!(rules.len(), count);
    assert!(is_anthropic_client_tool(&body.array_at("tools").unwrap()[0]));
    assert!(is_anthropic_web_search_server_tool(&body.array_at("tools").unwrap()[1]));
}

#[test]
fn open_calls_are_refused() {
    let open = j(r#"{"messages":[{"role":"assistant","content":[{"type":"tool_use","id":"a","name":"f","input":{}}]}]}"#);
    assert!(validate_relay_tool_history(&open).is_err());
    let answered = j(r#"{"messages":[{"role":"assistant","content":[{"type":"tool_use","id":"a","name":"f","input":{}}]},{"role":"user","content":[{"type":"tool_result","tool_use_id":"a","content":"x"}]}]}"#);
    assert!(validate_relay_tool_history(&answered).is_ok());
    assert!(validate_relay_tool_history(&j("{}")).is_err());
    assert!(debug_tool_skeleton(&answered).unwrap().starts_with("tool skeleton: "));
    assert!(debug_tool_skeleton(&j(r#"{"messages":[]}"#)).is_none());
}

#[test]
fn key_order_makes_no_difference_to_the_canonical_form() {
    let tree = canonicalize(&j(r#"{"b":[{"d":1,"c":2}],"a":0}"#));
    assert_eq!(tree.render(), r#"{"a":0,"b":[{"c":2,"d":1}]}"#);
    assert_eq!(tree, canonicalize(&j(r#"{"a":0,"b":[{"c":2,"d":1}]}"#)));
}

#[test]
fn bytes_have_one_hexadecimal_form() {
    assert_eq!(hex_bytes(&[0, 15, 255]), "000fff");
    let mut out = vec![9];
    push_field(&mut out, &[1, 2]);
    assert_eq!(out, vec![9, 0, 0, 0, 0, 0, 0, 0, 2, 1, 2]);
}

#[test]
fn secrets_are_redacted() {
    assert_eq!(redact_ascii_token("Bearer abc, sk-1", "bearer "), "Bearer [REDACTED], sk-1");
    assert_eq!(redact_ascii_token("sk- sk-1;", "sk-"), "sk- sk-[REDACTED];");
    assert!(sensitive_error_key("X-Api_Key"));
    assert!(!sensitive_error_key("message"));
    let told = redact_json(&j(r#"{"cookie":{"a":1},"detail":["key=hunter"]}"#), "hunter");
    assert_eq!(told.render(), r#"{"cookie":"[REDACTED]","detail":["key=[REDACTED]"]}"#);
}

#[test]
fn a_forced_tool_turns_thinking_off() {
    let mut body = j(r#"{"thinking":{"type":"auto"}}"#);
    normalize_thinking(&mut body);
    assert_eq!(body.get("thinking").unwrap().str_at("type"), Some("auto"));
    let mut forced = j(r#"{"thinking":{"type":"auto"},"tool_choice":{"type":"any"}}"#);
    normalize_thinking(&mut forced);
    assert_eq!(forced.get("thinking").unwrap().str_at("type"), Some("disabled"));
}

const TURN: &str = r#"[{"type":"thinking","thinking":"t","signature":"s"},{"type":"text","text":"x"},{"type":"tool_use","id":"a","name":"f","input":{"k":1}}]"#;

#[test]
fn parted_content_comes_together_again() {
    let content = j(TURN);
    let (blocks, visible) = split_reasoning_blocks(content.as_array().unwrap()).unwrap();
    assert_eq!(blocks.len(), 1);
    assert_eq!(visible.len(), 2);
    let mut message = Json::object().and("role", Json::text("assistant")).and("content", Json::array(visible));
    assert!(!message_has_reasoning(&message).unwrap());
    assert!(message_has_tool_use(&message).unwrap());
    insert_reasoning_blocks(&mut message, &blocks).unwrap();
    assert_eq!(message.get("content").unwrap(), &content);
    assert!(message_has_reasoning(&message).unwrap());
    assert_eq!(tool_bindings(&message).unwrap().len(), 1);
}

#[test]
fn reasoning_and_cache_markers_are_invisible() {
    let whole = Json::object().and("role", Json::text("assistant")).and("content", j(TURN));
    let bare = j(r#"{"role":"assistant","content":[{"type":"text","text":"x","cache_control":{"type":"ephemeral"}},{"type":"tool_use","id":"a","name":"f","input":{"k":1}}]}"#);
    assert_eq!(visible_history_bytes(&vec![whole], 0, "m").unwrap(), visible_history_bytes(&vec![bare], 0, "m").unwrap());
    assert!(visible_history_bytes(&Vec::new(), 0, "m").is_err());
}

#[test]
fn faulty_reasoning_is_refused() {
    assert!(validate_reasoning_block(&j(r#"{"type":"thinking","thinking":"","signature":""}"#)).is_err());
    assert!(validate_reasoning_block(&j(r#"{"type":"thinking","thinking":"t","extra":1}"#)).is_err());
    assert!(validate_reasoning_block(&j(r#"{"type":"redacted_thinking","data":"d"}"#)).is_ok());
    assert!(validate_reasoning_block(&j(r#"{"type":"text"}"#)).is_err());
    assert!(validate_model("").is_err());
    assert!(validate_model("a\nb").is_err());
    assert!(request_has_explicit_no_reasoning(&j(r#"{"thinking":{"type":"disabled"}}"#)));
}

#[test]
fn captured_turns_open_with_their_own_keys_only() {
    let store = ReasoningStore::open("credential", "contract", "endpoint", "scope").unwrap();
    let request = j(r#"{"messages":[{"role":"user","content":"hi"}]}"#);
    let response = Json::object()
        .and("id", Json::text("m1"))
        .and("type", Json::text("message"))
        .and("role", Json::text("assistant"))
        .and("model", Json::text("m"))
        .and("content", j(TURN))
        .and("stop_reason", Json::text("tool_use"))
        .and("usage", Json::object());
    let entry = store.capture_entry(&request, &response, "m", RestorePolicy::DeepSeekToolUse, 5).unwrap().unwrap();
    let sealed = store.encrypt_with(&entry, &vec![7; 12]).unwrap();
    assert!(store.decrypt(&sealed).is_ok());
    let mut broken = sealed.clone();
    let last = broken.len() - 1;
    broken[last] ^= 1;
    assert!(store.decrypt(&broken).is_err());
    let other = ReasoningStore::open("other", "contract", "endpoint", "scope").unwrap();
    assert!(other.decrypt(&sealed).is_err());
    store.wipe();
}

#[test]
fn names_of_the_store_are_recognised() {
    let entry = format!("{}.rsn", "a".repeat(64));
    assert!(valid_entry_name(&entry));
    assert!(!valid_entry_name(&entry.to_uppercase()));
    let temporary = random_temp_name().unwrap();
    assert!(valid_temp_name(&temporary));
    assert_ne!(temporary, random_temp_name().unwrap());
    assert_eq!(fate_of_name(&entry), FileFate::Inspect);
    assert_eq!(fate_of_name(&temporary), FileFate::Remove);
    assert_eq!(fate_of_name("x"), FileFate::Ignore);
    assert!(checked_name("..").is_err());
    assert!(checked_name("a/b").is_err());
}

#[test]
fn what_a_plan_leaves_keeps_the_bounds() {
    let sizes: Vec<u64> = vec![7, 9, 4, 12, 1, 6];
    let entries: Vec<EntryInfo> = sizes
        .iter()
        .enumerate()
        .map(|(i, size)| EntryInfo { name: format!("e{}", i), size: *size, modified: (i as i128 * 5) % 7 })
        .collect();
    let removed = plan_evictions(&entries, 39, 6, Some("e3"), 20, 3).unwrap();
    assert_eq!(removed, ["e0", "e2", "e5", "e1"]);
    let left: Vec<&EntryInfo> = entries.iter().filter(|e| !removed.contains(&e.name)).collect();
    assert!(left.iter().map(|e| e.size).sum::<u64>() <= 20);
    assert!(left.len() <= 3);
}

#[test]
fn the_oldest_entries_go_first_and_the_target_stays() {
    let info = |name: &str, modified: i128| EntryInfo { name: name.to_string(), size: 10, modified };
    let entries = vec![info("new", 3), info("old", 1), info("target", 0)];
    assert_eq!(plan_evictions(&entries, 30, 3, Some("target"), 20, 9).unwrap(), vec!["old".to_string()]);
    assert!(plan_evictions(&entries, 30, 3, Some("target"), 5, 9).is_err());
    assert!(plan_evictions(&entries, 30, 3, None, 30, 3).unwrap().is_empty());
}

#[test]
fn heads_are_taken_apart() {
    assert_eq!(head_length(&b"GET / HTTP/1.1\r\n\r\nbody".to_vec()), Some(18));
    assert_eq!(head_length(&b"GET".to_vec()), None);
    assert_eq!(split_text("a\r\nb\r\n", "\r\n"), vec!["a", "b", ""]);
    assert_eq!(split_whitespace(" a \u{3000}b "), vec!["a", "b"]);
    let headers = vec![("a".to_string(), "1".to_string()), ("a".to_string(), "2".to_string())];
    assert_eq!(header_value(&headers, "a"), Some("1"));
    assert_eq!(header_value(&headers, "b"), None);
}

#[test]
fn repaired_bodies_are_repaired_no_further() {
    let mut body = j(HISTORY);
    let mut rules = Vec::new();
    repair_web_search_result_pairing(&mut body, &mut rules);
    assert_eq!(rules, ["provider.kimi.web-search-result-pairing-repair"]);
    let once = body.copy();
    let mut again = Vec::new();
    repair_web_search_result_pairing(&mut body, &mut again);
    assert_eq!(body, once);
    assert!(again.is_empty());
}

#[test]
fn normal_requests_stay_normal() {
    let mut body = j(
        r#"{"max_tokens":100000,"thinking":{"type":"auto"},"tool_choice":{"type":"tool","name":"a"},"reasoning_effort":"high","output_config":{"effort":"low"},"messages":[{"role":"assistant","content":[{"type":"thinking","thinking":" ","signature":"s"},{"type":"tool_use","id":"t1","name":"a","input":{}},{"type":"server_tool_use","name":"web_search"}]},{"role":"user","content":[{"type":"tool_result","tool_use_id":"zz","content":"late"}]},{"role":"assistant","content":[{"type":"tool_use","id":"t2","name":"a","input":{}}]}]}"#,
    );
    let mut rules = Vec::new();
    normalize_request(&mut body, "deepseek-v4-flash", &mut rules);
    assert_eq!(rules.len(), 4);
    assert_eq!(body.u64_at("max_tokens"), Some(32_768));
    let once = body.copy();
    let mut again = Vec::new();
    normalize_request(&mut body, "deepseek-v4-flash", &mut again);
    assert_eq!(body, once);
    assert!(again.is_empty());
}

/// A stream of blocks, with text in two pieces.
fn block_stream(blocks: &[Json]) -> Vec<u8> {
    let mut out = Vec::new();
    for (index, block) in blocks.iter().enumerate() {
        let shell = match block.str_at("text") {
            Some(_) => Json::typed("text", "text", ""),
            None => block.copy(),
        };
        let frame = |kind: &str| Json::object().and("type", Json::text(kind)).and("index", Json::unsigned(index as u64));
        out.extend(render_sse(Some("content_block_start"), &frame("content_block_start").and("content_block", shell)));
        if let Some(text) = block.str_at("text") {
            let (one, two) = text.split_at(text.len() / 2);
            for piece in [one, two] {
                let delta = frame("content_block_delta").and("delta", Json::typed("text_delta", "text", piece));
                out.extend(render_sse(Some("content_block_delta"), &delta));
            }
        }
        out.extend(render_sse(Some("content_block_stop"), &frame("content_block_stop")));
    }
    out
}

/// The blocks that a stream spells out.
fn read_blocks(stream: &[u8]) -> Vec<Json> {
    let mut blocks: Vec<Json> = Vec::new();
    let mut rest = stream.to_vec();
    while let Some((frame, _, behind)) = split_frame(&rest) {
        let value = j(&event_and_data(&frame).1);
        if let Some(shell) = value.get("content_block") {
            assert_eq!(value.u64_at("index"), Some(blocks.len() as u64));
            blocks.push(shell.copy());
        }
        if let Some(more) = value.get("delta").and_then(|delta| delta.str_at("text")) {
            let block = blocks.last_mut().unwrap();
            let text = format!("{}{more}", block.str_at("text").unwrap());
            block.set("text", Json::text(&text));
        }
        rest = behind;
    }
    blocks
}

fn search_turn() -> Vec<Json> {
    let content = r#"[{"type":"text","text":"Search results for query: a"},{"type":"server_tool_use","id":"u1","name":"web_search","input":{}},{"type":"web_search_tool_result","tool_use_id":"r1","content":[{"type":"web_search_result"}]},{"type":"server_tool_use","name":"web_search","input":{}},{"type":"web_search_tool_result","content":[]},{"type":"server_tool_use","name":"web_search","input":{}},{"type":"web_search_tool_result","content":[{"type":"web_search_result"}]},{"type":"server_tool_use","id":"u2","name":"web_search","input":{}},{"type":"text","text":"Search resembles this"},{"type":"server_tool_use","id":"u3","name":"web_search","input":{}}]"#;
    j(content).as_array().unwrap().iter().map(|block| block.copy()).collect()
}

#[test]
fn streams_and_responses_are_cleaned_alike() {
    let blocks = search_turn();
    let mut response = Json::object().and("content", Json::array(blocks.iter().map(|block| block.copy()).collect()));
    let whole = strip_nonstream_noise(&mut response);
    let mut filter = SearchNoiseFilter::new();
    let mut before = filter.stats();
    assert_eq!((before.noise_blocks, before.pair_blocks, before.adopted_pairs, before.unkeyed_pairs), (0, 0, 0, 0));
    let mut out = Vec::new();
    for piece in block_stream(&blocks).chunks(7) {
        out.extend(filter.feed(piece).unwrap());
        let now = filter.stats();
        assert!(before.noise_blocks <= now.noise_blocks && before.pair_blocks <= now.pair_blocks && before.bytes <= now.bytes);
        assert!(before.adopted_pairs <= now.adopted_pairs && before.unkeyed_pairs <= now.unkeyed_pairs);
        before = now;
    }
    out.extend(filter.finalize().unwrap());
    assert_eq!(response.array_at("content").unwrap(), &read_blocks(&out));
    let streamed = filter.stats();
    assert_eq!((whole.noise_blocks, whole.pair_blocks, whole.adopted_pairs, whole.unkeyed_pairs), (1, 2, 1, 1));
    assert_eq!(
        (streamed.noise_blocks, streamed.pair_blocks, streamed.adopted_pairs, streamed.unkeyed_pairs),
        (whole.noise_blocks, whole.pair_blocks, whole.adopted_pairs, whole.unkeyed_pairs)
    );
}

#[test]
fn untouched_streams_pass_byte_for_byte() {
    let calm: Vec<Json> = search_turn().into_iter().skip(7).collect();
    let mut stream = b": hello\n\nevent: ping\ndata: {\"type\": \"ping\"}\n\n".to_vec();
    stream.extend(block_stream(&calm));
    let mut filter = SearchNoiseFilter::new();
    let mut out = Vec::new();
    for piece in stream.chunks(11) {
        out.extend(filter.feed(piece).unwrap());
    }
    out.extend(filter.finalize().unwrap());
    assert_eq!(out, stream);
}

#[test]
fn responses_are_reported_as_changed_when_they_are() {
    for content in [
        r#"{"content":[{"type":"text","text":"hello"},{"type":"server_tool_use","name":"web_search"},{"type":"web_search_tool_result","content":null}]}"#,
        r#"{"content":[{"type":"text","text":"Search results for query: x"}]}"#,
        r#"{"content":[{"type":"server_tool_use","id":"a","name":"web_search"},{"type":"web_search_tool_result","content":[]}]}"#,
        r#"{"content":"plain"}"#,
        "[]",
    ] {
        let mut response = j(content);
        let stats = strip_nonstream_noise(&mut response);
        assert_eq!(stats.rewrote_body(), response != j(content), "{content}");
    }
}

#[test]
fn blocks_before_a_misplaced_one_stay() {
    let thinking = |text: &str| Json::typed("thinking", "thinking", text);
    let stored = |index: usize, text: &str| StoredBlock { index, block: thinking(text) };
    let mut message = j(r#"{"role":"assistant","content":"hi"}"#);
    let error = insert_reasoning_blocks(&mut message, &vec![stored(0, "a"), stored(0, "b"), stored(1, "c")]).unwrap_err();
    assert_eq!(error, "thinking continuity block position is invalid");
    assert_eq!(
        message.render(),
        r#"{"role":"assistant","content":[{"type":"thinking","thinking":"a"},{"type":"text","text":"hi"}]}"#
    );
    let mut other = j(r#"{"content":7}"#);
    assert_eq!(
        insert_reasoning_blocks(&mut other, &Vec::new()).unwrap_err(),
        "thinking continuity assistant content is invalid"
    );
    assert_eq!(other, j(r#"{"content":7}"#));
}
