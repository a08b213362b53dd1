use csswitch_gateway::anthropic_compat::{
    relay_skeleton, replace_kimi_document_blocks, transform_relay_request, transform_relay_request_for_contract, validate_relay_messages,
    AnthropicMetadata, RelayFlavor,
};
use csswitch_gateway::json::Json;

fn j(text: &str) -> Json {
    Json::parse(text).unwrap()
}

#[allow(dead_code)]
trait Piece {
    fn piece(&self) -> String;
}

impl Piece for Json {
    fn piece(&self) -> String {
        self.render()
    }
}

impl Piece for str {
    fn piece(&self) -> String {
        Json::text(self).render()
    }
}

impl Piece for String {
    fn piece(&self) -> String {
        Json::text(self).render()
    }
}

impl Piece for u64 {
    fn piece(&self) -> String {
        self.to_string()
    }
}

impl Piece for usize {
    fn piece(&self) -> String {
        self.to_string()
    }
}

impl<T: Piece + ?Sized> Piece for &T {
    fn piece(&self) -> String {
        (**self).piece()
    }
}

impl<T: Piece> Piece for Vec<T> {
    fn piece(&self) -> String {
        let items: Vec<String> = self.iter().map(|item| item.piece()).collect();
        format!("[{}]", items.join(","))
    }
}

#[allow(dead_code)]
fn piece<T: Piece + ?Sized>(value: &T) -> String {
    value.piece()
}

#[allow(dead_code)]
fn at<'a>(value: &'a Json, path: &[&str]) -> &'a Json {
    let mut here = value;
    for step in path {
        let next = match here {
            Json::Array(items) => step.parse::<usize>().ok().and_then(|index| items.get(index)),
            other => other.get(step),
        };
        here = match next {
            Some(found) => found,
            None => return Box::leak(Box::new(Json::Null)),
        };
    }
    here
}

#[allow(dead_code)]
fn at_mut<'a>(value: &'a mut Json, path: &[&str]) -> &'a mut Json {
    let mut here = value;
    for step in path {
        here = match here {
            Json::Array(items) => &mut items[step.parse::<usize>().unwrap()],
            Json::Object(entries) => {
                let place = entries.iter().position(|entry| entry.0 == *step);
                let index = place.unwrap_or_else(|| {
                    entries.push((step.to_string(), Json::Null));
                    entries.len() - 1
                });
                &mut entries[index].1
            }
            _ => panic!("no value at {step}"),
        };
    }
    here
}

#[test]
fn relay_history_rejects_orphan_duplicate_and_unresolved_tools() {
    for messages in [
        j(r#"[{"role": "user", "content": [{"type": "tool_result", "tool_use_id": "missing", "content": "x"}]}]"#),
        j(r#"[{"role": "user", "content": [{"type": "tool_use", "id": "wrong_role", "name": "lookup", "input": {}}]}]"#),
        j(r#"[{"role": "assistant", "content": [{"type": "tool_result", "tool_use_id": "wrong_role", "content": "x"}]}]"#),
        j(r#"[{"role": "assistant", "content": [{"type": "tool_use", "id": "missing_name", "input": {}}]}]"#),
        j(r#"[{"role": "assistant", "content": [{"type": "tool_use", "id": "missing_input", "name": "lookup"}]}]"#),
        j(r#"[{"role": "user", "content": "go"}, {"role": "assistant", "content": [{"type": "tool_use", "id": "dup", "name": "a", "input": {}}]}, {"role": "user", "content": [{"type": "tool_result", "tool_use_id": "dup", "content": "x"}]}, {"role": "assistant", "content": [{"type": "tool_use", "id": "dup", "name": "b", "input": {}}]}]"#),
        j(r#"[{"role": "user", "content": "go"}, {"role": "assistant", "content": [{"type": "tool_use", "id": "pending", "name": "a", "input": {}}]}]"#),
    ] {
        assert!(transform_relay_request(
            j(&format!(r#"{{"messages": {}}}"#, piece(&(messages)))),
            "kimi-k3",
            Some("enabled"),
        )
        .is_err());
    }
}

/// Both Kimi templates resolve to one contract: the open platform and the
/// coding endpoint share the same compensations, and native web_search
/// server tools pass through to either upstream unchanged.
fn kimi(body: Json) -> (Json, AnthropicMetadata) {
    transform_relay_request_for_contract(
        body,
        "kimi-for-coding",
        Some("upstream_default"),
        Some("kimi-anthropic-relay"),
    )
    .unwrap()
}

/// The same request through the open-platform endpoint must come out
/// identical: one contract, one set of compensations, only the URL differs.
fn kimi_open_platform(body: Json) -> (Json, AnthropicMetadata) {
    transform_relay_request_for_contract(
        body,
        "kimi-for-coding",
        Some("upstream_default"),
        Some("kimi-anthropic-relay"),
    )
    .unwrap()
}

#[test]
fn kimi_moves_science_compute_context_before_the_real_search_intent() {
    // Live A/B 根因形状:Science 把本机上下文作为第二条 user 追加,
    // Kimi 因此搜索了最后的机器规格而不是第一条 Rust 问题。
    let intent = j(r#"{"role": "user", "content": [{"type": "text", "text": "联网查询 Rust 最新稳定版与发布日期"}]}"#);
    let context = j(r#"{"role": "user", "content": [{"type": "text", "text": "Compute Snapshot\nCPU: 10 cores\nRAM: 32GiB"}]}"#);
    let (mapped, metadata) = kimi(j(&format!(r#"{{"messages": [{}, {}], "tools": [{{"type": "web_search_20250305", "name": "web_search"}}]}}"#, piece(&(intent.clone())), piece(&(context.clone())))));

    assert_eq!((*at(&mapped, &["messages"])), j(&format!(r#"[{}, {}]"#, piece(&(context)), piece(&(intent)))));
    assert!(metadata
        .rule_ids
        .contains(&"provider.kimi.science-context-tail-reorder".to_string()));

    // `GiB` 必须是带数字的容量规格；空格分隔的 `32 GiB` 同样命中。
    let intent = j(r#"{"role": "user", "content": "查询 Rust"}"#);
    let context = j(r#"{"role": "user", "content": "Compute Snapshot\nCPU: 10 cores\nMemory: 32 GiB"}"#);
    let (mapped, metadata) = kimi(j(&format!(r#"{{"messages": [{}, {}], "tools": [{{"type": "web_search_20250305", "name": "web_search"}}]}}"#, piece(&(intent.clone())), piece(&(context.clone())))));
    assert_eq!((*at(&mapped, &["messages"])), j(&format!(r#"[{}, {}]"#, piece(&(context)), piece(&(intent)))));
    assert!(metadata
        .rule_ids
        .contains(&"provider.kimi.science-context-tail-reorder".to_string()));
}

#[test]
fn science_context_reorder_does_not_escape_its_narrow_kimi_search_boundary() {
    let typed_search = j(r#"[{"type": "web_search_20250305", "name": "web_search"}]"#);
    let context = j(r#"{"role": "user", "content": [{"type": "text", "text": "COMPUTE SNAPSHOT\n10 CORES\n32GIB RAM"}]}"#);
    let kimi_untouched = [
        // 用户单独询问 compute snapshot:没有前一条真实意图,不交换。
        j(&format!(r#"{{"messages": [{}], "tools": {}}}"#, piece(&(context.clone())), piece(&(typed_search.clone())))),
        // 普通连续 user message 不凭角色形状猜测。
        j(&format!(r#"{{"messages": [{{"role": "user", "content": "第一条"}}, {{"role": "user", "content": "第二条"}}], "tools": {}}}"#, piece(&(typed_search.clone())))),
        // 空白占位不算真实用户意图。
        j(&format!(r#"{{"messages": [{{"role": "user", "content": "   "}}, {}], "tools": {}}}"#, piece(&(context.clone())), piece(&(typed_search.clone())))),
        // 单词子串不算 RAM 规格(`program` 含 "ram"),不得宽匹配。
        j(&format!(r#"{{"messages": [{{"role": "user", "content": "Rust"}}, {{"role": "user", "content": "compute snapshot cores program"}}], "tools": {}}}"#, piece(&(typed_search.clone())))),
        // `cores` 也必须是独立词，裸 `GiB` 不是容量规格。
        j(&format!(r#"{{"messages": [{{"role": "user", "content": "Rust"}}, {{"role": "user", "content": "compute snapshot hardcores GiB"}}], "tools": {}}}"#, piece(&(typed_search.clone())))),
        // 末尾混入非 text 块时不是 text-only synthetic context。
        j(&format!(r#"{{"messages": [{{"role": "user", "content": "Rust"}}, {{"role": "user", "content": [{{"type": "text", "text": "Compute Snapshot 10 cores 32GiB RAM"}}, {{"type": "image", "source": {{"type": "base64", "data": "x"}}}}]}}], "tools": {}}}"#, piece(&(typed_search.clone())))),
        // 普通 client tool 不代表原生搜索轮。
        j(&format!(r#"{{"messages": [{{"role": "user", "content": "Rust"}}, {}], "tools": [{{"name": "web_search", "input_schema": {{"type": "object"}}}}]}}"#, piece(&(context.clone())))),
        // 前一条 user 是工具结果时不能交换，否则会拆断 assistant/tool_result 配对。
        j(&format!(r#"{{"messages": [{{"role": "assistant", "content": [{{"type": "tool_use", "id": "toolu_1", "name": "python", "input": {{}}}}]}}, {{"role": "user", "content": [{{"type": "tool_result", "tool_use_id": "toolu_1", "content": "ok"}}]}}, {}], "tools": {}}}"#, piece(&(context.clone())), piece(&(typed_search.clone())))),
    ];
    for body in kimi_untouched {
        let before = at(&body, &["messages"]).clone();
        let (mapped, metadata) = kimi(body);
        assert_eq!((*at(&mapped, &["messages"])), before);
        assert!(!metadata
            .rule_ids
            .contains(&"provider.kimi.science-context-tail-reorder".to_string()));
    }

    for (contract, model) in [
        (Some("deepseek-native"), "deepseek-chat"),
        (Some("generic-anthropic"), "other-model"),
    ] {
        let body = j(&format!(r#"{{"messages": [{{"role": "user", "content": "Rust"}}, {}], "tools": {}}}"#, piece(&(context.clone())), piece(&(typed_search.clone()))));
        let before = at(&body, &["messages"]).clone();
        let (mapped, metadata) = transform_relay_request_for_contract(
            body,
            model,
            Some("upstream_default"),
            contract,
        )
        .unwrap();
        assert_eq!((*at(&mapped, &["messages"])), before);
        assert!(!metadata
            .rule_ids
            .contains(&"provider.kimi.science-context-tail-reorder".to_string()));
    }
}

#[test]
fn both_kimi_endpoints_produce_identical_requests_and_rules() {
    let body = j(r#"{"model": "atlas-opus-4-8", "messages": [{"role": "user", "content": [{"type": "document", "source": {"media_type": "application/pdf"}}]}], "thinking": {"type": "auto"}, "tools": [{"type": "web_search_20250305", "name": "web_search"}]}"#);
    let (coding_mapped, coding_meta) = kimi(body.clone());
    let (open_mapped, open_meta) = kimi_open_platform(body);
    assert_eq!(coding_mapped, open_mapped);
    assert_eq!(coding_meta.rule_ids, open_meta.rule_ids);
    assert_eq!(coding_meta.flavor, open_meta.flavor);
}

#[test]
fn kimi_drops_science_auto_thinking_so_the_upstream_default_applies() {
    // Upstream silently stops thinking on the non-standard `auto`, but keeps
    // thinking on when the field is absent.
    for declared in [j(r#"{"type": "auto"}"#), j(r#"{"type": "adaptive"}"#)] {
        let (mapped, metadata) = kimi(j(&format!(r#"{{"model": "atlas-opus-4-8", "messages": [{{"role": "user", "content": "hi"}}], "thinking": {}}}"#, piece(&(declared)))));
        assert!(mapped.get("thinking").is_none());
        assert!(metadata
            .rule_ids
            .contains(&"provider.kimi.thinking-upstream-default".to_string()));
    }
}

#[test]
fn kimi_passes_standard_thinking_values_through_untouched() {
    for declared in [
        j(r#"{"type": "enabled", "budget_tokens": 2048}"#),
        j(r#"{"type": "disabled"}"#),
    ] {
        let (mapped, metadata) = kimi(j(&format!(r#"{{"model": "atlas-opus-4-8", "messages": [{{"role": "user", "content": "hi"}}], "thinking": {}}}"#, piece(&(declared.clone())))));
        assert_eq!((*at(&mapped, &["thinking"])), declared);
        assert!(!metadata
            .rule_ids
            .contains(&"provider.kimi.thinking-upstream-default".to_string()));
    }
}

#[test]
fn kimi_specified_tool_choice_disables_thinking_but_keeps_the_forced_tool() {
    // Science's work-item classifier forces one named tool and omits
    // `thinking`; upstream thinking defaults to on and rejects the pair.
    let (mapped, metadata) = kimi(j(r#"{"model": "atlas-opus-4-8", "messages": [{"role": "user", "content": "classify"}], "tool_choice": {"type": "tool", "name": "create_work_item"}, "tools": [{"name": "create_work_item", "input_schema": {"type": "object"}}]}"#));
    assert_eq!((*at(&mapped, &["thinking"])), j(r#"{"type": "disabled"}"#));
    assert_eq!((*at(&mapped, &["tool_choice"])), j(r#"{"type": "tool", "name": "create_work_item"}"#));
    assert!(metadata
        .rule_ids
        .contains(&"provider.kimi.specified-tool-choice-disables-thinking".to_string()));
}

#[test]
fn kimi_leaves_any_and_auto_tool_choice_thinking_alone() {
    // Only the "specified" form conflicts upstream; blanket-disabling
    // thinking for `any`/`auto` would give up thinking for no reason.
    for choice in [j(r#"{"type": "any"}"#), j(r#"{"type": "auto"}"#)] {
        let (mapped, metadata) = kimi(j(&format!(r#"{{"model": "atlas-opus-4-8", "messages": [{{"role": "user", "content": "hi"}}], "tool_choice": {}, "tools": [{{"name": "python", "input_schema": {{"type": "object"}}}}]}}"#, piece(&(choice)))));
        assert!(mapped.get("thinking").is_none());
        assert!(!metadata
            .rule_ids
            .contains(&"provider.kimi.specified-tool-choice-disables-thinking".to_string()));
    }
}

#[test]
fn kimi_aligns_the_mismatched_web_search_result_id() {
    // 真实形状:Kimi 自己发出的这两个 id 就是配不上的(tool_… 对 srvtoolu_…),
    // 原样回传会被它自己以 400 tool_call_id  is not found 拒收。
    let (body, meta) = kimi(j(r#"{"messages": [{"role": "user", "content": "搜一下 CRISPR"}, {"role": "assistant", "content": [{"type": "server_tool_use", "id": "tool_lqvW0dv4wjst", "name": "web_search", "input": {"query": "CRISPR"}}, {"type": "web_search_tool_result", "tool_use_id": "srvtoolu_da2ngroj", "content": [{"type": "web_search_result", "url": "https://example.com"}]}, {"type": "text", "text": "找到一条。"}]}, {"role": "user", "content": "再总结一句"}]}"#));
    let blocks = at(&body, &["messages", "1", "content"]).as_array().unwrap();
    assert_eq!(at(&blocks[1], &["tool_use_id"]).as_str(), Some("tool_lqvW0dv4wjst"));
    assert!(meta
        .rule_ids
        .contains(&"provider.kimi.web-search-result-pairing-repair".to_string()));
}

#[test]
fn kimi_leaves_a_matching_web_search_pair_alone() {
    // 已经配得上就不动,也不记规则——日志只记净效果。
    let (body, meta) = kimi(j(r#"{"messages": [{"role": "assistant", "content": [{"type": "server_tool_use", "id": "srv_01", "name": "web_search", "input": {}}, {"type": "web_search_tool_result", "tool_use_id": "srv_01", "content": []}]}]}"#));
    assert_eq!(at(&body, &["messages", "0", "content", "1", "tool_use_id"]).as_str(), Some("srv_01"));
    assert!(!meta
        .rule_ids
        .contains(&"provider.kimi.web-search-result-pairing-repair".to_string()));
}

#[test]
fn kimi_binds_each_result_to_the_nearest_preceding_server_tool_use() {
    // 一条消息里两次搜索:各自绑到自己前面那个,不能全绑到第一个。
    let (body, _) = kimi(j(r#"{"messages": [{"role": "assistant", "content": [{"type": "server_tool_use", "id": "tool_A", "name": "web_search", "input": {}}, {"type": "web_search_tool_result", "tool_use_id": "srvtoolu_x", "content": []}, {"type": "server_tool_use", "id": "tool_B", "name": "web_search", "input": {}}, {"type": "web_search_tool_result", "tool_use_id": "srvtoolu_y", "content": []}]}]}"#));
    let blocks = at(&body, &["messages", "0", "content"]).as_array().unwrap();
    assert_eq!(at(&blocks[1], &["tool_use_id"]).as_str(), Some("tool_A"));
    assert_eq!(at(&blocks[3], &["tool_use_id"]).as_str(), Some("tool_B"));
}

#[test]
fn kimi_synthesizes_the_server_tool_use_science_dropped() {
    // Science 落盘时只留结果块。实测骨架就是这个形状,补一个同 id 的
    // server_tool_use 之后上游接受(丢块也能过,但会丢搜索证据)。
    let (body, meta) = kimi(j(r#"{"messages": [{"role": "assistant", "content": [{"type": "web_search_tool_result", "tool_use_id": "srvtoolu_da2nmt8d", "content": [{"type": "web_search_result", "url": "https://example.com"}]}, {"type": "text", "text": "找到一条。"}]}]}"#));
    let blocks = at(&body, &["messages", "0", "content"]).as_array().unwrap();
    assert_eq!(blocks.len(), 3, "补块后应有 server_tool_use + result + text");
    assert_eq!(at(&blocks[0], &["type"]).as_str(), Some("server_tool_use"));
    assert_eq!(at(&blocks[0], &["id"]).as_str(), Some("srvtoolu_da2nmt8d"));
    assert_eq!(at(&blocks[1], &["type"]).as_str(), Some("web_search_tool_result"));
    assert_eq!(at(&blocks[1], &["tool_use_id"]).as_str(), Some("srvtoolu_da2nmt8d"));
    assert!(meta
        .rule_ids
        .contains(&"provider.kimi.web-search-result-pairing-repair".to_string()));
}

#[test]
fn kimi_repairs_idless_orphan_results_by_content() {
    // 无 tool_use_id 的孤儿结果块留在历史里每一轮都 400
    // "tool_call_id is not found"(2026-08-19 真实会话:上游幻影空搜索
    // 经 Science 落盘后正是这个形态)。空内容直接删,零证据损失。
    let (body, meta) = kimi(j(r#"{"messages": [{"role": "assistant", "content": [{"type": "web_search_tool_result", "content": []}, {"type": "text", "text": "答案"}]}]}"#));
    let content = at(&body, &["messages", "0", "content"]).as_array().unwrap();
    assert_eq!(content.len(), 1);
    assert_eq!(at(&content[0], &["type"]).as_str(), Some("text"));
    assert!(meta
        .rule_ids
        .contains(&"provider.kimi.web-search-result-pairing-repair".to_string()));

    // 有内容则合成配对键保住证据:键只是相关性标记,上游自己的
    // 两半 id 本来也对不上。
    let (body, meta) = kimi(j(r#"{"messages": [{"role": "assistant", "content": [{"type": "web_search_tool_result", "content": [{"type": "web_search_result", "url": "https://example.test"}]}]}]}"#));
    let content = at(&body, &["messages", "0", "content"]).as_array().unwrap();
    assert_eq!(content.len(), 2);
    assert_eq!(at(&content[0], &["type"]).as_str(), Some("server_tool_use"));
    let synthesized = at(&content[0], &["id"]).as_str().unwrap();
    assert!(synthesized.starts_with("srvtoolu_csswitch_repair_"));
    assert_eq!(at(&content[1], &["tool_use_id"]).as_str(), Some(synthesized));
    assert!(meta
        .rule_ids
        .contains(&"provider.kimi.web-search-result-pairing-repair".to_string()));
}

#[test]
fn kimi_now_preserves_the_server_web_search_declaration() {
    // 桥接退役后 web_search 原样送上游,不再换成客户端工具。
    let (body, meta) = kimi(j(r#"{"messages": [{"role": "user", "content": "搜一下"}], "tools": [{"type": "web_search_20250305", "name": "web_search"}]}"#));
    let tools = at(&body, &["tools"]).as_array().unwrap();
    assert_eq!(tools.len(), 1);
    assert_eq!(at(&tools[0], &["type"]).as_str(), Some("web_search_20250305"));
    assert_eq!(meta.dropped_server_tools, 0);
    assert!(meta
        .rule_ids
        .contains(&"tool.kimi.web_search.server-tool-preserve".to_string()));
}

#[test]
fn kimi_replaces_document_blocks_with_a_visible_note() {
    // A single attachment anywhere in history otherwise fails every later
    // turn: upstream rejects the block type outright.
    let (mapped, metadata) = kimi(j(r#"{"model": "atlas-opus-4-8", "messages": [{"role": "user", "content": [{"type": "document", "source": {"type": "base64", "media_type": "application/pdf", "data": "JVBER"}}, {"type": "text", "text": "what is this"}]}, {"role": "assistant", "content": [{"type": "text", "text": "a file"}, {"type": "tool_use", "id": "t1", "name": "read_file", "input": {}}]}, {"role": "user", "content": [{"type": "tool_result", "tool_use_id": "t1", "content": "ok"}, {"type": "document", "source": {"type": "text", "media_type": "text/plain"}}]}]}"#));
    let blocks: Vec<&str> = at(&mapped, &["messages"])
        .as_array()
        .unwrap()
        .iter()
        .flat_map(|message| at(&message, &["content"]).as_array().unwrap())
        .map(|block| at(&block, &["type"]).as_str().unwrap())
        .collect();
    assert!(!blocks.contains(&"document"));
    assert_eq!(blocks.iter().filter(|kind| **kind == "text").count(), 4);
    // The note names what was lost instead of silently dropping it.
    let note = at(&mapped, &["messages", "0", "content", "0", "text"])
        .as_str()
        .unwrap();
    assert!(note.contains("Attachment omitted"));
    assert!(note.contains("application/pdf"));
    // Attribution matters: an unattributed note gets read as an assertion
    // from nowhere and disbelieved, and the model needs the route that works.
    assert!(note.contains("CSSwitch"));
    assert!(note.contains("not a tool result"));
    assert!(note.contains("render its pages to images"));
    assert!(at(&mapped, &["messages", "2", "content", "1", "text"])
        .as_str()
        .unwrap()
        .contains("text/plain"));
    assert!(metadata
        .rule_ids
        .contains(&"provider.kimi.document-block-placeholder".to_string()));
}

#[test]
fn kimi_leaves_images_and_other_content_untouched() {
    // Images are accepted upstream; only the document block is unsupported.
    let image = j(r#"{"type": "image", "source": {"type": "base64", "media_type": "image/png", "data": "iVBOR"}}"#);
    let (mapped, metadata) = kimi(j(&format!(r#"{{"model": "atlas-opus-4-8", "messages": [{{"role": "user", "content": [{}, {{"type": "text", "text": "hi"}}]}}]}}"#, piece(&(image.clone())))));
    assert_eq!((*at(&mapped, &["messages", "0", "content", "0"])), image);
    assert!(!metadata
        .rule_ids
        .contains(&"provider.kimi.document-block-placeholder".to_string()));
}

#[test]
fn other_relay_contracts_keep_their_document_blocks() {
    let document = j(r#"{"type": "document", "source": {"type": "base64", "media_type": "application/pdf", "data": "JVBER"}}"#);
    let (mapped, metadata) = transform_relay_request_for_contract(
        j(&format!(r#"{{"model": "atlas-opus-4-8", "messages": [{{"role": "user", "content": [{}]}}]}}"#, piece(&(document.clone())))),
        "deepseek-v4-pro",
        Some("adaptive"),
        Some("deepseek-native"),
    )
    .unwrap();
    assert_eq!((*at(&mapped, &["messages", "0", "content", "0"])), document);
    assert!(metadata.rule_ids.is_empty());
}

#[test]
fn relay_flavor_covers_both_kimi_endpoints_from_one_contract() {
    for model in ["kimi-k3", "kimi-for-coding"] {
        assert_eq!(RelayFlavor::detect(Some("kimi-anthropic-relay"), model), RelayFlavor::Kimi, "{model}");
    }
    assert_eq!(RelayFlavor::detect(Some("custom-anthropic"), "kimi-for-coding"), RelayFlavor::Generic);
}

#[test]
fn relay_server_tools_are_not_client_schema_normalized() {
    let (mapped, metadata) = transform_relay_request(
        j(r#"{"model": "atlas-sonnet-5", "messages": [], "tools": [{"type": "web_search_20250305", "name": "web_search"}, {"type": "web_fetch_20260209", "name": "web_fetch", "max_uses": 2}, {"type": "mcp_toolset", "mcp_server_name": "pubmed"}, {"type": "vendor_server_tool_20990101", "vendor_option": true}, {"name": "lookup", "input_schema": {"properties": {"q": {"type": "string"}}}}]}"#),
        "relay-model",
        None,
    )
    .unwrap();
    let tools = at(&mapped, &["tools"]).as_array().unwrap();
    assert_eq!(tools[0], j(r#"{"type": "web_search_20250305", "name": "web_search"}"#));
    assert_eq!(tools[1], j(r#"{"type": "web_fetch_20260209", "name": "web_fetch", "max_uses": 2}"#));
    assert!(tools[0].get("input_schema").is_none());
    assert!(tools[1].get("input_schema").is_none());
    assert_eq!(tools[2], j(r#"{"type": "mcp_toolset", "mcp_server_name": "pubmed"}"#));
    assert!(tools[2].get("input_schema").is_none());
    assert_eq!(tools[3], j(r#"{"type": "vendor_server_tool_20990101", "vendor_option": true}"#));
    assert!(tools[3].get("input_schema").is_none());
    assert_eq!((*at(&tools[4], &["input_schema"])), j(r#"{"type": "object", "properties": {"q": {"type": "string"}}}"#));
    assert_eq!(metadata.rule_ids, vec!["tool.relay.input-schema-normalize".to_string()]);
}

#[test]
fn kimi_contract_identity_covers_raw_k3_models_without_leaking_to_other_relays() {
    for model in ["k3", "k3-256k"] {
        let request = j(r#"{"messages": [{"role": "user", "content": "search"}], "tools": [{"type": "web_search_20250305", "name": "web_search"}]}"#);
        let (_, metadata) = transform_relay_request_for_contract(
            request.clone(),
            model,
            Some("upstream_default"),
            Some("kimi-anthropic-relay"),
        )
        .unwrap();
        assert_eq!(metadata.flavor, RelayFlavor::Kimi, "{model}");

        let (_, metadata) = transform_relay_request_for_contract(
            request,
            model,
            None,
            Some("custom-anthropic"),
        )
        .unwrap();
        assert_eq!(metadata.flavor, RelayFlavor::Generic, "{model}");
    }

    // Standalone gateways carry no contract and fall back to the model name.
    let (_, standalone) =
        transform_relay_request(j(r#"{"messages": []}"#), "kimi-legacy", None).unwrap();
    assert_eq!(standalone.flavor, RelayFlavor::Kimi);
}

#[test]
fn kimi_all_unsupported_tools_remove_every_tool_choice_shape() {
    for tool_choice in [
        j(r#"{"type": "any"}"#),
        j(r#"{"type": "auto"}"#),
        j(r#"{"type": "tool", "name": "web_fetch"}"#),
    ] {
        let (mapped, metadata) = transform_relay_request_for_contract(
            j(&format!(r#"{{"messages": [], "tools": [{{"type": "web_fetch_20260209", "name": "web_fetch"}}, {{"type": "code_execution_20250825", "name": "code_execution"}}], "tool_choice": {}}}"#, piece(&(tool_choice)))),
            "k3",
            None,
            Some("kimi-anthropic-relay"),
        )
        .unwrap();
        assert!(mapped.get("tools").is_none());
        assert!(mapped.get("tool_choice").is_none());
        assert_eq!(metadata.dropped_server_tools, 2);
    }
}

#[test]
fn histories_of_the_native_channel_are_repaired_before_they_are_judged() {
    let body = j(r#"{"messages":[{"role":"user","content":"go"},{"role":"assistant","content":[{"type":"tool_use","id":"t1","name":"bash","input":{}}]}]}"#);
    let (mapped, metadata) =
        transform_relay_request_for_contract(body, "deepseek-v4-pro", None, Some("deepseek-native")).unwrap();
    assert_eq!(
        at(&mapped, &["messages", "2"]).render(),
        r#"{"role":"user","content":[{"type":"tool_result","tool_use_id":"t1","is_error":true,"content":"[tool execution was interrupted or its result is unavailable]"}]}"#
    );
    assert_eq!(metadata.flavor, RelayFlavor::DeepSeek);
    let open = j(r#"{"messages":[{"role":"assistant","content":[{"type":"tool_use","id":"t1","name":"bash","input":{}}]}]}"#);
    assert!(transform_relay_request_for_contract(open, "kimi-for-coding", None, Some("kimi-anthropic-relay")).is_err());
}

#[test]
fn only_requests_for_kimi_are_outlined() {
    let body = j(r#"{"messages":[{"role":"user","content":"go"},{"role":"assistant","content":[{"type":"text","text":"x"},{"type":"tool_use","id":"t1"}]},{"content":[{"type":"tool_result","tool_use_id":"t1"},{"type":"web_search_tool_result"}]}]}"#);
    assert_eq!(
        relay_skeleton(&body, "k3", Some("kimi-anthropic-relay")).unwrap(),
        "tool skeleton: m1/assistant:tool_use=t1 | m2/?:tool_result=t1 | m2/?:web_search_tool_result=<none>"
    );
    assert!(relay_skeleton(&body, "deepseek-v4-pro", Some("deepseek-native")).is_none());
    assert!(relay_skeleton(&body, "", Some("kimi-anthropic-relay")).is_none());
    assert!(relay_skeleton(&j(r#"{"messages":[]}"#), "k3", Some("kimi-anthropic-relay")).is_none());
}

fn native(body: &str) -> Result<Json, String> {
    transform_relay_request_for_contract(j(body), "deepseek-v4-pro", None, Some("deepseek-native")).map(|(mapped, _)| mapped)
}

fn turn_of(texts: usize, last: &str) -> String {
    let blocks: Vec<String> = (0..texts).map(|i| format!(r#"{{"type":"text","text":"{}"}}"#, i)).collect();
    format!(
        r#"{{"messages":[{{"role":"user","content":"go"}},{{"role":"assistant","content":[{},{}]}},{{"role":"user","content":[{{"type":"tool_result","tool_use_id":"t1","content":"done"}}]}}]}}"#,
        blocks.join(","),
        last
    )
}

#[test]
fn native_histories_are_judged_as_they_came() {
    let call = r#"{"type":"tool_use","id":"t1","name":"bash","input":{}}"#;
    let full = native(&turn_of(1023, call)).unwrap();
    assert_eq!(at(&full, &["messages", "1", "content"]).as_array().unwrap().len(), 1025);
    assert_eq!(native(&turn_of(1024, call)).unwrap_err(), "relay history message has too many content blocks");
    let nameless = r#"{"messages":[{"role":"user","content":[{"type":"tool_result","content":"x"}]}]}"#;
    assert_eq!(native(nameless).unwrap_err(), "relay history tool_result id is invalid");
    assert_eq!(validate_relay_messages(&j(nameless)).unwrap_err(), "relay history tool_result id is invalid");
    assert!(validate_relay_messages(&j(r#"{"messages":[{"role":"user","content":[{"type":"tool_result","tool_use_id":"t9","content":"x"}]}]}"#)).is_ok());
    assert!(validate_relay_messages(&j("{}")).is_err());
}

#[test]
fn documents_are_counted_as_they_go() {
    let mut body = j(r#"{"messages":[{"role":"user","content":[{"type":"document","source":{"media_type":"application/pdf"}},{"type":"text","text":"a"},{"type":"document"}]},{"role":"user","content":"x"},{"role":"user","content":[{"type":"document"}]}]}"#);
    let mut rules = Vec::new();
    assert_eq!(replace_kimi_document_blocks(&mut body, &mut rules), 3);
    assert_eq!(rules, ["provider.kimi.document-block-placeholder"]);
    assert_eq!(replace_kimi_document_blocks(&mut body, &mut rules), 0);
    assert_eq!(rules.len(), 1);
}
