use csswitch_gateway::json::Json;
use csswitch_gateway::policy::{clamp_max_tokens, transform_request, transform_request_with_metadata};

fn j(text: &str) -> Json {
    Json::parse(text).unwrap()
}

#[allow(dead_code)]
trait Piece {
    fn piece(&self) -> String;
}

impl Piece for Json {
    fn piece(&self) -> String {
        self.render()
    }
}

impl Piece for str {
    fn piece(&self) -> String {
        Json::text(self).render()
    }
}

impl Piece for String {
    fn piece(&self) -> String {
        Json::text(self).render()
    }
}

impl Piece for u64 {
    fn piece(&self) -> String {
        self.to_string()
    }
}

impl Piece for usize {
    fn piece(&self) -> String {
        self.to_string()
    }
}

impl<T: Piece + ?Sized> Piece for &T {
    fn piece(&self) -> String {
        (**self).piece()
    }
}

impl<T: Piece> Piece for Vec<T> {
    fn piece(&self) -> String {
        let items: Vec<String> = self.iter().map(|item| item.piece()).collect();
        format!("[{}]", items.join(","))
    }
}

#[allow(dead_code)]
fn piece<T: Piece + ?Sized>(value: &T) -> String {
    value.piece()
}

#[allow(dead_code)]
fn at<'a>(value: &'a Json, path: &[&str]) -> &'a Json {
    let mut here = value;
    for step in path {
        let next = match here {
            Json::Array(items) => step.parse::<usize>().ok().and_then(|index| items.get(index)),
            other => other.get(step),
        };
        here = match next {
            Some(found) => found,
            None => return Box::leak(Box::new(Json::Null)),
        };
    }
    here
}

#[allow(dead_code)]
fn at_mut<'a>(value: &'a mut Json, path: &[&str]) -> &'a mut Json {
    let mut here = value;
    for step in path {
        here = match here {
            Json::Array(items) => &mut items[step.parse::<usize>().unwrap()],
            Json::Object(entries) => {
                let place = entries.iter().position(|entry| entry.0 == *step);
                let index = place.unwrap_or_else(|| {
                    entries.push((step.to_string(), Json::Null));
                    entries.len() - 1
                });
                &mut entries[index].1
            }
            _ => panic!("no value at {step}"),
        };
    }
    here
}


#[test]
fn clamps_deepseek_max_tokens() {
    assert_eq!(clamp_max_tokens(Some(100_000), "deepseek-v4-pro"), Some(65_536));
    assert_eq!(clamp_max_tokens(Some(500), "deepseek-v4-pro"), Some(500));
}

#[test]
fn transform_maps_model_and_normalizes_thinking() {
    let raw = j(r#"{"model": "atlas-opus-4-8", "max_tokens": 100000, "thinking": {"type": "auto"}, "messages": [{"role": "user", "content": "hi"}]}"#);
    let bytes = transform_request(raw, "deepseek-v4-pro").unwrap();
    let v = Json::parse_bytes(&bytes).unwrap();
    assert_eq!(at(&v, &["model"]).as_str(), Some("deepseek-v4-pro"));
    assert_eq!(at(&v, &["max_tokens"]).as_u64(), Some(65536));
    assert_eq!(at(&v, &["thinking", "type"]).as_str(), Some("auto"));
}

#[test]
fn forced_tool_choice_disables_thinking() {
    let raw = j(r#"{"model": "atlas-opus-4-8", "tool_choice": {"type": "any"}, "tools": [{"name": "python", "input_schema": {"type": "object"}}], "thinking": {"type": "auto"}, "messages": []}"#);
    let bytes = transform_request(raw, "deepseek-v4-pro").unwrap();
    let v = Json::parse_bytes(&bytes).unwrap();
    assert_eq!(at(&v, &["thinking", "type"]).as_str(), Some("disabled"));
}

#[test]
fn deepseek_server_tool_policy_preserves_web_search_and_client_tools_only() {
    let media = j(r#"{"role": "user", "content": [{"type": "image", "source": {"type": "base64", "media_type": "image/png", "data": "AA=="}}]}"#);
    let (bytes, metadata) = transform_request_with_metadata(
        j(&format!(r#"{{"model": "atlas-opus-4-8", "messages": [{}], "thinking": {{"type": "auto"}}, "mcp_servers": [{{"type": "url", "url": "https://example.invalid"}}], "tool_choice": {{"type": "tool", "name": "web_fetch"}}, "tools": [{{"type": "web_search_20250305", "name": "web_search"}}, {{"type": "web_fetch_20260209", "name": "web_fetch"}}, {{"type": "code_execution_20250825", "name": "code_execution"}}, {{"type": "mcp_toolset", "mcp_server_name": "pubmed"}}, {{"type": "tool_search_tool_regex_20251119", "name": "tool_search_tool_regex"}}, {{"type": "advisor_20251001", "name": "advisor"}}, {{"type": "vendor_server_tool_20990101", "vendor_option": true}}, {{"name": "web_search", "input_schema": {{"type": "object"}}}}, {{"name": "python", "input_schema": {{"type": "object"}}}}, {{"name": "bash", "input_schema": {{"type": "object"}}}}, {{"name": "compute", "input_schema": {{"type": "object"}}}}]}}"#, piece(&(media.clone())))),
        "deepseek-v4-pro",
    )
    .unwrap();
    let mapped = Json::parse_bytes(&bytes).unwrap();
    assert_eq!((*at(&mapped, &["tools"])), j(r#"[{"type": "web_search_20250305", "name": "web_search"}, {"type": "vendor_server_tool_20990101", "vendor_option": true}, {"name": "web_search", "input_schema": {"type": "object"}}, {"name": "python", "input_schema": {"type": "object"}}, {"name": "bash", "input_schema": {"type": "object"}}, {"name": "compute", "input_schema": {"type": "object"}}]"#));
    assert_eq!((*at(&mapped, &["tool_choice"])), j(r#"{"type": "auto"}"#));
    assert_eq!((*at(&mapped, &["thinking"])), j(r#"{"type": "auto"}"#));
    assert_eq!((*at(&mapped, &["messages", "0"])), media);
    assert!(mapped.get("mcp_servers").is_none());
    assert_eq!(metadata.dropped_server_tools, 6);
    assert_eq!(metadata.rule_ids, vec![
            "tool.deepseek.unsupported-server-tool-filter".to_string(),
            "tool.deepseek.web_search.server-tool-preserve".to_string(),
            "tool.anthropic.unknown-server-tool-preserve".to_string(),
        ]);
}

#[test]
fn deepseek_all_unsupported_tools_remove_every_tool_choice_shape() {
    for tool_choice in [
        j(r#"{"type": "any"}"#),
        j(r#"{"type": "auto"}"#),
        j(r#"{"type": "tool", "name": "web_fetch"}"#),
    ] {
        let (bytes, metadata) = transform_request_with_metadata(
            j(&format!(r#"{{"messages": [], "thinking": {{"type": "auto"}}, "tools": [{{"type": "web_fetch_20260209", "name": "web_fetch"}}, {{"type": "code_execution_20250825", "name": "code_execution"}}], "tool_choice": {}}}"#, piece(&(tool_choice)))),
            "deepseek-v4-pro",
        )
        .unwrap();
        let mapped = Json::parse_bytes(&bytes).unwrap();
        assert!(mapped.get("tools").is_none());
        assert!(mapped.get("tool_choice").is_none());
        assert_eq!((*at(&mapped, &["thinking"])), j(r#"{"type": "auto"}"#));
        assert_eq!(metadata.dropped_server_tools, 2);
    }
}
