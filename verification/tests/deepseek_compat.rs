use csswitch_gateway::deepseek_compat::{
    normalize_request, REDACTED_THINKING_PLACEHOLDER, RULE_MALFORMED_SERVER_TOOL_REPAIR, RULE_ORPHAN_TOOL_PAIRING_REPAIR,
    RULE_THINKING_AUTO_ADAPTIVE, RULE_THINKING_DISABLED_STRIPS_EFFORT, RULE_TOOL_CHOICE_DISABLES_THINKING,
    RULE_TOOL_THINKING_HISTORY_REPLAY,
};
use csswitch_gateway::json::Json;

fn j(text: &str) -> Json {
    Json::parse(text).unwrap()
}

#[allow(dead_code)]
trait Piece {
    fn piece(&self) -> String;
}

impl Piece for Json {
    fn piece(&self) -> String {
        self.render()
    }
}

impl Piece for str {
    fn piece(&self) -> String {
        Json::text(self).render()
    }
}

impl Piece for String {
    fn piece(&self) -> String {
        Json::text(self).render()
    }
}

impl Piece for u64 {
    fn piece(&self) -> String {
        self.to_string()
    }
}

impl Piece for usize {
    fn piece(&self) -> String {
        self.to_string()
    }
}

impl<T: Piece + ?Sized> Piece for &T {
    fn piece(&self) -> String {
        (**self).piece()
    }
}

impl<T: Piece> Piece for Vec<T> {
    fn piece(&self) -> String {
        let items: Vec<String> = self.iter().map(|item| item.piece()).collect();
        format!("[{}]", items.join(","))
    }
}

#[allow(dead_code)]
fn piece<T: Piece + ?Sized>(value: &T) -> String {
    value.piece()
}

#[allow(dead_code)]
fn at<'a>(value: &'a Json, path: &[&str]) -> &'a Json {
    let mut here = value;
    for step in path {
        let next = match here {
            Json::Array(items) => step.parse::<usize>().ok().and_then(|index| items.get(index)),
            other => other.get(step),
        };
        here = match next {
            Some(found) => found,
            None => return Box::leak(Box::new(Json::Null)),
        };
    }
    here
}

#[allow(dead_code)]
fn at_mut<'a>(value: &'a mut Json, path: &[&str]) -> &'a mut Json {
    let mut here = value;
    for step in path {
        here = match here {
            Json::Array(items) => &mut items[step.parse::<usize>().unwrap()],
            Json::Object(entries) => {
                let place = entries.iter().position(|entry| entry.0 == *step);
                let index = place.unwrap_or_else(|| {
                    entries.push((step.to_string(), Json::Null));
                    entries.len() - 1
                });
                &mut entries[index].1
            }
            _ => panic!("no value at {step}"),
        };
    }
    here
}

fn normalize(mut body: Json, model: &str) -> (Json, Vec<String>) {
    let mut rules = Vec::new();
    normalize_request(&mut body, model, &mut rules);
    (body, rules)
}

#[test]
fn thinking_auto_becomes_adaptive() {
    let (body, rules) = normalize(
        j(r#"{"thinking": {"type": "auto"}, "messages": []}"#),
        "deepseek-v4-pro",
    );
    assert_eq!(at(&body, &["thinking", "type"]).as_str(), Some("adaptive"));
    assert!(rules.contains(&RULE_THINKING_AUTO_ADAPTIVE.to_string()));
}

#[test]
fn standard_thinking_types_pass_through() {
    for kind in ["enabled", "adaptive"] {
        let (body, rules) = normalize(
            j(&format!(r#"{{"thinking": {{"type": {}}}, "messages": []}}"#, piece(&(kind)))),
            "deepseek-v4-pro",
        );
        assert_eq!(at(&body, &["thinking", "type"]).as_str(), Some(kind));
        assert!(!rules.contains(&RULE_THINKING_AUTO_ADAPTIVE.to_string()));
    }
}

#[test]
fn specified_tool_choice_disables_thinking_and_strips_effort() {
    let (body, rules) = normalize(
        j(r#"{"thinking": {"type": "auto"}, "tool_choice": {"type": "tool", "name": "classify"}, "reasoning_effort": "high", "output_config": {"effort": "high"}, "messages": []}"#),
        "deepseek-v4-pro",
    );
    assert_eq!((*at(&body, &["thinking"])), j(r#"{"type": "disabled"}"#));
    assert!(body.get("reasoning_effort").is_none());
    assert!(body.get("output_config").is_none());
    assert!(rules.contains(&RULE_TOOL_CHOICE_DISABLES_THINKING.to_string()));
}

#[test]
fn specified_tool_choice_supersedes_the_auto_rewrite() {
    // auto + 指定工具:最终必须是 disabled(上游在 adaptive 下同样拒收指定工具),
    // 且不该记录那条被立刻覆盖、净效果为零的 auto→adaptive。
    let (body, rules) = normalize(
        j(r#"{"thinking": {"type": "auto"}, "tool_choice": {"type": "tool", "name": "classify"}, "messages": []}"#),
        "deepseek-v4-pro",
    );
    assert_eq!((*at(&body, &["thinking"])), j(r#"{"type": "disabled"}"#));
    assert!(rules.contains(&RULE_TOOL_CHOICE_DISABLES_THINKING.to_string()));
    assert!(
        !rules.contains(&RULE_THINKING_AUTO_ADAPTIVE.to_string()),
        "被覆盖的改写不该出现在规则日志里"
    );
}

#[test]
fn only_the_specified_form_costs_thinking() {
    // 实测:auto / any / none 在 thinking 开启时都返回 200 且带 thinking 块,
    // 对它们补偿等于白白关掉推理。
    for choice in [
        j(r#"{"type": "auto"}"#),
        j(r#"{"type": "any"}"#),
        j(r#"{"type": "none"}"#),
    ] {
        let (body, rules) = normalize(
            j(&format!(r#"{{"thinking": {{"type": "enabled", "budget_tokens": 1024}}, "tool_choice": {}, "messages": []}}"#, piece(&(choice.clone())))),
            "deepseek-v4-pro",
        );
        assert_eq!(at(&body, &["thinking", "type"]).as_str(), Some("enabled"), "tool_choice {choice:?} 不该牺牲思考");
        assert!(!rules.contains(&RULE_TOOL_CHOICE_DISABLES_THINKING.to_string()));
    }
}

#[test]
fn client_disabled_thinking_loses_effort_not_the_disable() {
    let (body, rules) = normalize(
        j(r#"{"thinking": {"type": "disabled"}, "output_config": {"effort": "medium", "keep": true}, "messages": []}"#),
        "deepseek-v4-pro",
    );
    assert_eq!((*at(&body, &["thinking"])), j(r#"{"type": "disabled"}"#));
    assert_eq!((*at(&body, &["output_config"])), j(r#"{"keep": true}"#));
    assert!(rules.contains(&RULE_THINKING_DISABLED_STRIPS_EFFORT.to_string()));
}

#[test]
fn assistant_tool_use_without_thinking_gets_placeholder() {
    let (body, rules) = normalize(
        j(r#"{"messages": [{"role": "assistant", "content": [{"type": "tool_use", "id": "t1", "name": "bash", "input": {}}]}, {"role": "user", "content": [{"type": "tool_result", "tool_use_id": "t1", "content": "ok"}]}]}"#),
        "deepseek-v4-pro",
    );
    assert_eq!(at(&body, &["messages", "0", "content", "0", "type"]).as_str(), Some("thinking"));
    assert_eq!(at(&body, &["messages", "0", "content", "1", "type"]).as_str(), Some("tool_use"));
    assert!(rules.contains(&RULE_TOOL_THINKING_HISTORY_REPLAY.to_string()));
}

#[test]
fn redacted_thinking_and_signature_are_normalized() {
    let (body, _) = normalize(
        j(r#"{"messages": [{"role": "assistant", "content": [{"type": "redacted_thinking", "data": "opaque"}, {"type": "tool_use", "id": "t1", "name": "bash", "input": {}}]}]}"#),
        "deepseek-v4-pro",
    );
    assert_eq!(at(&body, &["messages", "0", "content", "0", "type"]).as_str(), Some("thinking"));
    assert_eq!(at(&body, &["messages", "0", "content", "0", "thinking"]).as_str(), Some(REDACTED_THINKING_PLACEHOLDER));

    let (body, _) = normalize(
        j(r#"{"messages": [{"role": "assistant", "content": [{"type": "thinking", "thinking": "real reasoning", "signature": "sig"}, {"type": "tool_use", "id": "t1", "name": "bash", "input": {}}]}]}"#),
        "deepseek-v4-pro",
    );
    assert_eq!(at(&body, &["messages", "0", "content", "0", "thinking"]).as_str(), Some("real reasoning"));
    assert!(at(&body, &["messages", "0", "content", "0"]).get("signature").is_none());
}

#[test]
fn assistant_without_tool_use_keeps_history_untouched() {
    let original = j(r#"{"messages": [{"role": "assistant", "content": [{"type": "text", "text": "plain answer"}]}]}"#);
    let (body, rules) = normalize(original.clone(), "deepseek-v4-pro");
    assert_eq!((*at(&body, &["messages"])), (*at(&original, &["messages"])));
    assert!(rules.is_empty());
}

#[test]
fn malformed_search_result_without_tool_use_id_is_repaired() {
    let (body, rules) = normalize(
        j(r#"{"messages": [{"role": "assistant", "content": [{"type": "text", "text": "before"}, {"type": "web_search_tool_result", "content": [{"text": "found it"}]}, {"type": "web_search_tool_result", "content": []}]}]}"#),
        "deepseek-v4-pro",
    );
    let content = at(&body, &["messages", "0", "content"]).as_array().unwrap();
    assert_eq!(content.len(), 2);
    assert_eq!(content[1], j(r#"{"type": "text", "text": "found it"}"#));
    assert!(rules.contains(&RULE_MALFORMED_SERVER_TOOL_REPAIR.to_string()));
}

#[test]
fn well_formed_server_tool_blocks_are_preserved() {
    let history = j(r#"[{"type": "server_tool_use", "id": "s1", "name": "web_search", "input": {"query": "q"}}, {"type": "web_search_tool_result", "tool_use_id": "s1", "content": [{"text": "hit"}]}]"#);
    let (body, rules) = normalize(
        j(&format!(r#"{{"messages": [{{"role": "assistant", "content": {}}}]}}"#, piece(&(history.clone())))),
        "deepseek-v4-pro",
    );
    assert_eq!((*at(&body, &["messages", "0", "content"])), history);
    assert!(!rules.contains(&RULE_MALFORMED_SERVER_TOOL_REPAIR.to_string()));
}

#[test]
fn parallel_tool_use_shortfall_is_filled_by_count() {
    let (body, rules) = normalize(
        j(r#"{"messages": [{"role": "assistant", "content": [{"type": "tool_use", "id": "t1", "name": "bash", "input": {}}, {"type": "tool_use", "id": "t1", "name": "bash", "input": {}}, {"type": "tool_use", "id": "t2", "name": "bash", "input": {}}]}, {"role": "user", "content": [{"type": "tool_result", "tool_use_id": "t1", "content": "ok"}]}]}"#),
        "deepseek-v4-pro",
    );
    let results = at(&body, &["messages", "1", "content"]).as_array().unwrap();
    assert_eq!(results.len(), 3);
    assert_eq!(results
            .iter()
            .filter(|b| (*at(&b, &["is_error"])) == j(r#"true"#))
            .count(), 2);
    assert!(rules.contains(&RULE_ORPHAN_TOOL_PAIRING_REPAIR.to_string()));
}

#[test]
fn orphan_tool_result_becomes_text() {
    let (body, rules) = normalize(
        j(r#"{"messages": [{"role": "user", "content": [{"type": "tool_result", "tool_use_id": "gone", "content": "stale output"}]}]}"#),
        "deepseek-v4-pro",
    );
    assert_eq!((*at(&body, &["messages", "0", "content", "0"])), j(r#"{"type": "text", "text": "stale output"}"#));
    assert!(rules.contains(&RULE_ORPHAN_TOOL_PAIRING_REPAIR.to_string()));
}

#[test]
fn matched_tool_pairs_are_left_alone() {
    let original = j(r#"{"messages": [{"role": "assistant", "content": [{"type": "thinking", "thinking": "why"}, {"type": "tool_use", "id": "t1", "name": "bash", "input": {}}]}, {"role": "user", "content": [{"type": "tool_result", "tool_use_id": "t1", "content": "ok"}]}]}"#);
    let (body, rules) = normalize(original.clone(), "deepseek-v4-pro");
    assert_eq!((*at(&body, &["messages"])), (*at(&original, &["messages"])));
    assert!(!rules.contains(&RULE_ORPHAN_TOOL_PAIRING_REPAIR.to_string()));
}

#[test]
fn max_tokens_clamped_per_model() {
    let (body, _) = normalize(
        j(r#"{"max_tokens": 200000, "messages": []}"#),
        "deepseek-v4-pro",
    );
    assert_eq!(at(&body, &["max_tokens"]).as_u64(), Some(65_536));
    let (body, _) = normalize(
        j(r#"{"max_tokens": 200000, "messages": []}"#),
        "deepseek-v4-flash",
    );
    assert_eq!(at(&body, &["max_tokens"]).as_u64(), Some(32_768));
    let (body, _) = normalize(
        j(r#"{"max_tokens": 500, "messages": []}"#),
        "deepseek-v4-pro",
    );
    assert_eq!(at(&body, &["max_tokens"]).as_u64(), Some(500));
}
