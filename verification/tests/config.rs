use csswitch_gateway::config::{joined_endpoints, provider_supported, resolve_relay_thinking, upstream_url_for};
use csswitch_gateway::provider_contracts::EndpointJoin;

#[test]
fn provider_support_matrix_accepts_only_canonical_shims() {
    assert!(provider_supported("deepseek", "off"));
    assert!(!provider_supported("deepseek", "rewrite"));
    assert!(provider_supported("relay", "off"));
    assert!(!provider_supported("relay", "rewrite"));
    for retired in ["qwen", "openai-custom", "openai-responses", "codex"] {
        assert!(!provider_supported(retired, "off"), "{retired} 已退役");
    }
}

#[test]
fn thinking_policy_comes_from_the_contract_without_any_env() {
    // 回归:曾经只读 env,忘记注入就静默丢掉全部 thinking 补偿(上游 400)。
    assert_eq!(
        resolve_relay_thinking(None, "upstream_default"),
        Some("upstream_default".to_string())
    );
    assert_eq!(
        resolve_relay_thinking(Some("  "), "deepseek_native"),
        Some("deepseek_native".to_string())
    );
    assert_eq!(resolve_relay_thinking(None, ""), None);
}

#[test]
fn env_overrides_the_contract_thinking_policy() {
    assert_eq!(
        resolve_relay_thinking(Some("enabled"), "upstream_default"),
        Some("enabled".to_string())
    );
    assert_eq!(
        resolve_relay_thinking(Some("enabled"), ""),
        Some("enabled".to_string())
    );
}

#[test]
fn anthropic_endpoint_join_handles_bare_v1_and_full_message_urls() {
    assert_eq!(
        joined_endpoints(
            EndpointJoin::AnthropicV1,
            "anthropic_messages",
            "http://cpa.ga17.com"
        )
        .unwrap(),
        (
            "http://cpa.ga17.com/v1/messages".into(),
            Some("http://cpa.ga17.com/v1/models".into())
        )
    );
    assert_eq!(
        joined_endpoints(
            EndpointJoin::AnthropicV1,
            "anthropic_messages",
            "https://api.kimi.com/coding/v1/messages"
        )
        .unwrap(),
        (
            "https://api.kimi.com/coding/v1/messages".into(),
            Some("https://api.kimi.com/coding/v1/models".into())
        )
    );
    assert_eq!(
        joined_endpoints(
            EndpointJoin::AnthropicV1,
            "anthropic_messages",
            "https://api.kimi.com/coding/v1"
        )
        .unwrap(),
        (
            "https://api.kimi.com/coding/v1/messages".into(),
            Some("https://api.kimi.com/coding/v1/models".into())
        )
    );
    assert_eq!(
        joined_endpoints(
            EndpointJoin::AnthropicV1,
            "anthropic_messages",
            "https://relay.example.test/anthropic"
        )
        .unwrap(),
        (
            "https://relay.example.test/anthropic/v1/messages".into(),
            Some("https://relay.example.test/anthropic/v1/models".into())
        )
    );
}

#[test]
fn upstream_override_is_native_only() {
    let poison = Some("http://127.0.0.1:1/poison".to_string());
    assert_eq!(
        upstream_url_for(
            "deepseek",
            "https://default/deepseek".to_string(),
            poison.clone()
        ),
        "http://127.0.0.1:1/poison"
    );
    // relay 的上游由契约 + base_url 决定,环境变量不得越过它。
    assert_eq!(
        upstream_url_for("relay", "http://candidate/v1/messages".to_string(), poison),
        "http://candidate/v1/messages"
    );
}
