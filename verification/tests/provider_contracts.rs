use csswitch_gateway::provider_contracts::{catalog_digest, load_runtime_contract, AuthScheme, EndpointJoin};

/// A catalog with one contract for each channel.
const CATALOG: &str = r#"{
  "schema_version": 1,
  "contracts": [
    {
      "id": "deepseek-native",
      "template_ids": ["deepseek"],
      "api_formats": ["anthropic"],
      "adapter": "deepseek",
      "auth_mode": "api_key",
      "auth_scheme": "anthropic_x_api_key",
      "credential_sources": ["profile_api_key"],
      "default_credential_source": "profile_api_key",
      "model_policies": ["profile"],
      "default_model_policy": "profile",
      "model_discovery": "anthropic_models",
      "transport": "anthropic_messages",
      "endpoint_policy": "profile_required",
      "endpoint_join": "anthropic_v1",
      "api_key_env": "DEEPSEEK_KEY",
      "scratch_policy": "none",
      "thinking_policy": "deepseek_native",
      "timeouts": {"connect_ms": 10000, "total_ms": 30000, "read_idle_ms": 300000},
      "cache": {"normal_ttl_seconds": 300, "stale_ttl_seconds": 86400}
    },
    {
      "id": "kimi-anthropic-relay",
      "template_ids": ["kimi"],
      "api_formats": ["anthropic"],
      "adapter": "relay",
      "auth_mode": "api_key",
      "auth_scheme": "bearer",
      "credential_sources": ["profile_api_key"],
      "default_credential_source": "profile_api_key",
      "model_policies": ["profile"],
      "default_model_policy": "profile",
      "model_discovery": "anthropic_models",
      "transport": "anthropic_messages",
      "endpoint_policy": "profile_required",
      "endpoint_join": "anthropic_v1",
      "api_key_env": null,
      "scratch_policy": "none",
      "thinking_policy": "upstream_default",
      "upstream_client_version": "1.0",
      "timeouts": {"connect_ms": 10000, "total_ms": 30000, "read_idle_ms": 300000},
      "cache": {"normal_ttl_seconds": 300, "stale_ttl_seconds": 86400}
    }
  ]
}"#;

#[test]
fn managed_identity_selects_exact_non_codex_contract_and_rejects_cross_adapter_ids() {
    let digest = catalog_digest(CATALOG);
    let deepseek =
        load_runtime_contract(CATALOG, "deepseek", Some("deepseek-native"), Some(&digest)).unwrap();
    assert_eq!(deepseek.auth_scheme, AuthScheme::AnthropicXApiKey);
    assert_eq!(deepseek.endpoint_policy, "profile_required");
    assert_eq!(deepseek.endpoint_join, EndpointJoin::AnthropicV1);

    let kimi =
        load_runtime_contract(CATALOG, "relay", Some("kimi-anthropic-relay"), Some(&digest)).unwrap();
    assert_eq!(kimi.contract_id, "kimi-anthropic-relay");
    assert_eq!(kimi.auth_scheme, AuthScheme::Bearer);
    assert_eq!(kimi.endpoint_join, EndpointJoin::AnthropicV1);
    assert_eq!(kimi.transport, "anthropic_messages");

    // 已退役的渠道 id 必须找不到,而不是悄悄落到某个现存 contract 上。
    for retired in [
        "opencode-go-anthropic",
        "gemini-openai-chat",
        "codex-oauth",
        "qwen-native",
        "anthropic-relay",
    ] {
        assert!(
            load_runtime_contract(CATALOG, "relay", Some(retired), Some(&digest)).is_err(),
            "{retired} 已退役,不该还能加载"
        );
    }

    assert!(load_runtime_contract(
            CATALOG,
        "openai-custom",
        Some("kimi-anthropic-relay"),
        Some(&digest),
    )
    .is_err());
    assert!(load_runtime_contract(CATALOG, "relay", Some("kimi-anthropic-relay"), None).is_err());
    assert!(load_runtime_contract(
            CATALOG,
        "relay",
        Some("kimi-anthropic-relay"),
        Some(&"0".repeat(64)),
    )
    .is_err());
}
