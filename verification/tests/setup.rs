use csswitch_gateway::config::{canonical_shim_mode, normalize_anthropic_v1_base, GatewayConfig, GatewayIntent};
use csswitch_gateway::profile::{config_dir, config_path, Mode, Profile};
use csswitch_gateway::provider_contracts::{catalog_digest, parse_catalog};

/// A catalog with one contract for each channel.
const CATALOG: &str = r#"{
  "schema_version": 1,
  "contracts": [
    {
      "id": "deepseek-native",
      "template_ids": ["deepseek"],
      "api_formats": ["anthropic"],
      "adapter": "deepseek",
      "auth_mode": "api_key",
      "auth_scheme": "anthropic_x_api_key",
      "credential_sources": ["profile_api_key"],
      "default_credential_source": "profile_api_key",
      "model_policies": ["profile"],
      "default_model_policy": "profile",
      "model_discovery": "anthropic_models",
      "transport": "anthropic_messages",
      "endpoint_policy": "profile_required",
      "endpoint_join": "anthropic_v1",
      "api_key_env": "DEEPSEEK_KEY",
      "scratch_policy": "none",
      "thinking_policy": "deepseek_native",
      "timeouts": {"connect_ms": 10000, "total_ms": 30000, "read_idle_ms": 300000},
      "cache": {"normal_ttl_seconds": 300, "stale_ttl_seconds": 86400}
    },
    {
      "id": "kimi-anthropic-relay",
      "template_ids": ["kimi"],
      "api_formats": ["anthropic"],
      "adapter": "relay",
      "auth_mode": "api_key",
      "auth_scheme": "bearer",
      "credential_sources": ["profile_api_key"],
      "default_credential_source": "profile_api_key",
      "model_policies": ["profile"],
      "default_model_policy": "profile",
      "model_discovery": "anthropic_models",
      "transport": "anthropic_messages",
      "endpoint_policy": "profile_required",
      "endpoint_join": "anthropic_v1",
      "api_key_env": "CSSWITCH_RELAY_KEY",
      "scratch_policy": "none",
      "thinking_policy": "upstream_default",
      "upstream_client_version": "1.0",
      "timeouts": {"connect_ms": 10000, "total_ms": 30000, "read_idle_ms": 300000},
      "cache": {"normal_ttl_seconds": 300, "stale_ttl_seconds": 86400}
    }
  ]
}"#;

fn args(list: &[&str]) -> Vec<String> {
    list.iter().map(|word| word.to_string()).collect()
}

fn env(list: &[(&str, &str)]) -> Vec<(String, String)> {
    list.iter().map(|(key, value)| (key.to_string(), value.to_string())).collect()
}

fn relay() -> Result<String, String> {
    Ok("relay".to_string())
}

const RELAY: &[(&str, &str)] = &[
    ("CSSWITCH_RELAY_KEY", "k"),
    ("CSSWITCH_RELAY_BASE_URL", "https://relay.test/v1/"),
    ("CSSWITCH_STATIC_MODEL_CATALOG_V1", "{}"),
];

#[test]
fn arguments_are_read_strictly() {
    let fault = |list: &[&str]| GatewayConfig::from_env_args(&args(list), &env(&[]), CATALOG, relay()).unwrap_err();
    assert!(fault(&["gw", "--provider", "codex"]).contains("provider=codex, shim=off"));
    assert!(fault(&["gw", "--what"]).contains("--what"));
}

#[test]
fn a_bad_catalog_is_refused() {
    assert!(parse_catalog("{}").is_err());
    assert!(parse_catalog("not json").is_err());
    assert_eq!(parse_catalog(CATALOG).unwrap().len(), 2);
    let twice = CATALOG.replacen("\"schema_version\"", "\"schema_version\": 1, \"schema_version\"", 1);
    assert_ne!(twice, CATALOG);
    assert!(parse_catalog(&twice).is_err());
    assert_eq!(catalog_digest(CATALOG).len(), 64);
}

#[test]
fn channels_are_set_up_from_the_profile() {
    let mut profile = Profile::default();
    assert!(GatewayConfig::for_channel(&profile, CATALOG, true).is_err());
    profile.mode = Mode::Kimi;
    profile.kimi.api_key = " key ".to_string();
    let config = GatewayConfig::for_channel(&profile, CATALOG, false).unwrap();
    assert_eq!(config.provider, "relay");
    assert_eq!(config.upstream_url, "https://api.kimi.com/coding/v1/messages");
    assert_eq!(config.relay_thinking.as_deref(), Some("upstream_default"));
    assert!(!config.web_search);
}

#[test]
fn intents_have_names() {
    assert_eq!(GatewayIntent::from_value(None).unwrap(), GatewayIntent::Formal);
    assert_eq!(GatewayIntent::from_value(Some("scratch-models")).unwrap(), GatewayIntent::ScratchModels);
    assert!(GatewayIntent::from_value(Some("other")).is_err());
    assert_eq!(GatewayIntent::ScratchMessage.as_str(), "scratch-message");
    assert_eq!(canonical_shim_mode("relay", Some("on")), "off");
}

#[test]
fn bases_lead_to_one_root() {
    for base in ["https://a.test", "https://a.test/", "https://a.test/v1", "https://a.test/v1/messages", "https://a.test/v1/models"] {
        assert_eq!(normalize_anthropic_v1_base(base), "https://a.test/v1");
    }
}

#[test]
fn settings_lie_below_the_home() {
    assert_eq!(config_dir("/h"), "/h/.csswitch");
    assert_eq!(config_path("/h"), "/h/.csswitch/service.v1.json");
    let mut profile = Profile::default();
    profile.channel_mut(&Mode::Deepseek).unwrap().api_key = "x".to_string();
    assert_eq!(profile.deepseek.api_key, "x");
    assert_eq!(profile.kimi.api_key, "");
    assert!(profile.channel_mut(&Mode::Official).is_none());
    let slots = profile.kimi.resolved_slots();
    assert_eq!(slots.len(), 4);
    assert_eq!(slots[3], profile.kimi.default_model);
}

#[test]
fn a_relay_is_set_up_from_the_environment() {
    let line = ["gw", "--provider", "relay", "--port", "9000"];
    let config = GatewayConfig::from_env_args(&args(&line), &env(RELAY), CATALOG, relay()).unwrap();
    assert_eq!(config.port, 9000);
    assert_eq!(config.upstream_url, "https://relay.test/v1/messages");
    assert_eq!(config.models_url.as_deref(), Some("https://relay.test/v1/models"));
    assert_eq!(config.static_model_adapter.as_deref(), Some("relay"));
    assert_eq!(config.intent, GatewayIntent::Formal);
    let other = GatewayConfig::from_env_args(&args(&line), &env(RELAY), CATALOG, Ok("deepseek".to_string()));
    assert_eq!(other.unwrap_err(), "静态模型目录 adapter 与 gateway provider 不一致");
    let unreadable = GatewayConfig::from_env_args(&args(&line), &env(RELAY), CATALOG, Err("broken".to_string()));
    assert_eq!(unreadable.unwrap_err(), "broken");
    let portless = GatewayConfig::from_env_args(&args(&line[..3]), &env(RELAY), CATALOG, relay());
    assert_eq!(portless.unwrap_err(), "--port 必填");
}
