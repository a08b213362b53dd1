use csswitch_gateway::config::{GatewayConfig, GatewayIntent};
use csswitch_gateway::messages::{
    after_attempt, check_stream, error_read_limit, finish_models, finish_nonstream, get_headers, inference_timeouts,
    inference_timeouts_before, map_http_error, messages_post_url, models_timeout_secs, models_timeouts, next_read,
    operation_timeout, post_headers, redact_error_body, remaining, upstream_failure_metadata, AnthropicTransport, BodyRead,
    RetryStep, Timeouts, UpstreamError,
};
use csswitch_gateway::provider_contracts::{load_runtime_contract, AuthScheme};

/// A catalog with one contract for each channel.
const CATALOG: &str = r#"{
  "schema_version": 1,
  "contracts": [
    {
      "id": "deepseek-native",
      "template_ids": ["deepseek"],
      "api_formats": ["anthropic"],
      "adapter": "deepseek",
      "auth_mode": "api_key",
      "auth_scheme": "anthropic_x_api_key",
      "credential_sources": ["profile_api_key"],
      "default_credential_source": "profile_api_key",
      "model_policies": ["profile"],
      "default_model_policy": "profile",
      "model_discovery": "anthropic_models",
      "transport": "anthropic_messages",
      "endpoint_policy": "profile_required",
      "endpoint_join": "anthropic_v1",
      "api_key_env": "DEEPSEEK_KEY",
      "scratch_policy": "none",
      "thinking_policy": "deepseek_native",
      "timeouts": {"connect_ms": 10000, "total_ms": 30000, "read_idle_ms": 300000},
      "cache": {"normal_ttl_seconds": 300, "stale_ttl_seconds": 86400}
    },
    {
      "id": "kimi-anthropic-relay",
      "template_ids": ["kimi"],
      "api_formats": ["anthropic"],
      "adapter": "relay",
      "auth_mode": "api_key",
      "auth_scheme": "bearer",
      "credential_sources": ["profile_api_key"],
      "default_credential_source": "profile_api_key",
      "model_policies": ["profile"],
      "default_model_policy": "profile",
      "model_discovery": "anthropic_models",
      "transport": "anthropic_messages",
      "endpoint_policy": "profile_required",
      "endpoint_join": "anthropic_v1",
      "api_key_env": null,
      "scratch_policy": "none",
      "thinking_policy": "upstream_default",
      "upstream_client_version": "1.0",
      "timeouts": {"connect_ms": 10000, "total_ms": 30000, "read_idle_ms": 300000},
      "cache": {"normal_ttl_seconds": 300, "stale_ttl_seconds": 86400}
    }
  ]
}"#;

const SECOND: u128 = 1_000_000_000;

fn test_config(upstream_url: String) -> GatewayConfig {
    GatewayConfig {
        provider: "deepseek".to_string(),
        port: 0,
        auth_secret: None,
        api_key: Some("fake-key".to_string()),
        upstream_url,
        models_url: None,
        relay_thinking: None,
        provider_contract: None,
        intent: GatewayIntent::Formal,
        static_model_adapter: None,
        shim_mode: "off".to_string(),
        launch_id: "timeout-test".to_string(),
        web_search: false,
    }
}

fn headers(list: &[(&str, &str)]) -> Vec<(String, String)> {
    list.iter().map(|(name, value)| (name.to_string(), value.to_string())).collect()
}

/// A request as it is written out, in lower case.
fn request_text(cfg: &GatewayConfig, transport: &AnthropicTransport) -> String {
    let url = messages_post_url(cfg, Some(transport)).unwrap();
    let mut text = format!("post {}\r\n", url.split_once("9").unwrap().1);
    for (name, value) in post_headers(cfg, Some(transport)) {
        text.push_str(&format!("{name}: {value}\r\n"));
    }
    text.to_ascii_lowercase()
}

#[test]
fn expired_cumulative_inference_deadline_fails_before_network_io() {
    let cfg = test_config("http://127.0.0.1:9/v1/messages".into());
    let error = inference_timeouts_before(&cfg, 5 * SECOND, 5 * SECOND + 1_000_000).unwrap_err();
    assert_eq!(error.status, 504);
    assert_eq!(error.upstream_status, None);
    assert_eq!(error.detail, "upstream request exceeded the cumulative total timeout");
}

#[test]
fn inference_and_models_timeout_contracts_are_separate() {
    let inference = inference_timeouts(&test_config("http://127.0.0.1:9/v1/messages".into()));
    assert_eq!(inference.connect, 300 * SECOND);
    assert_eq!(inference.total, 300 * SECOND);
    assert_eq!(inference.read_idle, 300 * SECOND);

    // 独立启动的 models 超时对所有 provider 一致;托管启动由契约覆盖(见下)。
    assert_eq!(models_timeout_secs("deepseek"), 120);
    assert_eq!(models_timeout_secs("relay"), 120);

    let mut managed = test_config("http://127.0.0.1:9/v1/messages".into());
    managed.provider_contract = Some(load_runtime_contract(CATALOG, "deepseek", None, None).unwrap());
    assert_eq!(
        models_timeouts(&managed),
        Timeouts { connect: 10 * SECOND, total: 30 * SECOND, read_idle: 300 * SECOND }
    );
}

#[test]
fn anthropic_messages_url_keeps_only_one_safe_beta_query() {
    let original = "http://127.0.0.1:9/v1/messages?opaque=%2Fvalue&beta=false&beta=true";
    let transport = AnthropicTransport::from_inbound(
        "/local-secret/v1/messages?beta=true&nonce=local-nonce",
        &vec![],
    )
    .unwrap();
    let mut kimi = test_config(original.into());
    let mut contract = load_runtime_contract(CATALOG, "deepseek", None, None).unwrap();
    contract.contract_id = "kimi-anthropic-relay".into();
    kimi.provider_contract = Some(contract);
    assert_eq!(
        messages_post_url(&kimi, Some(&transport)).unwrap(),
        "http://127.0.0.1:9/v1/messages?opaque=%2Fvalue&beta=true"
    );

    let custom = test_config("http://127.0.0.1:9/v1/messages?beta=false".into());
    let no_beta = AnthropicTransport::from_inbound(
        "/local-secret/v1/messages?beta=false&nonce=local-nonce",
        &vec![],
    )
    .unwrap();
    assert_eq!(
        messages_post_url(&custom, Some(&no_beta)).unwrap(),
        "http://127.0.0.1:9/v1/messages"
    );
}

#[test]
fn generic_anthropic_loopback_forwards_allowlist_and_rebuilds_sensitive_transport() {
    let inbound = headers(&[
        ("anthropic-version", "2024-01-01"),
        ("anthropic-beta", "incoming-a,incoming-b"),
        ("x-app", "science"),
        ("user-agent", "Atlas-Science/1.2"),
        ("authorization", "Bearer client-auth-secret"),
        ("x-api-key", "client-api-secret"),
        ("cookie", "client-cookie-secret"),
        ("host", "local-host-secret"),
        ("content-length", "999"),
        ("connection", "x-hop-secret"),
        ("x-hop-secret", "client-hop-secret"),
        ("keep-alive", "local-keepalive-secret"),
        ("proxy-authorization", "local-proxy-auth-secret"),
        ("transfer-encoding", "chunked"),
        ("x-local-nonce", "local-header-nonce"),
        ("x-path-secret", "local-header-path-secret"),
    ]);
    let transport = AnthropicTransport::from_inbound(
        "/local-path-secret/v1/messages?beta=true&beta=false&nonce=local-query-nonce",
        &inbound,
    )
    .unwrap();
    let cfg = test_config("http://127.0.0.1:9/v1/messages?trusted=%2Fvalue&beta=false".to_string());
    let request = request_text(&cfg, &transport);
    assert!(request.starts_with("post /v1/messages?trusted=%2fvalue&beta=true\r\n"));
    assert_eq!(request.matches("beta=true").count(), 1);
    assert!(request.contains("anthropic-version: 2024-01-01\r\n"));
    assert!(request.contains("anthropic-beta: incoming-a,incoming-b\r\n"));
    assert!(request.contains("x-app: science\r\n"));
    assert!(request.contains("user-agent: atlas-science/1.2\r\n"));
    assert!(request.contains("x-api-key: fake-key\r\n"));
    for forbidden in [
        "client-auth-secret",
        "client-api-secret",
        "client-cookie-secret",
        "local-host-secret",
        "client-hop-secret",
        "local-keepalive-secret",
        "local-proxy-auth-secret",
        "local-header-nonce",
        "local-header-path-secret",
        "local-path-secret",
        "local-query-nonce",
    ] {
        assert!(!request.contains(forbidden), "leaked {forbidden}");
    }
}

#[test]
fn connection_nominated_anthropic_header_is_not_forwardable() {
    let transport = AnthropicTransport::from_inbound(
        "/v1/messages",
        &headers(&[("connection", "keep-alive, anthropic-beta"), ("anthropic-beta", "must-not-forward")]),
    )
    .unwrap();
    assert!(transport.anthropic_beta.is_none());
}

#[test]
fn kimi_anthropic_loopback_forwards_science_identity_without_injecting_anything() {
    let transport = AnthropicTransport::from_inbound(
        "/v1/messages",
        &headers(&[
            ("anthropic-beta", "incoming-a,incoming-b"),
            ("x-app", "science"),
            ("user-agent", "Atlas-Science/1.2"),
        ]),
    )
    .unwrap();
    let mut cfg = test_config("http://127.0.0.1:9/v1/messages".to_string());
    cfg.provider = "relay".into();
    let mut contract = load_runtime_contract(CATALOG, "deepseek", None, None).unwrap();
    contract.contract_id = "kimi-anthropic-relay".into();
    contract.auth_scheme = AuthScheme::Bearer;
    cfg.provider_contract = Some(contract);
    let request = request_text(&cfg, &transport);
    assert!(request.starts_with("post /v1/messages\r\n"));
    assert!(!request.contains("beta=true"));
    assert!(request.contains("anthropic-beta: incoming-a,incoming-b\r\n"));
    assert!(request.contains("user-agent: atlas-science/1.2\r\n"));
    assert!(request.contains("x-app: science\r\n"));
    assert!(request.contains("authorization: bearer fake-key\r\n"));
    assert!(!request.contains("x-api-key:"));
}

#[test]
fn inference_redirect_is_not_followed_or_reposted() {
    let error = finish_nonstream(307, None, BodyRead::Bytes(vec![]), "fake-key").unwrap_err();
    assert_eq!(error.status, 502);
    assert_eq!(error.upstream_status, Some(307));
}

#[test]
fn finite_body_read_obeys_the_remaining_cumulative_deadline() {
    let total = 120_000_000;
    assert_eq!(remaining(total, 70_000_000), Some(50_000_000));
    assert_eq!(remaining(total, total + 1), None);
    let error = finish_nonstream(200, None, BodyRead::Deadline, "k").unwrap_err();
    assert_eq!(error.status, 502);
    assert_eq!(error.detail, "upstream response exceeded the total timeout");
}

#[test]
fn json_error_strings_redact_generic_tokens_without_truncation() {
    let safe = redact_error_body(
        &br#"{"error":{"message":"Bearer other-bearer and sk-other-key and configured-key","detail":"ok"}}"#.to_vec(),
        "configured-key",
    );
    assert!(!safe.contains("other-bearer"));
    assert!(!safe.contains("other-key"));
    assert!(!safe.contains("configured-key"));
    assert!(safe.contains("Bearer [REDACTED]"));
    assert!(safe.contains("sk-[REDACTED]"));
}

#[test]
fn stream_requires_sse_content_type_before_success() {
    let error = check_stream(200, Some("application/json")).unwrap();
    assert_eq!(error.status, 502);
    assert_eq!(error.upstream_status, Some(200));
    assert!(error.detail.contains("non-SSE"));
    assert!(check_stream(200, Some("Text/Event-Stream; charset=utf-8")).is_none());
}

#[test]
fn upstream_http_status_is_preserved_and_error_body_is_bounded_and_redacted() {
    let key = "fake-key";
    let body = format!(
        "{{\"error\":{{\"message\":\"Bearer other-secret and sk-other-secret and Bearer {key}\",\"api_key\":\"{key}\",\"padding\":\"{}\"}}}}",
        "x".repeat(20_000)
    );
    let mut read = body.into_bytes();
    read.truncate(error_read_limit() as usize);
    let error = finish_nonstream(405, Some("application/json".into()), BodyRead::Bytes(read), key).unwrap_err();
    assert_eq!(error.status, 405);
    assert_eq!(error.upstream_status, Some(405));
    assert!(!error.detail.contains(key));
    assert!(!error.detail.contains("other-secret"));
    assert!(error.detail.len() < 17_000);
    assert!(error.detail.contains("truncated"));
    let metadata = upstream_failure_metadata("post_nonstream", &error, false);
    assert!(!metadata.contains(key));
    assert!(!metadata.contains("other-secret"));
    assert!(!metadata.contains("padding"));
    assert!(!metadata.contains("detail"));
    assert!(metadata.contains("upstream_status=Some(405)"));
}

#[test]
fn upstream_failure_metadata_omits_transport_detail_with_url() {
    let metadata = upstream_failure_metadata(
        "open_stream",
        &UpstreamError {
            status: 502,
            upstream_status: None,
            detail: "request failed for https://private.invalid/path?token=must-not-leak".into(),
        },
        false,
    );
    assert!(!metadata.contains("private.invalid"));
    assert!(!metadata.contains("must-not-leak"));
    assert!(!metadata.contains("detail"));
    assert!(metadata.contains("upstream_status=None"));
}

#[test]
fn answers_of_the_upstream_come_to_their_failures() {
    let ok = finish_nonstream(200, None, BodyRead::Bytes(vec![1]), "k").unwrap();
    assert_eq!((ok.status, ok.content_type.as_str(), ok.body.as_slice()), (200, "application/json", &[1][..]));
    let fault = finish_models(200, None, BodyRead::Fault("reset".into()), "k").unwrap_err();
    assert_eq!(fault.detail, "upstream response body read failed: reset");
    assert_eq!(fault.upstream_status, None);
    let late = finish_models(200, None, BodyRead::Deadline, "k").unwrap_err();
    assert_eq!(late.detail, "upstream models response exceeded the total timeout");
    assert_eq!(map_http_error(500, &BodyRead::Deadline, "k").detail, "upstream 500: upstream error body exceeded the total timeout");
    assert_eq!(map_http_error(302, &BodyRead::Bytes(vec![]), "k").status, 502);
    assert_eq!(map_http_error(302, &BodyRead::Bytes(vec![]), "k").detail, "upstream 302");
    assert_eq!(map_http_error(418, &BodyRead::Fault("x".into()), "k").detail, "upstream 418: upstream error body could not be read");
}

#[test]
fn model_lists_are_asked_for_again_after_a_failure() {
    let failed = || Err(UpstreamError { status: 502, upstream_status: None, detail: "x".into() });
    assert!(matches!(after_attempt(1, failed()), RetryStep::Retry { delay_ms: 800 }));
    assert!(matches!(after_attempt(2, failed()), RetryStep::Retry { delay_ms: 1600 }));
    assert!(matches!(after_attempt(3, failed()), RetryStep::Done(Err(_))));
    let answered = Err(UpstreamError { status: 401, upstream_status: Some(401), detail: "x".into() });
    assert!(matches!(after_attempt(1, answered), RetryStep::Done(Err(_))));
}

#[test]
fn timeouts_leave_what_is_left() {
    let timeouts = Timeouts { connect: 1, total: 5, read_idle: 3 };
    assert_eq!(operation_timeout(timeouts, true), 3);
    assert_eq!(operation_timeout(timeouts, false), 3);
    let shared = inference_timeouts_before(&test_config("http://x".into()), 10 * SECOND, 4 * SECOND).unwrap();
    assert_eq!(shared.total, 6 * SECOND);
    assert!(next_read(Some(3), 1) <= 3);
}

#[test]
fn credentials_follow_the_contract() {
    let mut cfg = test_config("http://127.0.0.1:9/v1/messages".into());
    assert!(get_headers(&cfg).contains(&("x-api-key".to_string(), "fake-key".to_string())));
    cfg.provider_contract = Some(load_runtime_contract(CATALOG, "relay", None, None).unwrap());
    assert!(get_headers(&cfg).contains(&("authorization".to_string(), "Bearer fake-key".to_string())));
    let mut contract = load_runtime_contract(CATALOG, "relay", None, None).unwrap();
    contract.auth_scheme = AuthScheme::AnthropicDual;
    cfg.provider_contract = Some(contract);
    let dual = get_headers(&cfg);
    assert!(dual.iter().any(|(name, _)| name == "x-api-key"));
    assert!(dual.iter().any(|(name, _)| name == "authorization"));
}
