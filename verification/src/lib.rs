//! Verified logic of a local gateway that sits between an Anthropic-style client and a set of
//! third-party model providers.
pub mod anthropic_compat;
pub mod anthropic_compat_laws;
pub mod bridge_laws;
pub mod canonical_json;
pub mod catalog_laws;
pub mod client;
pub mod config;
pub mod continuity_laws;
pub mod control;
pub mod control_laws;
pub mod crypto;
pub mod debug_capture;
pub mod deepseek_compat;
pub mod deepseek_compat_laws;
pub mod deepseek_kept_laws;
pub mod deepseek_normal_laws;
pub mod deepseek_setting_laws;
pub mod history_laws;
pub mod json;
pub mod json_fields;
pub mod json_model;
pub mod kimi_adapter_laws;
pub mod kimi_coding_search;
pub mod kimi_coding_search_laws;
pub mod kimi_search_noise;
pub mod kimi_search_noise_agreement;
pub mod kimi_search_noise_counts;
pub mod kimi_search_noise_laws;
pub mod kimi_search_noise_streams;
pub mod kimi_web_search_adapter;
pub mod launch;
pub mod messages;
pub mod messages_laws;
pub mod official_passthrough;
pub mod official_passthrough_laws;
pub mod openai_responses;
pub mod outcome_laws;
pub mod paths;
pub mod policy;
pub mod profile;
pub mod provider_contracts;
pub mod reasoning_rollback;
pub mod reasoning_state;
pub mod reasoning_state_laws;
pub mod relay_history_laws;
pub mod relay_message_laws;
pub mod relay_request_laws;
pub mod responses_laws;
pub mod sandbox;
pub mod sandbox_laws;
pub mod schema_rule_laws;
pub mod search_laws;
pub mod setting_laws;
pub mod sse;
pub mod text;
pub mod text_laws;
pub mod timestamp;
pub mod timestamp_laws;
pub mod tool_schema;
pub mod tool_schema_bounds;
pub mod tool_schema_laws;
pub mod traffic_laws;
pub mod upstream_url;
pub mod wire;
pub mod wire_laws;

pub use timestamp::format_utc_timestamp_ms;
