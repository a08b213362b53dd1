//! Request policy of the native DeepSeek endpoint.
use crate::anthropic_compat::{
    apply_anthropic_server_tool_policy, forces_a_tool, needs_messages, type_only, typed_object, under_policy,
    AnthropicServerToolPolicy,
};
use crate::deepseek_compat::clamped;
use crate::json::{Json, JsonV, NumberV};
use crate::json_model::{group_json_views, rendered};
use crate::text::{group_texts, texts};
use vstd::prelude::*;
use vstd::utf8::encode_utf8;

verus! {

broadcast use {group_json_views, group_texts};

#[derive(Debug, Clone, PartialEq, Eq)]
pub struct DeepSeekMetadata {
    pub target_model: String,
    pub rule_ids: Vec<String>,
    pub dropped_server_tools: usize,
}

/// Caps a token limit at what the model takes.
pub fn clamp_max_tokens(value: Option<u64>, model: &str) -> (limit: Option<u64>)
    ensures
        limit == (match value {
            Some(v) => Some(clamped(v, model@)),
            None => None,
        }),
{
    crate::deepseek_compat::clamp_max_tokens(value, model)
}

/// A body with thinking off where a tool must be called.
pub open spec fn calmed(body: JsonV) -> JsonV {
    if forces_a_tool(body) {
        body.with("thinking"@, type_only("disabled"@))
    } else {
        body
    }
}

/// Turns thinking off where a tool must be called.
pub fn normalize_thinking(body: &mut Json)
    ensures
        final(body)@ == calmed(old(body)@),
{
    let forcing = match body.get("tool_choice") {
        Some(choice) => choice.has_text("type", "any") || choice.has_text("type", "tool"),
        None => false,
    };
    if forcing {
        body.set("thinking", typed_object("disabled"));
    }
}

/// A body with the target model and its token limit.
pub open spec fn targeted(body: JsonV, model: Seq<char>) -> JsonV {
    let named = body.with("model"@, JsonV::Str(model));
    match named.unsigned_at("max_tokens"@) {
        Some(v) => named.with("max_tokens"@, JsonV::Number(NumberV::PosInt(clamped(v, model)))),
        None => named,
    }
}

/// A request as the native endpoint gets it: the body, the number of server tools that went, and
/// the rules; `None` where the body holds no messages.
pub open spec fn deepseek_request(body: JsonV, model: Seq<char>) -> Option<(JsonV, usize, Seq<Seq<char>>)> {
    if body.items_at("messages"@) is None {
        None
    } else {
        let (sifted, dropped, rules) = under_policy(
            targeted(body, model),
            AnthropicServerToolPolicy::DeepSeek,
            Seq::empty(),
        );
        Some((calmed(sifted), dropped, rules))
    }
}

/// The bytes of a request for the native endpoint.
pub fn transform_request(body: Json, target_model: &str) -> (out: Result<Vec<u8>, String>)
    ensures
        match (out, deepseek_request(body@, target_model@)) {
            (Ok(bytes), Some((tree, _, _))) => bytes@ == encode_utf8(rendered(tree)),
            (Err(e), None) => e@ == needs_messages(),
            _ => false,
        },
{
    match transform_request_with_metadata(body, target_model) {
        Ok((bytes, _)) => Ok(bytes),
        Err(e) => Err(e),
    }
}

/// The bytes of a request for the native endpoint, and what was done to it.
pub fn transform_request_with_metadata(body: Json, target_model: &str) -> (out: Result<
    (Vec<u8>, DeepSeekMetadata),
    String,
>)
    ensures
        match (out, deepseek_request(body@, target_model@)) {
            (Ok((bytes, metadata)), Some((tree, dropped, rules))) => {
                &&& bytes@ == encode_utf8(rendered(tree))
                &&& metadata.target_model@ == target_model@
                &&& metadata.dropped_server_tools == dropped
                &&& texts(metadata.rule_ids@) == rules
            },
            (Err(e), None) => e@ == needs_messages(),
            _ => false,
        },
{
    let mut body = body;
    if body.array_at("messages").is_none() {
        return Err("request body must be a JSON object with a 'messages' array".to_owned());
    }
    body.set("model", Json::text(target_model));
    if let Some(max_tokens) = body.u64_at("max_tokens") {
        if let Some(limit) = clamp_max_tokens(Some(max_tokens), target_model) {
            body.set("max_tokens", Json::unsigned(limit));
        }
    }
    let mut rule_ids: Vec<String> = Vec::new();
    let dropped_server_tools = apply_anthropic_server_tool_policy(
        &mut body,
        AnthropicServerToolPolicy::DeepSeek,
        &mut rule_ids,
    );
    normalize_thinking(&mut body);
    let text = body.render();
    Ok(
        (
            text.as_str().as_bytes_vec(),
            DeepSeekMetadata { target_model: target_model.to_owned(), rule_ids, dropped_server_tools },
        ),
    )
}

} // verus!
