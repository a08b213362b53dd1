//! Request transformation for upstreams that speak the Anthropic protocol.
use crate::deepseek_compat::{append_rule, block_ids, normalize_request, normalized, with_rule, with_rule_if};
use crate::json::{Json, JsonV, NumberV};
use crate::json_model::{group_json_views, list_view, typed_block, with_same_value};
use crate::text::{
    all_digits, between_words, blank, bump, bumped, byte_len, concat, contains, contains_text, decimal, digits_only, group_texts,
    has_part, id_set, id_set_empty, id_set_push, is_blank, join, joined, lowered, number_text, opt_text, pieces, same, split_words, starts_with, text_of, texts, to_lower,
};
use vstd::prelude::*;
use vstd::utf8::encode_utf8;

verus! {

broadcast use {group_json_views, group_texts};

pub const RULE_TOOL_RELAY_INPUT_SCHEMA_NORMALIZE: &'static str = "tool.relay.input-schema-normalize";

pub const RULE_TOOL_KIMI_UNSUPPORTED_SERVER_TOOL_FILTER: &'static str = "tool.kimi.unsupported-server-tool-filter";

pub const RULE_TOOL_KIMI_WEB_SEARCH_SERVER_TOOL_PRESERVE: &'static str = "tool.kimi.web_search.server-tool-preserve";

pub const RULE_TOOL_DEEPSEEK_WEB_SEARCH_SERVER_TOOL_PRESERVE: &'static str = "tool.deepseek.web_search.server-tool-preserve";

pub const RULE_TOOL_DEEPSEEK_UNSUPPORTED_SERVER_TOOL_FILTER: &'static str = "tool.deepseek.unsupported-server-tool-filter";

pub const RULE_TOOL_UNKNOWN_SERVER_TOOL_PRESERVE: &'static str = "tool.anthropic.unknown-server-tool-preserve";

pub const RULE_PROVIDER_KIMI_THINKING_UPSTREAM_DEFAULT: &'static str = "provider.kimi.thinking-upstream-default";

pub const RULE_PROVIDER_KIMI_SPECIFIED_TOOL_CHOICE_DISABLES_THINKING: &'static str =
    "provider.kimi.specified-tool-choice-disables-thinking";

pub const RULE_PROVIDER_KIMI_WEB_SEARCH_RESULT_PAIRING_REPAIR: &'static str =
    "provider.kimi.web-search-result-pairing-repair";

pub const RULE_PROVIDER_KIMI_DOCUMENT_PLACEHOLDER: &'static str = "provider.kimi.document-block-placeholder";

pub const RULE_PROVIDER_KIMI_SCIENCE_CONTEXT_TAIL_REORDER: &'static str = "provider.kimi.science-context-tail-reorder";

pub const MAX_RELAY_HISTORY_BLOCKS: usize = 1024;

pub const MAX_TOOL_ID_BYTES: usize = 256;

/// Provider contracts that need compensations of their own.
#[derive(Debug, Clone, Copy, PartialEq, Eq, Structural)]
pub enum RelayFlavor {
    Generic,
    Kimi,
    DeepSeek,
}

impl Default for RelayFlavor {
    fn default() -> (flavor: RelayFlavor)
        ensures
            flavor == RelayFlavor::Generic,
    {
        RelayFlavor::Generic
    }
}

#[derive(Debug, Clone, PartialEq, Eq)]
pub struct AnthropicMetadata {
    pub target_model: String,
    pub rule_ids: Vec<String>,
    pub flavor: RelayFlavor,
    pub dropped_server_tools: usize,
}

#[derive(Debug, Clone, Copy, PartialEq, Eq, Structural)]
pub enum AnthropicServerToolPolicy {
    Kimi,
    DeepSeek,
}

#[derive(Debug, Clone, Copy, PartialEq, Eq, Structural)]
pub enum AnthropicServerToolKind {
    WebSearch,
    Unsupported,
    Unknown,
}

/// Outcome of the server-tool policy pass.
#[derive(Debug, Clone, Copy, PartialEq, Eq, Structural)]
pub struct ServerToolOutcome {
    pub dropped: usize,
}

impl Default for ServerToolOutcome {
    fn default() -> (outcome: ServerToolOutcome)
        ensures
            outcome.dropped == 0,
    {
        ServerToolOutcome { dropped: 0 }
    }
}

/// The contract decides; without one, the model's name does.
pub open spec fn flavor_of(contract: Option<Seq<char>>, model: Seq<char>) -> RelayFlavor {
    match contract {
        Some(id) => if id == "kimi-anthropic-relay"@ {
            RelayFlavor::Kimi
        } else if id == "deepseek-native"@ {
            RelayFlavor::DeepSeek
        } else {
            RelayFlavor::Generic
        },
        None => if has_part(lowered(model), "kimi"@) {
            RelayFlavor::Kimi
        } else if has_part(lowered(model), "deepseek"@) {
            RelayFlavor::DeepSeek
        } else {
            RelayFlavor::Generic
        },
    }
}

impl RelayFlavor {
    /// The flavor of a provider contract, or of a model's name where no contract is bound.
    pub fn detect(provider_contract_id: Option<&str>, target_model: &str) -> (flavor: RelayFlavor)
        ensures
            flavor == flavor_of(opt_text(provider_contract_id), target_model@),
    {
        match provider_contract_id {
            Some(id) => if same(id, "kimi-anthropic-relay") {
                RelayFlavor::Kimi
            } else if same(id, "deepseek-native") {
                RelayFlavor::DeepSeek
            } else {
                RelayFlavor::Generic
            },
            None => {
                let name = to_lower(target_model);
                if contains(name.as_str(), "kimi") {
                    RelayFlavor::Kimi
                } else if contains(name.as_str(), "deepseek") {
                    RelayFlavor::DeepSeek
                } else {
                    RelayFlavor::Generic
                }
            },
        }
    }
}

/// The thinking budget under a token limit: one less than the limit, at most 1024, at least 1.
pub open spec fn thinking_budget(max_tokens: Option<u64>) -> u64 {
    match max_tokens {
        Some(v) => if v == 0 || v > 1024 {
            1024
        } else if v == 1 {
            1
        } else {
            (v - 1) as u64
        },
        None => 1024,
    }
}

fn enabled_budget(max_tokens: Option<u64>) -> (budget: u64)
    ensures
        budget == thinking_budget(max_tokens),
{
    match max_tokens {
        Some(v) => if v == 0 || v > 1024 {
            1024
        } else if v == 1 {
            1
        } else {
            v - 1
        },
        None => 1024,
    }
}

/// The type under a key that holds an object.
pub open spec fn type_at(body: JsonV, key: Seq<char>) -> Option<Seq<char>> {
    match body.get(key) {
        Some(value) => value.text_at("type"@),
        None => None,
    }
}

fn has_type_at(body: &Json, key: &str, kind: &str) -> (yes: bool)
    ensures
        yes == (type_at(body@, key@) == Some(kind@)),
{
    match body.get(key) {
        Some(value) => value.has_text("type", kind),
        None => false,
    }
}

/// Whether a tool must be called, one of several or a named one.
pub open spec fn forces_a_tool(body: JsonV) -> bool {
    type_at(body, "tool_choice"@) == Some("any"@) || type_at(body, "tool_choice"@) == Some("tool"@)
}

fn is_forced_tool_choice(body: &Json) -> (yes: bool)
    ensures
        yes == forces_a_tool(body@),
{
    has_type_at(body, "tool_choice", "any") || has_type_at(body, "tool_choice", "tool")
}

/// Whether one named tool must be called.
fn is_specified_tool_choice(body: &Json) -> (yes: bool)
    ensures
        yes == (type_at(body@, "tool_choice"@) == Some("tool"@)),
{
    has_type_at(body, "tool_choice", "tool")
}

/// The object `{"type": kind}`.
pub open spec fn type_only(kind: Seq<char>) -> JsonV {
    JsonV::object().and("type"@, JsonV::Str(kind))
}

pub fn typed_object(kind: &str) -> (tree: Json)
    ensures
        tree@ == type_only(kind@),
{
    Json::object().and("type", Json::text(kind))
}

/// A body that leaves thinking to the upstream's default: off where one named tool must be called,
/// and not mentioned where it was `auto` or `adaptive`.
pub open spec fn default_thinking(body: JsonV, rules: Seq<Seq<char>>) -> (JsonV, Seq<Seq<char>>) {
    let declared = type_at(body, "thinking"@);
    if type_at(body, "tool_choice"@) == Some("tool"@) {
        (
            body.with("thinking"@, type_only("disabled"@)),
            with_rule(rules, RULE_PROVIDER_KIMI_SPECIFIED_TOOL_CHOICE_DISABLES_THINKING@),
        )
    } else if declared == Some("auto"@) || declared == Some("adaptive"@) {
        (body.without("thinking"@), with_rule(rules, RULE_PROVIDER_KIMI_THINKING_UPSTREAM_DEFAULT@))
    } else {
        (body, rules)
    }
}

fn normalize_upstream_default_thinking(body: &mut Json, rule_ids: &mut Vec<String>)
    ensures
        (final(body)@, texts(final(rule_ids)@)) == default_thinking(old(body)@, texts(old(rule_ids)@)),
{
    if is_specified_tool_choice(body) {
        body.set("thinking", typed_object("disabled"));
        append_rule(rule_ids, RULE_PROVIDER_KIMI_SPECIFIED_TOOL_CHOICE_DISABLES_THINKING);
        return;
    }
    if has_type_at(body, "thinking", "auto") || has_type_at(body, "thinking", "adaptive") {
        let _ = body.unset("thinking");
        append_rule(rule_ids, RULE_PROVIDER_KIMI_THINKING_UPSTREAM_DEFAULT);
    }
}

/// A body under the general thinking policies: `enabled` turns thinking on and drops a forced tool
/// choice; any other policy only makes `auto` into `adaptive`.
pub open spec fn relay_thinking_body(body: JsonV, policy: Option<Seq<char>>) -> JsonV {
    if policy == Some("enabled"@) {
        let free = if forces_a_tool(body) {
            body.without("tool_choice"@)
        } else {
            body
        };
        if type_at(free, "thinking"@) == Some("enabled"@) {
            free
        } else {
            free.with(
                "thinking"@,
                type_only("enabled"@).and(
                    "budget_tokens"@,
                    JsonV::Number(NumberV::PosInt(thinking_budget(free.unsigned_at("max_tokens"@)))),
                ),
            )
        }
    } else {
        match body.get("thinking"@) {
            Some(thinking) => if thinking.text_at("type"@) == Some("auto"@) {
                body.with("thinking"@, thinking.with("type"@, JsonV::Str("adaptive"@)))
            } else {
                body
            },
            None => body,
        }
    }
}

fn same_opt(s: Option<&str>, lit: &str) -> (yes: bool)
    ensures
        yes == (opt_text(s) == Some(lit@)),
{
    match s {
        Some(t) => same(t, lit),
        None => false,
    }
}

fn normalize_relay_thinking(body: &mut Json, relay_thinking: Option<&str>)
    ensures
        final(body)@ == relay_thinking_body(old(body)@, opt_text(relay_thinking)),
{
    if same_opt(relay_thinking, "enabled") {
        if is_forced_tool_choice(body) {
            let _ = body.unset("tool_choice");
        }
        if !has_type_at(body, "thinking", "enabled") {
            let budget = enabled_budget(body.u64_at("max_tokens"));
            body.set("thinking", typed_object("enabled").and("budget_tokens", Json::unsigned(budget)));
        }
        return;
    }
    let ghost before = body@;
    if let Some(thinking) = body.get_mut("thinking") {
        if thinking.has_text("type", "auto") {
            thinking.set("type", Json::text("adaptive"));
        } else {
            proof {
                with_same_value(before, "thinking"@);
            }
        }
    }
}

/// The schema of a tool that takes nothing in particular.
pub open spec fn open_schema() -> JsonV {
    type_only("object"@).and("properties"@, JsonV::object())
}

fn open_schema_json() -> (tree: Json)
    ensures
        tree@ == open_schema(),
{
    typed_object("object").and("properties", Json::object())
}

pub open spec fn is_object_at(tree: JsonV, key: Seq<char>) -> bool {
    match tree.get(key) {
        Some(value) => value is Object,
        None => false,
    }
}

fn object_at(tree: &Json, key: &str) -> (yes: bool)
    ensures
        yes == is_object_at(tree@, key@),
{
    match tree.get(key) {
        Some(value) => value.is_object(),
        None => false,
    }
}

/// An input schema as a relay takes it: an object type with properties, or the open schema.
pub open spec fn relay_schema(schema: Option<JsonV>) -> JsonV {
    match schema {
        Some(JsonV::Object(entries)) => {
            let given = JsonV::Object(entries);
            let kind = given.text_at("type"@);
            if entries.len() == 0 || !(kind == Some("object"@) || (kind is None && is_object_at(given, "properties"@))) {
                open_schema()
            } else {
                let named = if kind is None {
                    given.with("type"@, JsonV::Str("object"@))
                } else {
                    given
                };
                let filled = if is_object_at(named, "properties"@) {
                    named
                } else {
                    named.with("properties"@, JsonV::object())
                };
                match filled.get("required"@) {
                    Some(required) => if required is Array {
                        filled
                    } else {
                        filled.without("required"@)
                    },
                    None => filled,
                }
            }
        },
        _ => open_schema(),
    }
}

pub open spec fn opt_tree(value: Option<&Json>) -> Option<JsonV> {
    match value {
        Some(v) => Some(v@),
        None => None,
    }
}

fn normalize_relay_input_schema(schema: Option<&Json>) -> (out: Json)
    ensures
        out@ == relay_schema(opt_tree(schema)),
{
    match schema {
        Some(given) => {
            if !given.is_object() || given.is_empty_object() {
                assert(given@ is Object && given@->Object_0.len() == 0 ==> given@->Object_0 =~= Seq::empty());
                return open_schema_json();
            }
            let mut out = given.copy();
            let has_properties = object_at(&out, "properties");
            match out.str_at("type") {
                None => {
                    if !has_properties {
                        return open_schema_json();
                    }
                    out.set("type", Json::text("object"));
                },
                Some(kind) => {
                    if !same(kind, "object") {
                        return open_schema_json();
                    }
                },
            }
            if !object_at(&out, "properties") {
                out.set("properties", Json::object());
            }
            let bad_required = match out.get("required") {
                Some(required) => required.as_array().is_none(),
                None => false,
            };
            if bad_required {
                let _ = out.unset("required");
            }
            out
        },
        None => open_schema_json(),
    }
}

/// Whether one of the tools has the given name.
pub open spec fn names_tool(tools: Seq<JsonV>, name: Seq<char>) -> bool {
    exists|i: int| 0 <= i < tools.len() && (#[trigger] tools[i]).text_at("name"@) == Some(name)
}

/// A body whose tool choice fits its tools: none without tools, and `auto` where the named tool is
/// not there.
pub open spec fn fitting_tool_choice(body: JsonV) -> JsonV {
    match body.items_at("tools"@) {
        Some(tools) => if tools.len() == 0 {
            body.without("tool_choice"@)
        } else {
            match body.get("tool_choice"@) {
                Some(choice) => {
                    let name = match choice.text_at("name"@) {
                        Some(n) => n,
                        None => ""@,
                    };
                    if choice.text_at("type"@) == Some("tool"@) && !names_tool(tools, name) {
                        body.with("tool_choice"@, type_only("auto"@))
                    } else {
                        body
                    }
                },
                None => body,
            }
        },
        None => body.without("tool_choice"@),
    }
}

fn has_named_tool(tools: &Vec<Json>, name: &str) -> (yes: bool)
    ensures
        yes == names_tool(list_view(tools@), name@),
{
    let mut i: usize = 0;
    while i < tools.len()
        invariant
            i <= tools@.len(),
            forall|k: int| 0 <= k < i ==> (#[trigger] list_view(tools@)[k]).text_at("name"@) != Some(name@),
        decreases tools@.len() - i,
    {
        if tools[i].has_text("name", name) {
            assert(list_view(tools@)[i as int].text_at("name"@) == Some(name@));
            return true;
        }
        i = i + 1;
    }
    false
}

pub fn degrade_missing_tool_choice(body: &mut Json)
    ensures
        final(body)@ == fitting_tool_choice(old(body)@),
{
    let keep = match body.array_at("tools") {
        Some(tools) => tools.len() > 0,
        None => false,
    };
    if !keep {
        let _ = body.unset("tool_choice");
        return;
    }
    let missing = match body.get("tool_choice") {
        Some(choice) => {
            if choice.has_text("type", "tool") {
                let name = match choice.str_at("name") {
                    Some(n) => n,
                    None => "",
                };
                match body.array_at("tools") {
                    Some(tools) => !has_named_tool(tools, name),
                    None => false,
                }
            } else {
                false
            }
        },
        None => false,
    };
    if missing {
        body.set("tool_choice", typed_object("auto"));
    }
}

/// Whether a tool is the client's own: named, and of no type.
pub open spec fn client_tool(tool: JsonV) -> bool {
    !(match tool.text_at("type"@) {
        Some(kind) => kind.len() > 0,
        None => false,
    }) && match tool.text_at("name"@) {
        Some(name) => name.len() > 0,
        None => false,
    }
}

pub fn is_anthropic_client_tool(tool: &Json) -> (yes: bool)
    ensures
        yes == client_tool(tool@),
{
    let typed = match tool.str_at("type") {
        Some(kind) => !kind.is_empty(),
        None => false,
    };
    !typed && match tool.str_at("name") {
        Some(name) => !name.is_empty(),
        None => false,
    }
}

/// What kind of server tool a declaration is; `None` for a declaration without a type.
pub open spec fn server_tool_kind(tool: JsonV) -> Option<AnthropicServerToolKind> {
    match tool.text_at("type"@) {
        None => None,
        Some(kind) => if kind.len() == 0 {
            None
        } else {
            let name = tool.text_at("name"@);
            if name == Some("web_search"@) && "web_search_"@.is_prefix_of(kind) {
                Some(AnthropicServerToolKind::WebSearch)
            } else if name == Some("web_fetch"@) && "web_fetch_"@.is_prefix_of(kind) {
                Some(AnthropicServerToolKind::Unsupported)
            } else if name == Some("code_execution"@) && "code_execution_"@.is_prefix_of(kind) {
                Some(AnthropicServerToolKind::Unsupported)
            } else if kind == "mcp_toolset"@ || kind == "mcp_servers"@ {
                Some(AnthropicServerToolKind::Unsupported)
            } else if "tool_search_tool_"@.is_prefix_of(kind) && name is Some && "tool_search_tool_"@.is_prefix_of(
                name.unwrap(),
            ) {
                Some(AnthropicServerToolKind::Unsupported)
            } else if "advisor_"@.is_prefix_of(kind) && name is Some && "advisor"@.is_prefix_of(name.unwrap()) {
                Some(AnthropicServerToolKind::Unsupported)
            } else {
                Some(AnthropicServerToolKind::Unknown)
            }
        },
    }
}

fn classify_anthropic_server_tool(tool: &Json) -> (kind: Option<AnthropicServerToolKind>)
    ensures
        kind == server_tool_kind(tool@),
{
    let kind = match tool.str_at("type") {
        Some(kind) => kind,
        None => {
            return None;
        },
    };
    if kind.is_empty() {
        return None;
    }
    let name = tool.str_at("name");
    if same_opt(name, "web_search") && starts_with(kind, "web_search_") {
        return Some(AnthropicServerToolKind::WebSearch);
    }
    if same_opt(name, "web_fetch") && starts_with(kind, "web_fetch_") {
        return Some(AnthropicServerToolKind::Unsupported);
    }
    if same_opt(name, "code_execution") && starts_with(kind, "code_execution_") {
        return Some(AnthropicServerToolKind::Unsupported);
    }
    if same(kind, "mcp_toolset") || same(kind, "mcp_servers") {
        return Some(AnthropicServerToolKind::Unsupported);
    }
    if let Some(n) = name {
        if starts_with(kind, "tool_search_tool_") && starts_with(n, "tool_search_tool_") {
            return Some(AnthropicServerToolKind::Unsupported);
        }
        if starts_with(kind, "advisor_") && starts_with(n, "advisor") {
            return Some(AnthropicServerToolKind::Unsupported);
        }
    }
    Some(AnthropicServerToolKind::Unknown)
}

/// Whether a declaration is the server tool for web search.
pub fn is_anthropic_web_search_server_tool(tool: &Json) -> (yes: bool)
    ensures
        yes == (server_tool_kind(tool@) == Some(AnthropicServerToolKind::WebSearch)),
{
    match classify_anthropic_server_tool(tool) {
        Some(AnthropicServerToolKind::WebSearch) => true,
        _ => false,
    }
}

/// Whether the web search server tool is declared.
pub open spec fn declares_web_search(body: JsonV) -> bool {
    match body.items_at("tools"@) {
        Some(tools) => exists|i: int|
            0 <= i < tools.len() && server_tool_kind(#[trigger] tools[i]) == Some(AnthropicServerToolKind::WebSearch),
        None => false,
    }
}

fn has_typed_web_search(body: &Json) -> (yes: bool)
    ensures
        yes == declares_web_search(body@),
{
    match body.array_at("tools") {
        Some(tools) => {
            let mut i: usize = 0;
            while i < tools.len()
                invariant
                    i <= tools@.len(),
                    body@.get("tools"@) == Some(JsonV::Array(list_view(tools@))),
                    forall|k: int|
                        0 <= k < i ==> server_tool_kind(#[trigger] list_view(tools@)[k]) != Some(
                            AnthropicServerToolKind::WebSearch,
                        ),
                decreases tools@.len() - i,
            {
                match classify_anthropic_server_tool(&tools[i]) {
                    Some(AnthropicServerToolKind::WebSearch) => {
                        assert(server_tool_kind(list_view(tools@)[i as int]) == Some(AnthropicServerToolKind::WebSearch));
                        return true;
                    },
                    _ => {},
                }
                i = i + 1;
            }
            false
        },
        None => false,
    }
}

/// The texts of text blocks, each with a line end; `None` where a block is anything else.
pub open spec fn block_lines(blocks: Seq<JsonV>) -> Option<Seq<char>>
    decreases blocks.len(),
{
    if blocks.len() == 0 {
        Some(Seq::empty())
    } else {
        match block_lines(blocks.drop_last()) {
            None => None,
            Some(before) => if blocks.last().text_at("type"@) != Some("text"@) {
                None
            } else {
                match blocks.last().text_at("text"@) {
                    Some(part) => Some((before + part).push('\n')),
                    None => None,
                }
            },
        }
    }
}

proof fn block_lines_stays_none(blocks: Seq<JsonV>, i: int)
    requires
        0 <= i <= blocks.len(),
        block_lines(blocks.take(i)) is None,
    ensures
        block_lines(blocks) is None,
    decreases blocks.len() - i,
{
    if i < blocks.len() {
        assert(blocks.take(i + 1).drop_last() =~= blocks.take(i));
        block_lines_stays_none(blocks, i + 1);
    } else {
        assert(blocks.take(i) =~= blocks);
    }
}

/// The text of content that is text alone and not blank.
pub open spec fn plain_text(content: JsonV) -> Option<Seq<char>> {
    let text = match content {
        JsonV::Str(text) => Some(text),
        JsonV::Array(blocks) => if blocks.len() == 0 {
            None
        } else {
            block_lines(blocks)
        },
        _ => None,
    };
    match text {
        Some(t) => if is_blank(t) {
            None
        } else {
            Some(t)
        },
        None => None,
    }
}

fn text_only_content(content: &Json) -> (text: Option<String>)
    ensures
        match text {
            Some(t) => plain_text(content@) == Some(t@),
            None => plain_text(content@) is None,
        },
{
    let text = match content {
        Json::Str(text) => text.clone(),
        Json::Array(blocks) => {
            if blocks.len() == 0 {
                return None;
            }
            let ghost all = list_view(blocks@);
            let mut text = String::new();
            let mut i: usize = 0;
            while i < blocks.len()
                invariant
                    i <= blocks@.len(),
                    blocks@.len() > 0,
                    content == Json::Array(*blocks),
                    all == list_view(blocks@),
                    block_lines(all.take(i as int)) == Some(text@),
                decreases blocks@.len() - i,
            {
                assert(all.take(i + 1).drop_last() =~= all.take(i as int));
                if !blocks[i].has_text("type", "text") {
                    proof {
                        block_lines_stays_none(all, i + 1);
                    }
                    return None;
                }
                match blocks[i].str_at("text") {
                    Some(part) => {
                        text.append(part);
                        text.push('\n');
                    },
                    None => {
                        proof {
                            block_lines_stays_none(all, i + 1);
                        }
                        return None;
                    },
                }
                i = i + 1;
            }
            assert(all.take(i as int) =~= all);
            text
        },
        _ => {
            return None;
        },
    };
    if blank(text.as_str()) {
        None
    } else {
        Some(text)
    }
}

/// Whether an ASCII word occurs.
pub open spec fn has_word(text: Seq<char>, word: Seq<char>) -> bool {
    pieces(text, between_words()).contains(word)
}

fn contains_ascii_word(text: &str, word: &str) -> (yes: bool)
    ensures
        yes == has_word(text@, word@),
{
    let words = split_words(text);
    contains_text(&words, word)
}

/// The words that are not empty.
pub open spec fn words_of(parts: Seq<Seq<char>>) -> Seq<Seq<char>>
    decreases parts.len(),
{
    if parts.len() == 0 {
        Seq::empty()
    } else if parts.last().len() == 0 {
        words_of(parts.drop_last())
    } else {
        words_of(parts.drop_last()).push(parts.last())
    }
}

/// Whether a word is a number of GiB in one word.
pub open spec fn is_gib_size(word: Seq<char>) -> bool {
    "gib"@.is_suffix_of(word) && word.len() > "gib"@.len() && all_digits(word.take(word.len() - "gib"@.len()))
}

/// Whether a memory size in GiB occurs, as one word or as a number and the unit.
pub open spec fn has_gib_size(text: Seq<char>) -> bool {
    let words = words_of(pieces(text, between_words()));
    exists|i: int|
        0 <= i < words.len() && (is_gib_size(#[trigger] words[i]) || (words[i] == "gib"@ && i > 0 && all_digits(
            words[i - 1],
        )))
}

fn gib_size(word: &str) -> (yes: bool)
    ensures
        yes == is_gib_size(word@),
{
    if !crate::text::ends_with(word, "gib") {
        return false;
    }
    let chars = crate::text::chars_of(word);
    let unit: usize = "gib".unicode_len();
    if chars.len() <= unit {
        return false;
    }
    let size = text_of(&chars, 0, chars.len() - unit);
    assert(size@ =~= word@.take(word@.len() - "gib"@.len()));
    digits_only(size.as_str())
}

fn contains_gib_spec(text: &str) -> (yes: bool)
    ensures
        yes == has_gib_size(text@),
{
    let parts = split_words(text);
    let ghost all = texts(parts@);
    let ghost words = words_of(all);
    let mut previous_was_size = false;
    let mut i: usize = 0;
    while i < parts.len()
        invariant
            i <= parts@.len(),
            all == texts(parts@),
            all == pieces(text@, between_words()),
            words == words_of(all),
            ({
                let seen = words_of(all.take(i as int));
                &&& previous_was_size == (seen.len() > 0 && all_digits(seen.last()))
                &&& forall|k: int|
                    0 <= k < seen.len() ==> !is_gib_size(#[trigger] seen[k]) && !(seen[k] == "gib"@ && k > 0 && all_digits(
                        seen[k - 1],
                    ))
            }),
        decreases parts@.len() - i,
    {
        let ghost seen = words_of(all.take(i as int));
        assert(all.take(i + 1).drop_last() =~= all.take(i as int));
        let word = parts[i].as_str();
        if !word.is_empty() {
            let ghost now = words_of(all.take(i + 1));
            assert(now == seen.push(word@));
            if (same(word, "gib") && previous_was_size) || gib_size(word) {
                proof {
                    words_grow(all, i + 1);
                    let k = seen.len() as int;
                    assert(words[k] == now[k]);
                    assert(k > 0 ==> words[k - 1] == now[k - 1]);
                    assert(is_gib_size(words[k]) || (words[k] == "gib"@ && k > 0 && all_digits(words[k - 1])));
                }
                return true;
            }
            previous_was_size = digits_only(word);
            assert(forall|k: int| 0 <= k < seen.len() ==> now[k] == seen[k]);
        }
        i = i + 1;
    }
    assert(all.take(i as int) =~= all);
    false
}

proof fn words_grow(parts: Seq<Seq<char>>, i: int)
    requires
        0 <= i <= parts.len(),
    ensures
        words_of(parts.take(i)).is_prefix_of(words_of(parts)),
    decreases parts.len() - i,
{
    if i < parts.len() {
        words_grow(parts, i + 1);
        assert(parts.take(i + 1).drop_last() =~= parts.take(i));
        assert(words_of(parts.take(i)).is_prefix_of(words_of(parts.take(i + 1))));
        let a = words_of(parts.take(i));
        let b = words_of(parts.take(i + 1));
        let c = words_of(parts);
        assert(c.take(b.len() as int).take(a.len() as int) =~= c.take(a.len() as int));
    } else {
        assert(parts.take(i) =~= parts);
    }
}

/// Whether a message is the machine description that a client appends after the question.
pub open spec fn is_compute_snapshot(message: JsonV) -> bool {
    message.text_at("role"@) == Some("user"@) && match message.get("content"@) {
        Some(content) => match plain_text(content) {
            Some(text) => {
                let t = lowered(text);
                has_part(t, "compute snapshot"@) && has_word(t, "cores"@) && (has_word(t, "ram"@) || has_gib_size(t))
            },
            None => false,
        },
        None => false,
    }
}

fn is_science_compute_snapshot_message(message: &Json) -> (yes: bool)
    ensures
        yes == is_compute_snapshot(message@),
{
    if !message.has_text("role", "user") {
        return false;
    }
    match message.get("content") {
        Some(content) => match text_only_content(content) {
            Some(text) => {
                let t = to_lower(text.as_str());
                contains(t.as_str(), "compute snapshot") && contains_ascii_word(t.as_str(), "cores") && (
                contains_ascii_word(t.as_str(), "ram") || contains_gib_spec(t.as_str()))
            },
            None => false,
        },
        None => false,
    }
}

/// Whether the last two messages are a user's question and the machine description after it.
pub open spec fn ends_with_snapshot(messages: Seq<JsonV>) -> bool {
    messages.len() >= 2 && {
        let intent = messages[messages.len() - 2];
        &&& intent.text_at("role"@) == Some("user"@)
        &&& match intent.get("content"@) {
            Some(content) => plain_text(content) is Some,
            None => false,
        }
        &&& is_compute_snapshot(messages.last())
        &&& !is_compute_snapshot(intent)
    }
}

/// Messages with the last two exchanged.
pub open spec fn last_two_swapped(messages: Seq<JsonV>) -> Seq<JsonV> {
    messages.drop_last().drop_last().push(messages.last()).push(messages[messages.len() - 2])
}

/// A body in which the machine description stands before the question that is to be searched for.
pub open spec fn reordered_body(body: JsonV) -> (JsonV, bool) {
    match body.items_at("messages"@) {
        Some(messages) => if declares_web_search(body) && ends_with_snapshot(messages) {
            (body.with("messages"@, JsonV::Array(last_two_swapped(messages))), true)
        } else {
            (body, false)
        },
        None => (body, false),
    }
}

fn swap_snapshot(messages: &mut Vec<Json>) -> (swapped: bool)
    ensures
        swapped == ends_with_snapshot(list_view(old(messages)@)),
        list_view(final(messages)@) == (if swapped {
            last_two_swapped(list_view(old(messages)@))
        } else {
            list_view(old(messages)@)
        }),
{
    let ghost before = list_view(messages@);
    let len: usize = messages.len();
    if len < 2 {
        return false;
    }
    assert(before[len - 2] == list_view(messages@)[len - 2]);
    assert(before.last() == list_view(messages@)[len - 1]);
    if !messages[len - 2].has_text("role", "user") {
        return false;
    }
    let has_text = match messages[len - 2].get("content") {
        Some(content) => text_only_content(content).is_some(),
        None => false,
    };
    if !has_text {
        return false;
    }
    if !is_science_compute_snapshot_message(&messages[len - 1]) || is_science_compute_snapshot_message(&messages[len - 2]) {
        return false;
    }
    let context = messages.pop();
    let intent = messages.pop();
    match (context, intent) {
        (Some(c), Some(q)) => {
            messages.push(c);
            messages.push(q);
        },
        _ => {},
    }
    assert(list_view(messages@) =~= last_two_swapped(before));
    true
}

fn reorder_science_context_before_user_intent(body: &mut Json, rule_ids: &mut Vec<String>)
    ensures
        final(body)@ == reordered_body(old(body)@).0,
        texts(final(rule_ids)@) == with_rule_if(
            texts(old(rule_ids)@),
            reordered_body(old(body)@).1,
            RULE_PROVIDER_KIMI_SCIENCE_CONTEXT_TAIL_REORDER@,
        ),
{
    if !has_typed_web_search(body) {
        return;
    }
    let ghost before = body@;
    if let Some(value) = body.get_mut("messages") {
        proof {
            with_same_value(before, "messages"@);
        }
        if let Some(messages) = value.as_array_mut() {
            if swap_snapshot(messages) {
                append_rule(rule_ids, RULE_PROVIDER_KIMI_SCIENCE_CONTEXT_TAIL_REORDER);
            }
        }
    }
}

/// The rule that names an unsupported server tool under a policy.
pub open spec fn unsupported_rule(policy: AnthropicServerToolPolicy) -> Seq<char> {
    match policy {
        AnthropicServerToolPolicy::Kimi => RULE_TOOL_KIMI_UNSUPPORTED_SERVER_TOOL_FILTER@,
        AnthropicServerToolPolicy::DeepSeek => RULE_TOOL_DEEPSEEK_UNSUPPORTED_SERVER_TOOL_FILTER@,
    }
}

fn unsupported_server_tool_rule(policy: AnthropicServerToolPolicy) -> (rule: &'static str)
    ensures
        rule@ == unsupported_rule(policy),
{
    match policy {
        AnthropicServerToolPolicy::Kimi => RULE_TOOL_KIMI_UNSUPPORTED_SERVER_TOOL_FILTER,
        AnthropicServerToolPolicy::DeepSeek => RULE_TOOL_DEEPSEEK_UNSUPPORTED_SERVER_TOOL_FILTER,
    }
}

/// The rule that names a web search tool under a policy.
pub open spec fn search_rule(policy: AnthropicServerToolPolicy) -> Seq<char> {
    match policy {
        AnthropicServerToolPolicy::Kimi => RULE_TOOL_KIMI_WEB_SEARCH_SERVER_TOOL_PRESERVE@,
        AnthropicServerToolPolicy::DeepSeek => RULE_TOOL_DEEPSEEK_WEB_SEARCH_SERVER_TOOL_PRESERVE@,
    }
}

/// Tools under a policy: those that stay, how many went, and the rules that applied.
pub struct SiftedV {
    pub kept: Seq<JsonV>,
    pub dropped: usize,
    pub rules: Seq<Seq<char>>,
}

/// Tools sifted under a policy, one after another.
pub open spec fn sifted(
    tools: Seq<JsonV>,
    policy: AnthropicServerToolPolicy,
    dropped: usize,
    rules: Seq<Seq<char>>,
) -> SiftedV
    decreases tools.len(),
{
    if tools.len() == 0 {
        SiftedV { kept: Seq::empty(), dropped, rules }
    } else {
        let before = sifted(tools.drop_last(), policy, dropped, rules);
        let tool = tools.last();
        match server_tool_kind(tool) {
            None => SiftedV { kept: before.kept.push(tool), ..before },
            Some(AnthropicServerToolKind::WebSearch) => SiftedV {
                kept: before.kept.push(tool),
                rules: with_rule(before.rules, search_rule(policy)),
                ..before
            },
            Some(AnthropicServerToolKind::Unsupported) => SiftedV {
                dropped: bumped(before.dropped),
                rules: with_rule(before.rules, unsupported_rule(policy)),
                ..before
            },
            Some(AnthropicServerToolKind::Unknown) => SiftedV {
                kept: before.kept.push(tool),
                rules: with_rule(before.rules, RULE_TOOL_UNKNOWN_SERVER_TOOL_PRESERVE@),
                ..before
            },
        }
    }
}

/// A body with the given tools, or without the field where none is left.
pub open spec fn with_tools(body: JsonV, tools: Seq<JsonV>) -> JsonV {
    if tools.len() == 0 {
        body.without("tools"@)
    } else {
        body.with("tools"@, JsonV::Array(tools))
    }
}

/// A body under the server tool policy: the body, the number of tools that went, and the rules.
pub open spec fn under_policy(body: JsonV, policy: AnthropicServerToolPolicy, rules: Seq<Seq<char>>) -> (
    JsonV,
    usize,
    Seq<Seq<char>>,
) {
    let has_servers = body.get("mcp_servers"@) is Some;
    let bare = body.without("mcp_servers"@);
    let dropped: usize = if has_servers {
        1
    } else {
        0
    };
    let rules1 = with_rule_if(rules, has_servers, unsupported_rule(policy));
    match bare.items_at("tools"@) {
        Some(tools) => {
            let s = sifted(tools, policy, dropped, rules1);
            (fitting_tool_choice(with_tools(bare, s.kept)), s.dropped, s.rules)
        },
        None => (fitting_tool_choice(bare), dropped, rules1),
    }
}

fn sift(tools: &Vec<Json>, policy: AnthropicServerToolPolicy, dropped: usize, rule_ids: &mut Vec<String>) -> (out: (
    Vec<Json>,
    usize,
))
    ensures
        ({
            let s = sifted(list_view(tools@), policy, dropped, texts(old(rule_ids)@));
            &&& list_view(out.0@) == s.kept
            &&& out.1 == s.dropped
            &&& texts(final(rule_ids)@) == s.rules
        }),
{
    let ghost all = list_view(tools@);
    let ghost rules = texts(rule_ids@);
    let ghost start = dropped;
    let mut dropped = dropped;
    let mut kept: Vec<Json> = Vec::new();
    let mut i: usize = 0;
    while i < tools.len()
        invariant
            i <= tools@.len(),
            all == list_view(tools@),
            ({
                let s = sifted(all.take(i as int), policy, start, rules);
                &&& list_view(kept@) == s.kept
                &&& dropped == s.dropped
                &&& texts(rule_ids@) == s.rules
            }),
        decreases tools@.len() - i,
    {
        assert(all.take(i + 1).drop_last() =~= all.take(i as int));
        match classify_anthropic_server_tool(&tools[i]) {
            None => {
                kept.push(tools[i].copy());
            },
            Some(AnthropicServerToolKind::WebSearch) => {
                match policy {
                    AnthropicServerToolPolicy::Kimi => {
                        append_rule(rule_ids, RULE_TOOL_KIMI_WEB_SEARCH_SERVER_TOOL_PRESERVE);
                    },
                    AnthropicServerToolPolicy::DeepSeek => {
                        append_rule(rule_ids, RULE_TOOL_DEEPSEEK_WEB_SEARCH_SERVER_TOOL_PRESERVE);
                    },
                }
                kept.push(tools[i].copy());
            },
            Some(AnthropicServerToolKind::Unsupported) => {
                dropped = bump(dropped);
                append_rule(rule_ids, unsupported_server_tool_rule(policy));
            },
            Some(AnthropicServerToolKind::Unknown) => {
                append_rule(rule_ids, RULE_TOOL_UNKNOWN_SERVER_TOOL_PRESERVE);
                kept.push(tools[i].copy());
            },
        }
        i = i + 1;
    }
    assert(all.take(i as int) =~= all);
    (kept, dropped)
}

fn put_tools(body: &mut Json, tools: Vec<Json>)
    ensures
        final(body)@ == with_tools(old(body)@, list_view(tools@)),
{
    if tools.len() == 0 {
        let _ = body.unset("tools");
    } else {
        body.set("tools", Json::array(tools));
    }
}

/// Filters server tools under a policy and tells how many went.
pub fn apply_anthropic_server_tool_policy(
    body: &mut Json,
    policy: AnthropicServerToolPolicy,
    rule_ids: &mut Vec<String>,
) -> (dropped: usize)
    ensures
        (final(body)@, dropped, texts(final(rule_ids)@)) == under_policy(old(body)@, policy, texts(old(rule_ids)@)),
{
    apply_anthropic_server_tool_policy_with_outcome(body, policy, rule_ids).dropped
}

/// Filters server tools under a policy: web search and unknown tools stay, those that no upstream
/// has go, and the tool choice is made to fit what is left.
pub fn apply_anthropic_server_tool_policy_with_outcome(
    body: &mut Json,
    policy: AnthropicServerToolPolicy,
    rule_ids: &mut Vec<String>,
) -> (outcome: ServerToolOutcome)
    ensures
        (final(body)@, outcome.dropped, texts(final(rule_ids)@)) == under_policy(
            old(body)@,
            policy,
            texts(old(rule_ids)@),
        ),
{
    let mut dropped: usize = 0;
    if body.unset("mcp_servers").is_some() {
        dropped = 1;
        append_rule(rule_ids, unsupported_server_tool_rule(policy));
    }
    let sifted_tools = match body.array_at("tools") {
        Some(tools) => Some(sift(tools, policy, dropped, rule_ids)),
        None => None,
    };
    match sifted_tools {
        Some((kept, n)) => {
            put_tools(body, kept);
            degrade_missing_tool_choice(body);
            ServerToolOutcome { dropped: n }
        },
        None => {
            degrade_missing_tool_choice(body);
            ServerToolOutcome { dropped }
        },
    }
}

/// A tool of the client with a schema that a relay takes.
pub open spec fn relay_tool(tool: JsonV) -> JsonV {
    tool.with("input_schema"@, relay_schema(tool.get("input_schema"@)))
}

/// The tools that a relay gets: client tools with a schema, server tools as they are, nothing else.
pub open spec fn relay_tools(tools: Seq<JsonV>) -> Seq<JsonV>
    decreases tools.len(),
{
    if tools.len() == 0 {
        Seq::empty()
    } else {
        let before = relay_tools(tools.drop_last());
        if client_tool(tools.last()) {
            before.push(relay_tool(tools.last()))
        } else if server_tool_kind(tools.last()) is Some {
            before.push(tools.last())
        } else {
            before
        }
    }
}

/// A body with the tools that a relay gets, and the rules.
pub open spec fn relay_tools_body(body: JsonV, rules: Seq<Seq<char>>) -> (JsonV, Seq<Seq<char>>) {
    match body.get("tools"@) {
        None => (body, rules),
        Some(JsonV::Array(tools)) => (
            fitting_tool_choice(with_tools(body, relay_tools(tools))),
            with_rule_if(
                rules,
                exists|i: int| 0 <= i < tools.len() && client_tool(#[trigger] tools[i]),
                RULE_TOOL_RELAY_INPUT_SCHEMA_NORMALIZE@,
            ),
        ),
        Some(_) => (fitting_tool_choice(body.without("tools"@)), rules),
    }
}

fn clean_tools(tools: &Vec<Json>) -> (out: (Vec<Json>, bool))
    ensures
        list_view(out.0@) == relay_tools(list_view(tools@)),
        out.1 == exists|i: int| 0 <= i < tools@.len() && client_tool(#[trigger] list_view(tools@)[i]),
{
    let ghost all = list_view(tools@);
    let mut cleaned: Vec<Json> = Vec::new();
    let mut any_client = false;
    let mut i: usize = 0;
    while i < tools.len()
        invariant
            i <= tools@.len(),
            all == list_view(tools@),
            list_view(cleaned@) == relay_tools(all.take(i as int)),
            any_client == exists|k: int| 0 <= k < i && client_tool(#[trigger] all[k]),
        decreases tools@.len() - i,
    {
        assert(all.take(i + 1).drop_last() =~= all.take(i as int));
        if is_anthropic_client_tool(&tools[i]) {
            assert(client_tool(all[i as int]));
            let schema = normalize_relay_input_schema(tools[i].get("input_schema"));
            let mut clean = tools[i].copy();
            clean.set("input_schema", schema);
            any_client = true;
            cleaned.push(clean);
        } else if classify_anthropic_server_tool(&tools[i]).is_some() {
            cleaned.push(tools[i].copy());
        }
        i = i + 1;
    }
    assert(all.take(i as int) =~= all);
    (cleaned, any_client)
}

fn normalize_relay_tools(body: &mut Json, rule_ids: &mut Vec<String>)
    ensures
        (final(body)@, texts(final(rule_ids)@)) == relay_tools_body(old(body)@, texts(old(rule_ids)@)),
{
    let cleaned = match body.get("tools") {
        None => {
            return;
        },
        Some(value) => match value.as_array() {
            Some(tools) => Some(clean_tools(tools)),
            None => None,
        },
    };
    match cleaned {
        Some((tools, any_client)) => {
            if any_client {
                append_rule(rule_ids, RULE_TOOL_RELAY_INPUT_SCHEMA_NORMALIZE);
            }
            put_tools(body, tools);
        },
        None => {
            let _ = body.unset("tools");
        },
    }
    degrade_missing_tool_choice(body);
}

pub const DOCUMENT_NOTE_START: &'static str = "[CSSwitch] Attachment omitted (";

pub const DOCUMENT_NOTE_END: &'static str = "). This channel's upstream does not implement Anthropic document content blocks, so the file itself was not forwarded; this note is inserted by the CSSwitch gateway and is not a tool result. Image blocks are accepted — to see the contents, read the file from disk and render its pages to images.";

/// The note that stands for a document block.
pub open spec fn document_note(block: JsonV) -> JsonV {
    let media = match block.get("source"@) {
        Some(source) => match source.text_at("media_type"@) {
            Some(kind) => kind,
            None => "unknown media type"@,
        },
        None => "unknown media type"@,
    };
    typed_block("text"@, "text"@, DOCUMENT_NOTE_START@ + media + DOCUMENT_NOTE_END@)
}

pub open spec fn is_document(block: JsonV) -> bool {
    block.text_at("type"@) == Some("document"@)
}

/// A block with a note in place of a document.
pub open spec fn noted_block(block: JsonV) -> JsonV {
    if is_document(block) {
        document_note(block)
    } else {
        block
    }
}

/// A message with notes in place of documents.
pub open spec fn noted_message(message: JsonV) -> JsonV {
    match message.items_at("content"@) {
        Some(blocks) => message.with("content"@, JsonV::Array(blocks.map_values(|block: JsonV| noted_block(block)))),
        None => message,
    }
}

/// Whether a message holds a document.
pub open spec fn holds_document(message: JsonV) -> bool {
    match message.items_at("content"@) {
        Some(blocks) => exists|i: int| 0 <= i < blocks.len() && is_document(#[trigger] blocks[i]),
        None => false,
    }
}

/// How many documents there are among blocks.
pub open spec fn documents_among(blocks: Seq<JsonV>) -> nat
    decreases blocks.len(),
{
    if blocks.len() == 0 {
        0
    } else {
        documents_among(blocks.drop_last()) + if is_document(blocks.last()) {
            1nat
        } else {
            0nat
        }
    }
}

/// How many documents the messages hold.
pub open spec fn documents_in(messages: Seq<JsonV>) -> nat
    decreases messages.len(),
{
    if messages.len() == 0 {
        0
    } else {
        documents_in(messages.drop_last()) + match messages.last().items_at("content"@) {
            Some(blocks) => documents_among(blocks),
            None => 0,
        }
    }
}

/// A count as far as a machine holds it.
pub open spec fn counted(n: nat) -> usize {
    if n < usize::MAX {
        n as usize
    } else {
        usize::MAX
    }
}

/// A body with notes in place of documents, and how many there were.
pub open spec fn noted_body(body: JsonV) -> (JsonV, nat) {
    match body.items_at("messages"@) {
        Some(messages) => (
            body.with("messages"@, JsonV::Array(messages.map_values(|message: JsonV| noted_message(message)))),
            documents_in(messages),
        ),
        None => (body, 0),
    }
}

fn note_for(block: &Json) -> (note: Json)
    ensures
        note@ == document_note(block@),
{
    let media = match block.get("source") {
        Some(source) => match source.str_at("media_type") {
            Some(kind) => kind,
            None => "unknown media type",
        },
        None => "unknown media type",
    };
    let text = concat(concat(DOCUMENT_NOTE_START, media).as_str(), DOCUMENT_NOTE_END);
    Json::typed("text", "text", text.as_str())
}

fn note_blocks(blocks: &mut Vec<Json>, had: usize) -> (count: usize)
    ensures
        list_view(final(blocks)@) == list_view(old(blocks)@).map_values(|block: JsonV| noted_block(block)),
        forall|n: nat| had == #[trigger] counted(n) ==> count == counted(n + documents_among(list_view(old(blocks)@))),
{
    let ghost before = list_view(blocks@);
    let mut count: usize = had;
    let mut i: usize = 0;
    let n: usize = blocks.len();
    while i < n
        invariant
            i <= n,
            n == blocks@.len(),
            n == before.len(),
            forall|k: int| 0 <= k < i ==> (#[trigger] list_view(blocks@)[k]) == noted_block(before[k]),
            forall|k: int| i <= k < n ==> (#[trigger] list_view(blocks@)[k]) == before[k],
            forall|n: nat| had == #[trigger] counted(n) ==> count == counted(n + documents_among(before.take(i as int))),
        decreases n - i,
    {
        assert(before.take(i + 1).drop_last() =~= before.take(i as int));
        assert(list_view(blocks@)[i as int] == before[i as int]);
        if blocks[i].has_text("type", "document") {
            assert(is_document(before[i as int]));
            let note = note_for(&blocks[i]);
            blocks[i] = note;
            count = bump(count);
        }
        i = i + 1;
    }
    assert(before.take(i as int) =~= before);
    assert(list_view(blocks@) =~= before.map_values(|block: JsonV| noted_block(block)));
    count
}

fn note_messages(messages: &mut Vec<Json>) -> (count: usize)
    ensures
        list_view(final(messages)@) == list_view(old(messages)@).map_values(|message: JsonV| noted_message(message)),
        count == counted(documents_in(list_view(old(messages)@))),
{
    let ghost before = list_view(messages@);
    let mut count: usize = 0;
    let mut i: usize = 0;
    let n: usize = messages.len();
    while i < n
        invariant
            i <= n,
            n == messages@.len(),
            n == before.len(),
            forall|k: int| 0 <= k < i ==> (#[trigger] list_view(messages@)[k]) == noted_message(before[k]),
            forall|k: int| i <= k < n ==> (#[trigger] list_view(messages@)[k]) == before[k],
            count == counted(documents_in(before.take(i as int))),
        decreases n - i,
    {
        assert(before.take(i + 1).drop_last() =~= before.take(i as int));
        assert(list_view(messages@)[i as int] == before[i as int]);
        if let Some(content) = messages[i].get_mut("content") {
            if let Some(blocks) = content.as_array_mut() {
                count = note_blocks(blocks, count);
            } else {
                proof {
                    with_same_value(before[i as int], "content"@);
                }
            }
        }
        i = i + 1;
    }
    assert(before.take(i as int) =~= before);
    assert(list_view(messages@) =~= before.map_values(|message: JsonV| noted_message(message)));
    count
}

/// Puts a visible note in place of each document block; tells how many there were.
pub fn replace_kimi_document_blocks(body: &mut Json, rule_ids: &mut Vec<String>) -> (count: usize)
    ensures
        final(body)@ == noted_body(old(body)@).0,
        count == counted(noted_body(old(body)@).1),
        texts(final(rule_ids)@) == with_rule_if(
            texts(old(rule_ids)@),
            noted_body(old(body)@).1 > 0,
            RULE_PROVIDER_KIMI_DOCUMENT_PLACEHOLDER@,
        ),
{
    let ghost before = body@;
    let mut count: usize = 0;
    if let Some(value) = body.get_mut("messages") {
        if let Some(messages) = value.as_array_mut() {
            count = note_messages(messages);
        } else {
            proof {
                with_same_value(before, "messages"@);
            }
        }
    }
    if count > 0 {
        append_rule(rule_ids, RULE_PROVIDER_KIMI_DOCUMENT_PLACEHOLDER);
    }
    count
}

/// The entry of one block in the outline of a conversation's tool blocks.
pub open spec fn skeleton_entry(index: nat, role: Seq<char>, block: JsonV) -> Option<Seq<char>> {
    match block.text_at("type"@) {
        Some(kind) => if kind == "tool_use"@ || kind == "tool_result"@ || kind == "server_tool_use"@ || kind
            == "web_search_tool_result"@ {
            let id_value = match block.get("id"@) {
                Some(v) => Some(v),
                None => block.get("tool_use_id"@),
            };
            let id = match id_value {
                Some(JsonV::Str(t)) => t,
                _ => "<none>"@,
            };
            Some("m"@ + decimal(index) + "/"@ + role + ":"@ + kind + "="@ + id)
        } else {
            None
        },
        None => None,
    }
}

/// The entries of a message's blocks.
pub open spec fn skeleton_of_blocks(index: nat, role: Seq<char>, blocks: Seq<JsonV>) -> Seq<Seq<char>>
    decreases blocks.len(),
{
    if blocks.len() == 0 {
        Seq::empty()
    } else {
        let before = skeleton_of_blocks(index, role, blocks.drop_last());
        match skeleton_entry(index, role, blocks.last()) {
            Some(entry) => before.push(entry),
            None => before,
        }
    }
}

/// The entries of a conversation.
pub open spec fn skeleton_of(messages: Seq<JsonV>) -> Seq<Seq<char>>
    decreases messages.len(),
{
    if messages.len() == 0 {
        Seq::empty()
    } else {
        let before = skeleton_of(messages.drop_last());
        let message = messages.last();
        let role = match message.text_at("role"@) {
            Some(r) => r,
            None => "?"@,
        };
        match message.items_at("content"@) {
            Some(blocks) => before + skeleton_of_blocks((messages.len() - 1) as nat, role, blocks),
            None => before,
        }
    }
}

/// The line that outlines a conversation's tool blocks, `None` where there are none.
pub open spec fn skeleton_line(body: JsonV) -> Option<Seq<char>> {
    match body.items_at("messages"@) {
        Some(messages) => if skeleton_of(messages).len() == 0 {
            None
        } else {
            Some("tool skeleton: "@ + joined(skeleton_of(messages), " | "@))
        },
        None => None,
    }
}

fn skeleton_part(index: usize, role: &str, block: &Json) -> (entry: Option<String>)
    ensures
        match entry {
            Some(e) => skeleton_entry(index as nat, role@, block@) == Some(e@),
            None => skeleton_entry(index as nat, role@, block@) is None,
        },
{
    match block.str_at("type") {
        Some(kind) => {
            if !(same(kind, "tool_use") || same(kind, "tool_result") || same(kind, "server_tool_use") || same(
                kind,
                "web_search_tool_result",
            )) {
                return None;
            }
            let id_value = match block.get("id") {
                Some(v) => Some(v),
                None => block.get("tool_use_id"),
            };
            let id = match id_value {
                Some(v) => match v.as_str() {
                    Some(t) => t,
                    None => "<none>",
                },
                None => "<none>",
            };
            let mut entry = concat("m", number_text(index as u64).as_str());
            entry.append("/");
            entry.append(role);
            entry.append(":");
            entry.append(kind);
            entry.append("=");
            entry.append(id);
            Some(entry)
        },
        None => None,
    }
}

/// Outlines the tool blocks of a conversation: kinds and ids alone, nothing of what was said.
pub fn debug_tool_skeleton(body: &Json) -> (line: Option<String>)
    ensures
        match line {
            Some(l) => skeleton_line(body@) == Some(l@),
            None => skeleton_line(body@) is None,
        },
{
    let messages = match body.array_at("messages") {
        Some(messages) => messages,
        None => {
            return None;
        },
    };
    let ghost all = list_view(messages@);
    let mut out: Vec<String> = Vec::new();
    let mut i: usize = 0;
    while i < messages.len()
        invariant
            i <= messages@.len(),
            all == list_view(messages@),
            texts(out@) == skeleton_of(all.take(i as int)),
        decreases messages@.len() - i,
    {
        assert(all.take(i + 1).drop_last() =~= all.take(i as int));
        let role = match messages[i].str_at("role") {
            Some(r) => r,
            None => "?",
        };
        if let Some(blocks) = messages[i].array_at("content") {
            let ghost before = texts(out@);
            let ghost bs = list_view(blocks@);
            let mut k: usize = 0;
            assert(before + skeleton_of_blocks(i as nat, role@, bs.take(0)) =~= before);
            while k < blocks.len()
                invariant
                    k <= blocks@.len(),
                    bs == list_view(blocks@),
                    texts(out@) == before + skeleton_of_blocks(i as nat, role@, bs.take(k as int)),
                decreases blocks@.len() - k,
            {
                assert(bs.take(k + 1).drop_last() =~= bs.take(k as int));
                let ghost done = skeleton_of_blocks(i as nat, role@, bs.take(k as int));
                if let Some(entry) = skeleton_part(i, role, &blocks[k]) {
                    assert((before + done).push(entry@) =~= before + done.push(entry@));
                    out.push(entry);
                }
                k = k + 1;
            }
            assert(bs.take(k as int) =~= bs);
        }
        i = i + 1;
    }
    assert(all.take(i as int) =~= all);
    if out.len() == 0 {
        None
    } else {
        Some(concat("tool skeleton: ", join(&out, " | ").as_str()))
    }
}

/// The repair of search results under way: the blocks so far, the last search id seen, how many
/// ids were made up, and whether anything changed.
pub struct PairingV {
    pub rebuilt: Seq<JsonV>,
    pub nearest: Option<Seq<char>>,
    pub made: usize,
    pub changed: bool,
}

/// The search call that stands before a result which lacks one.
pub open spec fn search_call(id: Seq<char>) -> JsonV {
    JsonV::object().and("type"@, JsonV::Str("server_tool_use"@)).and("id"@, JsonV::Str(id)).and(
        "name"@,
        JsonV::Str("web_search"@),
    ).and("input"@, JsonV::object())
}

/// The made-up id of a search.
pub open spec fn made_id(n: usize) -> Seq<char> {
    "srvtoolu_csswitch_repair_"@ + decimal(n as nat)
}

/// One block of the repair. A result that a call of the message declares stays; otherwise it takes
/// the id of the nearest call before it; without one it gets a call of its own, and a result
/// without id and without content goes.
pub open spec fn pairing_step(state: PairingV, block: JsonV, declared: Seq<Seq<char>>) -> PairingV {
    let kind = block.text_at("type"@);
    if kind == Some("server_tool_use"@) {
        PairingV {
            rebuilt: state.rebuilt.push(block),
            nearest: match block.text_at("id"@) {
                Some(id) => Some(id),
                None => state.nearest,
            },
            ..state
        }
    } else if kind == Some("web_search_tool_result"@) {
        let current = block.text_at("tool_use_id"@);
        if current is Some && declared.contains(current.unwrap()) {
            PairingV { rebuilt: state.rebuilt.push(block), ..state }
        } else {
            match state.nearest {
                Some(target) => PairingV {
                    rebuilt: state.rebuilt.push(block.with("tool_use_id"@, JsonV::Str(target))),
                    changed: true,
                    ..state
                },
                None => match current {
                    Some(id) => PairingV {
                        rebuilt: state.rebuilt.push(search_call(id)).push(block),
                        changed: true,
                        ..state
                    },
                    None => {
                        let empty = match block.items_at("content"@) {
                            Some(items) => items.len() == 0,
                            None => true,
                        };
                        if empty {
                            PairingV { changed: true, ..state }
                        } else {
                            let id = made_id(bumped(state.made));
                            PairingV {
                                rebuilt: state.rebuilt.push(search_call(id)).push(
                                    block.with("tool_use_id"@, JsonV::Str(id)),
                                ),
                                made: bumped(state.made),
                                changed: true,
                                ..state
                            }
                        }
                    },
                },
            }
        }
    } else {
        PairingV { rebuilt: state.rebuilt.push(block), ..state }
    }
}

/// The blocks of one message repaired.
pub open spec fn pairing_scan(blocks: Seq<JsonV>, declared: Seq<Seq<char>>, made: usize) -> PairingV
    decreases blocks.len(),
{
    if blocks.len() == 0 {
        PairingV { rebuilt: Seq::empty(), nearest: None, made, changed: false }
    } else {
        pairing_step(pairing_scan(blocks.drop_last(), declared, made), blocks.last(), declared)
    }
}

/// One message repaired: the message, how many ids were made up so far, and whether it changed.
pub open spec fn paired_message(message: JsonV, made: usize) -> (JsonV, usize, bool) {
    match message.items_at("content"@) {
        Some(blocks) => {
            let scan = pairing_scan(blocks, block_ids(blocks, "server_tool_use"@, "id"@), made);
            if scan.changed {
                (message.with("content"@, JsonV::Array(scan.rebuilt)), scan.made, true)
            } else {
                (message, scan.made, false)
            }
        },
        None => (message, made, false),
    }
}

/// The messages repaired one after another.
pub open spec fn paired_messages(messages: Seq<JsonV>) -> (Seq<JsonV>, usize, bool)
    decreases messages.len(),
{
    if messages.len() == 0 {
        (Seq::empty(), 0, false)
    } else {
        let (done, made, changed) = paired_messages(messages.drop_last());
        let (message, made2, one) = paired_message(messages.last(), made);
        (done.push(message), made2, changed || one)
    }
}

/// A body in which every search result has its call, and whether anything changed.
pub open spec fn search_paired_body(body: JsonV) -> (JsonV, bool) {
    match body.items_at("messages"@) {
        Some(messages) => (
            body.with("messages"@, JsonV::Array(paired_messages(messages).0)),
            paired_messages(messages).2,
        ),
        None => (body, false),
    }
}

fn search_call_json(id: &str) -> (tree: Json)
    ensures
        tree@ == search_call(id@),
{
    Json::object().and("type", Json::text("server_tool_use")).and("id", Json::text(id)).and(
        "name",
        Json::text("web_search"),
    ).and("input", Json::object())
}

fn declared_searches(blocks: &Vec<Json>) -> (ids: Vec<String>)
    ensures
        texts(ids@) == block_ids(list_view(blocks@), "server_tool_use"@, "id"@),
{
    let ghost all = list_view(blocks@);
    let mut ids: Vec<String> = Vec::new();
    let mut i: usize = 0;
    while i < blocks.len()
        invariant
            i <= blocks@.len(),
            all == list_view(blocks@),
            texts(ids@) == block_ids(all.take(i as int), "server_tool_use"@, "id"@),
        decreases blocks@.len() - i,
    {
        assert(all.take(i + 1).drop_last() =~= all.take(i as int));
        if blocks[i].has_text("type", "server_tool_use") {
            if let Some(id) = blocks[i].str_at("id") {
                ids.push(id.to_owned());
            }
        }
        i = i + 1;
    }
    assert(all.take(i as int) =~= all);
    ids
}

fn pair_results(blocks: &Vec<Json>, made: usize) -> (out: (Vec<Json>, usize, bool))
    ensures
        ({
            let all = list_view(blocks@);
            let scan = pairing_scan(all, block_ids(all, "server_tool_use"@, "id"@), made);
            list_view(out.0@) == scan.rebuilt && out.1 == scan.made && out.2 == scan.changed
        }),
{
    let ghost all = list_view(blocks@);
    let declared = declared_searches(blocks);
    let ghost ids = texts(declared@);
    let ghost start = made;
    let mut made = made;
    let mut rebuilt: Vec<Json> = Vec::new();
    let mut nearest: Option<String> = None;
    let mut changed = false;
    let mut i: usize = 0;
    while i < blocks.len()
        invariant
            i <= blocks@.len(),
            all == list_view(blocks@),
            ids == texts(declared@),
            ({
                let scan = pairing_scan(all.take(i as int), ids, start);
                &&& list_view(rebuilt@) == scan.rebuilt
                &&& made == scan.made
                &&& changed == scan.changed
                &&& match nearest {
                    Some(id) => scan.nearest == Some(id@),
                    None => scan.nearest is None,
                }
            }),
        decreases blocks@.len() - i,
    {
        assert(all.take(i + 1).drop_last() =~= all.take(i as int));
        let block = &blocks[i];
        if block.has_text("type", "server_tool_use") {
            if let Some(id) = block.str_at("id") {
                nearest = Some(id.to_owned());
            }
            rebuilt.push(block.copy());
        } else if block.has_text("type", "web_search_tool_result") {
            let current = block.str_at("tool_use_id");
            let known = match current {
                Some(id) => contains_text(&declared, id),
                None => false,
            };
            if known {
                rebuilt.push(block.copy());
            } else {
                match &nearest {
                    Some(target) => {
                        let mut fixed = block.copy();
                        fixed.set("tool_use_id", Json::text(target.as_str()));
                        rebuilt.push(fixed);
                    },
                    None => match current {
                        Some(id) => {
                            rebuilt.push(search_call_json(id));
                            rebuilt.push(block.copy());
                        },
                        None => {
                            let empty = match block.array_at("content") {
                                Some(items) => items.len() == 0,
                                None => true,
                            };
                            if !empty {
                                made = bump(made);
                                let id = concat("srvtoolu_csswitch_repair_", number_text(made as u64).as_str());
                                rebuilt.push(search_call_json(id.as_str()));
                                let mut fixed = block.copy();
                                fixed.set("tool_use_id", Json::text(id.as_str()));
                                rebuilt.push(fixed);
                            }
                        },
                    },
                }
                changed = true;
            }
        } else {
            rebuilt.push(block.copy());
        }
        i = i + 1;
    }
    assert(all.take(i as int) =~= all);
    (rebuilt, made, changed)
}

fn pair_messages(messages: &mut Vec<Json>) -> (changed: bool)
    ensures
        list_view(final(messages)@) == paired_messages(list_view(old(messages)@)).0,
        changed == paired_messages(list_view(old(messages)@)).2,
{
    let ghost before = list_view(messages@);
    let mut changed = false;
    let mut made: usize = 0;
    let mut i: usize = 0;
    let n: usize = messages.len();
    while i < n
        invariant
            i <= n,
            n == messages@.len(),
            n == before.len(),
            list_view(messages@) == paired_messages(before.take(i as int)).0 + before.skip(i as int),
            paired_messages(before.take(i as int)).0.len() == i,
            made == paired_messages(before.take(i as int)).1,
            changed == paired_messages(before.take(i as int)).2,
        decreases n - i,
    {
        let ghost now = list_view(messages@);
        let ghost done = paired_messages(before.take(i as int)).0;
        assert(before.take(i + 1).drop_last() =~= before.take(i as int));
        assert(before.skip(i as int)[0] == before[i as int]);
        assert(now[i as int] == before[i as int]);
        let repaired = match messages[i].array_at("content") {
            Some(blocks) => Some(pair_results(blocks, made)),
            None => None,
        };
        if let Some((rebuilt, count, one)) = repaired {
            made = count;
            if one {
                messages[i].set("content", Json::array(rebuilt));
                changed = true;
            }
        }
        i = i + 1;
        assert(list_view(messages@) =~= paired_messages(before.take(i as int)).0 + before.skip(i as int));
    }
    assert(before.take(i as int) =~= before);
    assert(list_view(messages@) =~= paired_messages(before).0);
    changed
}

/// Gives every search result of the history the call that it answers.
pub fn repair_web_search_result_pairing(body: &mut Json, rule_ids: &mut Vec<String>)
    ensures
        final(body)@ == search_paired_body(old(body)@).0,
        texts(final(rule_ids)@) == with_rule_if(
            texts(old(rule_ids)@),
            search_paired_body(old(body)@).1,
            RULE_PROVIDER_KIMI_WEB_SEARCH_RESULT_PAIRING_REPAIR@,
        ),
{
    let ghost before = body@;
    if let Some(value) = body.get_mut("messages") {
        if let Some(messages) = value.as_array_mut() {
            if pair_messages(messages) {
                append_rule(rule_ids, RULE_PROVIDER_KIMI_WEB_SEARCH_RESULT_PAIRING_REPAIR);
            }
        } else {
            proof {
                with_same_value(before, "messages"@);
            }
        }
    }
}

/// A body with the tools that a flavor takes: the body, the number of tools that went, the rules.
pub open spec fn flavored_tools(body: JsonV, flavor: RelayFlavor, rules: Seq<Seq<char>>) -> (
    JsonV,
    usize,
    Seq<Seq<char>>,
) {
    let (clean, rules1) = relay_tools_body(body, rules);
    match flavor {
        RelayFlavor::Kimi => under_policy(clean, AnthropicServerToolPolicy::Kimi, rules1),
        RelayFlavor::DeepSeek => under_policy(clean, AnthropicServerToolPolicy::DeepSeek, rules1),
        RelayFlavor::Generic => (clean, 0, rules1),
    }
}

fn filter_relay_server_tools(body: &mut Json, flavor: RelayFlavor, rule_ids: &mut Vec<String>) -> (outcome:
    ServerToolOutcome)
    ensures
        (final(body)@, outcome.dropped, texts(final(rule_ids)@)) == flavored_tools(
            old(body)@,
            flavor,
            texts(old(rule_ids)@),
        ),
{
    normalize_relay_tools(body, rule_ids);
    let policy = match flavor {
        RelayFlavor::Kimi => AnthropicServerToolPolicy::Kimi,
        RelayFlavor::DeepSeek => AnthropicServerToolPolicy::DeepSeek,
        RelayFlavor::Generic => {
            return ServerToolOutcome { dropped: 0 };
        },
    };
    apply_anthropic_server_tool_policy_with_outcome(body, policy, rule_ids)
}

/// The ids of a history under check: all calls seen, and those that still wait for an answer.
#[verifier::ext_equal]
pub struct HistoryV {
    pub seen: Set<Seq<char>>,
    pub pending: Set<Seq<char>>,
}

/// Whether a text can be a tool id or name.
pub open spec fn bounded_name(s: Option<Seq<char>>) -> bool {
    match s {
        Some(t) => t.len() > 0 && encode_utf8(t).len() <= MAX_TOOL_ID_BYTES,
        None => false,
    }
}

/// Why a block cannot stand in a turn, whatever stands before it: a call belongs into an assistant turn
/// and a result into a user turn, and each has what identifies it.
pub open spec fn block_fault(block: JsonV, assistant: bool) -> Option<Seq<char>> {
    let kind = block.text_at("type"@);
    if assistant {
        if kind == Some("tool_result"@) {
            Some("relay history tool_result must have the user role"@)
        } else if kind != Some("tool_use"@) {
            None
        } else if !bounded_name(block.text_at("id"@)) {
            Some("relay history tool_use id is invalid"@)
        } else if !bounded_name(block.text_at("name"@)) {
            Some("relay history tool_use name is invalid"@)
        } else if !is_object_at(block, "input"@) {
            Some("relay history tool_use input is invalid"@)
        } else {
            None
        }
    } else if kind == Some("tool_use"@) {
        Some("relay history tool_use must have the assistant role"@)
    } else if kind == Some("tool_result"@) && !bounded_name(block.text_at("tool_use_id"@)) {
        Some("relay history tool_result id is invalid"@)
    } else {
        None
    }
}

/// The first fault of blocks by themselves.
pub open spec fn blocks_fault(blocks: Seq<JsonV>, assistant: bool) -> Option<Seq<char>>
    decreases blocks.len(),
{
    if blocks.len() == 0 {
        None
    } else {
        match blocks_fault(blocks.drop_last(), assistant) {
            Some(e) => Some(e),
            None => block_fault(blocks.last(), assistant),
        }
    }
}

/// One block of an assistant turn: a call joins those seen and waiting.
pub open spec fn call_step(h: HistoryV, block: JsonV) -> Result<HistoryV, Seq<char>> {
    match block_fault(block, true) {
        Some(e) => Err(e),
        None => if block.text_at("type"@) != Some("tool_use"@) {
            Ok(h)
        } else if h.seen.contains(block.text_at("id"@).unwrap()) {
            Err("relay history contains a duplicate tool_use id"@)
        } else {
            let id = block.text_at("id"@).unwrap();
            Ok(HistoryV { seen: h.seen.insert(id), pending: h.pending.insert(id) })
        },
    }
}

/// The blocks of an assistant turn.
pub open spec fn calls_of(h: HistoryV, blocks: Seq<JsonV>) -> Result<HistoryV, Seq<char>>
    decreases blocks.len(),
{
    if blocks.len() == 0 {
        Ok(h)
    } else {
        match calls_of(h, blocks.drop_last()) {
            Err(e) => Err(e),
            Ok(before) => call_step(before, blocks.last()),
        }
    }
}

/// One block of a user turn: a result answers a call that waits, once.
pub open spec fn answer_step(pending: Set<Seq<char>>, answers: Set<Seq<char>>, block: JsonV) -> Result<
    Set<Seq<char>>,
    Seq<char>,
> {
    match block_fault(block, false) {
        Some(e) => Err(e),
        None => if block.text_at("type"@) != Some("tool_result"@) {
            Ok(answers)
        } else {
            let id = block.text_at("tool_use_id"@).unwrap();
            if !pending.contains(id) || answers.contains(id) {
                Err("relay history contains an orphan or duplicate tool_result"@)
            } else {
                Ok(answers.insert(id))
            }
        },
    }
}

/// The blocks of a user turn.
pub open spec fn answers_of(pending: Set<Seq<char>>, blocks: Seq<JsonV>) -> Result<Set<Seq<char>>, Seq<char>>
    decreases blocks.len(),
{
    if blocks.len() == 0 {
        Ok(Set::empty())
    } else {
        match answers_of(pending, blocks.drop_last()) {
            Err(e) => Err(e),
            Ok(before) => answer_step(pending, before, blocks.last()),
        }
    }
}

/// The blocks of a message.
pub open spec fn message_blocks(message: JsonV) -> Seq<JsonV> {
    match message.get("content"@) {
        Some(JsonV::Array(items)) => items,
        _ => Seq::empty(),
    }
}

pub open spec fn is_assistant(message: JsonV) -> bool {
    message.text_at("role"@) == Some("assistant"@)
}

/// Why a message cannot be sent, its blocks aside: its role, the kind of its content, and, where that is
/// `limited`, how many blocks it has.
pub open spec fn message_fault(message: JsonV, limited: bool) -> Option<Seq<char>> {
    let content = message.get("content"@);
    if message.text_at("role"@) != Some("user"@) && !is_assistant(message) {
        Some("relay history message role is invalid"@)
    } else if !(content is None || content.unwrap() is Array || content.unwrap() is Str || content.unwrap() is Null) {
        Some("relay history message content is invalid"@)
    } else if limited && message_blocks(message).len() > MAX_RELAY_HISTORY_BLOCKS {
        Some("relay history message has too many content blocks"@)
    } else {
        None
    }
}

/// The calls and results of one message.
pub open spec fn pairing_of(h: HistoryV, message: JsonV) -> Result<HistoryV, Seq<char>> {
    let blocks = message_blocks(message);
    if is_assistant(message) {
        if !h.pending.is_empty() {
            Err("relay history has unresolved tool calls before an assistant turn"@)
        } else {
            calls_of(h, blocks)
        }
    } else {
        match answers_of(h.pending, blocks) {
            Err(e) => Err(e),
            Ok(answers) => if answers != h.pending {
                Err("relay history has incomplete tool results"@)
            } else {
                Ok(HistoryV { pending: Set::empty(), ..h })
            },
        }
    }
}

/// One message of a history under check.
pub open spec fn history_step(h: HistoryV, message: JsonV, limited: bool) -> Result<HistoryV, Seq<char>> {
    match message_fault(message, limited) {
        Some(e) => Err(e),
        None => pairing_of(h, message),
    }
}

/// A history under check, message by message.
pub open spec fn history_of(messages: Seq<JsonV>, limited: bool) -> Result<HistoryV, Seq<char>>
    decreases messages.len(),
{
    if messages.len() == 0 {
        Ok(HistoryV { seen: Set::empty(), pending: Set::empty() })
    } else {
        match history_of(messages.drop_last(), limited) {
            Err(e) => Err(e),
            Ok(h) => history_step(h, messages.last(), limited),
        }
    }
}

/// The first fault of messages by themselves: a role, the kind of a content, a number of blocks, or a
/// block that cannot stand where it does.
pub open spec fn messages_fault(messages: Seq<JsonV>) -> Option<Seq<char>>
    decreases messages.len(),
{
    if messages.len() == 0 {
        None
    } else {
        match messages_fault(messages.drop_last()) {
            Some(e) => Some(e),
            None => match message_fault(messages.last(), true) {
                Some(e) => Some(e),
                None => blocks_fault(message_blocks(messages.last()), is_assistant(messages.last())),
            },
        }
    }
}

pub open spec fn needs_messages() -> Seq<char> {
    "request body must be a JSON object with a 'messages' array"@
}

/// Why a request's tool history cannot be sent, `None` where it can; `limited` tells whether the number of
/// blocks in a message counts.
pub open spec fn history_fault(body: JsonV, limited: bool) -> Option<Seq<char>> {
    match body.items_at("messages"@) {
        None => Some(needs_messages()),
        Some(messages) => match history_of(messages, limited) {
            Err(e) => Some(e),
            Ok(h) => if h.pending.is_empty() {
                None
            } else {
                Some("relay history ends with unresolved tool calls"@)
            },
        },
    }
}

proof fn calls_of_stays_err(h: HistoryV, blocks: Seq<JsonV>, i: int)
    requires
        0 <= i <= blocks.len(),
        calls_of(h, blocks.take(i)) is Err,
    ensures
        calls_of(h, blocks) == calls_of(h, blocks.take(i)),
    decreases blocks.len() - i,
{
    if i < blocks.len() {
        assert(blocks.take(i + 1).drop_last() =~= blocks.take(i));
        calls_of_stays_err(h, blocks, i + 1);
    } else {
        assert(blocks.take(i) =~= blocks);
    }
}

proof fn answers_of_stays_err(pending: Set<Seq<char>>, blocks: Seq<JsonV>, i: int)
    requires
        0 <= i <= blocks.len(),
        answers_of(pending, blocks.take(i)) is Err,
    ensures
        answers_of(pending, blocks) == answers_of(pending, blocks.take(i)),
    decreases blocks.len() - i,
{
    if i < blocks.len() {
        assert(blocks.take(i + 1).drop_last() =~= blocks.take(i));
        answers_of_stays_err(pending, blocks, i + 1);
    } else {
        assert(blocks.take(i) =~= blocks);
    }
}

proof fn history_of_stays_err(messages: Seq<JsonV>, limited: bool, i: int)
    requires
        0 <= i <= messages.len(),
        history_of(messages.take(i), limited) is Err,
    ensures
        history_of(messages, limited) == history_of(messages.take(i), limited),
    decreases messages.len() - i,
{
    if i < messages.len() {
        assert(messages.take(i + 1).drop_last() =~= messages.take(i));
        history_of_stays_err(messages, limited, i + 1);
    } else {
        assert(messages.take(i) =~= messages);
    }
}

proof fn blocks_fault_stays(blocks: Seq<JsonV>, assistant: bool, i: int)
    requires
        0 <= i <= blocks.len(),
        blocks_fault(blocks.take(i), assistant) is Some,
    ensures
        blocks_fault(blocks, assistant) == blocks_fault(blocks.take(i), assistant),
    decreases blocks.len() - i,
{
    if i < blocks.len() {
        assert(blocks.take(i + 1).drop_last() =~= blocks.take(i));
        blocks_fault_stays(blocks, assistant, i + 1);
    } else {
        assert(blocks.take(i) =~= blocks);
    }
}

proof fn messages_fault_stays(messages: Seq<JsonV>, i: int)
    requires
        0 <= i <= messages.len(),
        messages_fault(messages.take(i)) is Some,
    ensures
        messages_fault(messages) == messages_fault(messages.take(i)),
    decreases messages.len() - i,
{
    if i < messages.len() {
        assert(messages.take(i + 1).drop_last() =~= messages.take(i));
        messages_fault_stays(messages, i + 1);
    } else {
        assert(messages.take(i) =~= messages);
    }
}

fn bounded(s: Option<&str>) -> (yes: bool)
    ensures
        yes == bounded_name(opt_text(s)),
{
    match s {
        Some(t) => !t.is_empty() && byte_len(t) <= MAX_TOOL_ID_BYTES,
        None => false,
    }
}

fn check_block(block: &Json, assistant: bool) -> (fault: Option<&'static str>)
    ensures
        opt_text(fault) == block_fault(block@, assistant),
{
    if assistant {
        if block.has_text("type", "tool_result") {
            Some("relay history tool_result must have the user role")
        } else if !block.has_text("type", "tool_use") {
            None
        } else if !bounded(block.str_at("id")) {
            Some("relay history tool_use id is invalid")
        } else if !bounded(block.str_at("name")) {
            Some("relay history tool_use name is invalid")
        } else if !object_at(block, "input") {
            Some("relay history tool_use input is invalid")
        } else {
            None
        }
    } else if block.has_text("type", "tool_use") {
        Some("relay history tool_use must have the assistant role")
    } else if block.has_text("type", "tool_result") && !bounded(block.str_at("tool_use_id")) {
        Some("relay history tool_result id is invalid")
    } else {
        None
    }
}

fn check_blocks(blocks: &Vec<Json>, assistant: bool) -> (fault: Option<&'static str>)
    ensures
        opt_text(fault) == blocks_fault(list_view(blocks@), assistant),
{
    let ghost all = list_view(blocks@);
    let mut i: usize = 0;
    while i < blocks.len()
        invariant
            i <= blocks@.len(),
            all == list_view(blocks@),
            blocks_fault(all.take(i as int), assistant) is None,
        decreases blocks@.len() - i,
    {
        assert(all.take(i + 1).drop_last() =~= all.take(i as int));
        let fault = check_block(&blocks[i], assistant);
        if fault.is_some() {
            proof {
                blocks_fault_stays(all, assistant, i + 1);
            }
            return fault;
        }
        i = i + 1;
    }
    assert(all.take(i as int) =~= all);
    None
}

fn check_calls(blocks: &Vec<Json>, seen: &mut Vec<String>, pending: &mut Vec<String>) -> (fault: Option<&'static str>)
    ensures
        ({
            let h = HistoryV { seen: id_set(old(seen)@), pending: id_set(old(pending)@) };
            match fault {
                Some(e) => calls_of(h, list_view(blocks@)) == Err::<HistoryV, Seq<char>>(e@),
                None => calls_of(h, list_view(blocks@)) == Ok::<HistoryV, Seq<char>>(
                    HistoryV { seen: id_set(final(seen)@), pending: id_set(final(pending)@) },
                ),
            }
        }),
{
    let ghost all = list_view(blocks@);
    let ghost h = HistoryV { seen: id_set(seen@), pending: id_set(pending@) };
    let mut i: usize = 0;
    while i < blocks.len()
        invariant
            i <= blocks@.len(),
            all == list_view(blocks@),
            h == (HistoryV { seen: id_set(old(seen)@), pending: id_set(old(pending)@) }),
            calls_of(h, all.take(i as int)) == Ok::<HistoryV, Seq<char>>(
                HistoryV { seen: id_set(seen@), pending: id_set(pending@) },
            ),
        decreases blocks@.len() - i,
    {
        assert(all.take(i + 1).drop_last() =~= all.take(i as int));
        let block = &blocks[i];
        let mut fault = check_block(block, true);
        if fault.is_none() && block.has_text("type", "tool_use") {
            if let Some(id) = block.str_at("id") {
                if contains_text(seen, id) {
                    fault = Some("relay history contains a duplicate tool_use id");
                } else {
                    let one = id.to_owned();
                    let two = id.to_owned();
                    proof {
                        id_set_push(seen@, one);
                        id_set_push(pending@, two);
                    }
                    seen.push(one);
                    pending.push(two);
                }
            }
        }
        if fault.is_some() {
            proof {
                calls_of_stays_err(h, all, i + 1);
            }
            return fault;
        }
        i = i + 1;
    }
    assert(all.take(i as int) =~= all);
    None
}

fn check_answers(blocks: &Vec<Json>, pending: &Vec<String>) -> (out: Result<Vec<String>, &'static str>)
    ensures
        match out {
            Ok(answers) => answers_of(id_set(pending@), list_view(blocks@)) == Ok::<Set<Seq<char>>, Seq<char>>(
                id_set(answers@),
            ),
            Err(e) => answers_of(id_set(pending@), list_view(blocks@)) == Err::<Set<Seq<char>>, Seq<char>>(e@),
        },
{
    let ghost all = list_view(blocks@);
    let mut answers: Vec<String> = Vec::new();
    let mut i: usize = 0;
    proof {
        id_set_empty(answers@);
    }
    while i < blocks.len()
        invariant
            i <= blocks@.len(),
            all == list_view(blocks@),
            answers_of(id_set(pending@), all.take(i as int)) == Ok::<Set<Seq<char>>, Seq<char>>(id_set(answers@)),
        decreases blocks@.len() - i,
    {
        assert(all.take(i + 1).drop_last() =~= all.take(i as int));
        let block = &blocks[i];
        let mut fault = check_block(block, false);
        if fault.is_none() && block.has_text("type", "tool_result") {
            if let Some(id) = block.str_at("tool_use_id") {
                if !contains_text(pending, id) || contains_text(&answers, id) {
                    fault = Some("relay history contains an orphan or duplicate tool_result");
                } else {
                    let one = id.to_owned();
                    proof {
                        id_set_push(answers@, one);
                    }
                    answers.push(one);
                }
            }
        }
        if let Some(e) = fault {
            proof {
                answers_of_stays_err(id_set(pending@), all, i + 1);
            }
            return Err(e);
        }
        i = i + 1;
    }
    assert(all.take(i as int) =~= all);
    Ok(answers)
}

proof fn answers_are_pending(pending: Set<Seq<char>>, blocks: Seq<JsonV>)
    ensures
        answers_of(pending, blocks) matches Ok(answers) ==> answers.subset_of(pending),
    decreases blocks.len(),
{
    if blocks.len() > 0 {
        answers_are_pending(pending, blocks.drop_last());
    }
}

/// Whether every id of the first list is in the second.
fn all_answered(pending: &Vec<String>, answers: &Vec<String>) -> (yes: bool)
    ensures
        yes == id_set(pending@).subset_of(id_set(answers@)),
{
    let mut i: usize = 0;
    while i < pending.len()
        invariant
            i <= pending@.len(),
            forall|k: int| 0 <= k < i ==> texts(answers@).contains(#[trigger] texts(pending@)[k]),
        decreases pending@.len() - i,
    {
        if !contains_text(answers, pending[i].as_str()) {
            assert(texts(pending@)[i as int] == pending@[i as int]@);
            assert(id_set(pending@).contains(pending@[i as int]@));
            return false;
        }
        i = i + 1;
    }
    assert forall|x: Seq<char>| id_set(pending@).contains(x) implies id_set(answers@).contains(x) by {
        let k = choose|k: int| 0 <= k < texts(pending@).len() && texts(pending@)[k] == x;
        assert(texts(answers@).contains(texts(pending@)[k]));
    }
    true
}

fn check_message(message: &Json, limited: bool) -> (fault: Option<&'static str>)
    ensures
        opt_text(fault) == message_fault(message@, limited),
{
    if !message.has_text("role", "assistant") && !message.has_text("role", "user") {
        return Some("relay history message role is invalid");
    }
    match message.get("content") {
        Some(Json::Array(items)) => if limited && items.len() > MAX_RELAY_HISTORY_BLOCKS {
            Some("relay history message has too many content blocks")
        } else {
            None
        },
        Some(Json::Str(_)) => None,
        Some(Json::Null) => None,
        None => None,
        _ => Some("relay history message content is invalid"),
    }
}

fn check_pairing(message: &Json, seen: &mut Vec<String>, pending: &mut Vec<String>) -> (fault: Option<&'static str>)
    ensures
        ({
            let h = HistoryV { seen: id_set(old(seen)@), pending: id_set(old(pending)@) };
            match fault {
                Some(e) => pairing_of(h, message@) == Err::<HistoryV, Seq<char>>(e@),
                None => pairing_of(h, message@) == Ok::<HistoryV, Seq<char>>(
                    HistoryV { seen: id_set(final(seen)@), pending: id_set(final(pending)@) },
                ),
            }
        }),
{
    let assistant = message.has_text("role", "assistant");
    let none: Vec<Json> = Vec::new();
    assert(list_view(none@) =~= Seq::empty());
    let blocks = match message.get("content") {
        Some(Json::Array(items)) => items,
        _ => &none,
    };
    proof {
        id_set_empty(pending@);
    }
    if assistant {
        if pending.len() > 0 {
            return Some("relay history has unresolved tool calls before an assistant turn");
        }
        check_calls(blocks, seen, pending)
    } else {
        match check_answers(blocks, pending) {
            Err(e) => Some(e),
            Ok(answers) => {
                proof {
                    answers_are_pending(id_set(pending@), list_view(blocks@));
                }
                if !all_answered(pending, &answers) {
                    return Some("relay history has incomplete tool results");
                }
                assert(id_set(answers@) =~= id_set(pending@));
                *pending = Vec::new();
                proof {
                    id_set_empty(pending@);
                }
                None
            },
        }
    }
}

/// Checks that tool calls and results of a history pair up as the upstream asks.
pub fn validate_relay_tool_history(body: &Json) -> (checked: Result<(), String>)
    ensures
        match checked {
            Ok(()) => history_fault(body@, true) is None,
            Err(e) => history_fault(body@, true) == Some(e@),
        },
{
    check_history(body, true)
}

/// Checks the messages of a history by themselves: their roles, the kinds of their contents, how many
/// blocks they have and which blocks those are.
pub fn validate_relay_messages(body: &Json) -> (checked: Result<(), String>)
    ensures
        match (body@.items_at("messages"@), checked) {
            (None, Err(e)) => e@ == needs_messages(),
            (Some(messages), Ok(())) => messages_fault(messages) is None,
            (Some(messages), Err(e)) => messages_fault(messages) == Some(e@),
            _ => false,
        },
{
    let messages = match body.array_at("messages") {
        Some(messages) => messages,
        None => {
            return Err("request body must be a JSON object with a 'messages' array".to_owned());
        },
    };
    let ghost all = list_view(messages@);
    let none: Vec<Json> = Vec::new();
    assert(list_view(none@) =~= Seq::empty());
    let mut i: usize = 0;
    while i < messages.len()
        invariant
            i <= messages@.len(),
            all == list_view(messages@),
            list_view(none@) == Seq::<JsonV>::empty(),
            body@.get("messages"@) == Some(JsonV::Array(all)),
            messages_fault(all.take(i as int)) is None,
        decreases messages@.len() - i,
    {
        assert(all.take(i + 1).drop_last() =~= all.take(i as int));
        let message = &messages[i];
        let fault = match check_message(message, true) {
            Some(e) => Some(e),
            None => {
                let blocks = match message.get("content") {
                    Some(Json::Array(items)) => items,
                    _ => &none,
                };
                check_blocks(blocks, message.has_text("role", "assistant"))
            },
        };
        if let Some(e) = fault {
            proof {
                messages_fault_stays(all, i + 1);
            }
            return Err(e.to_owned());
        }
        i = i + 1;
    }
    assert(all.take(i as int) =~= all);
    Ok(())
}

fn check_history(body: &Json, limited: bool) -> (checked: Result<(), String>)
    ensures
        match checked {
            Ok(()) => history_fault(body@, limited) is None,
            Err(e) => history_fault(body@, limited) == Some(e@),
        },
{
    let messages = match body.array_at("messages") {
        Some(messages) => messages,
        None => {
            return Err("request body must be a JSON object with a 'messages' array".to_owned());
        },
    };
    let ghost all = list_view(messages@);
    let mut seen: Vec<String> = Vec::new();
    let mut pending: Vec<String> = Vec::new();
    proof {
        id_set_empty(seen@);
        id_set_empty(pending@);
    }
    let mut i: usize = 0;
    while i < messages.len()
        invariant
            i <= messages@.len(),
            all == list_view(messages@),
            body@.get("messages"@) == Some(JsonV::Array(all)),
            history_of(all.take(i as int), limited) == Ok::<HistoryV, Seq<char>>(
                HistoryV { seen: id_set(seen@), pending: id_set(pending@) },
            ),
        decreases messages@.len() - i,
    {
        assert(all.take(i + 1).drop_last() =~= all.take(i as int));
        let fault = match check_message(&messages[i], limited) {
            Some(e) => Some(e),
            None => check_pairing(&messages[i], &mut seen, &mut pending),
        };
        if let Some(e) = fault {
            proof {
                history_of_stays_err(all, limited, i + 1);
            }
            return Err(e.to_owned());
        }
        i = i + 1;
    }
    assert(all.take(i as int) =~= all);
    proof {
        id_set_empty(pending@);
    }
    if pending.len() > 0 {
        return Err("relay history ends with unresolved tool calls".to_owned());
    }
    Ok(())
}

/// What the repairs of one flavor make of a request: the body and the rules.
pub open spec fn flavored_history(body: JsonV, flavor: RelayFlavor, model: Seq<char>) -> (JsonV, Seq<Seq<char>>) {
    if flavor == RelayFlavor::Kimi {
        let (ordered, moved) = reordered_body(body);
        let (noted, count) = noted_body(ordered);
        let (paired, changed) = search_paired_body(noted);
        let rules1 = with_rule_if(Seq::empty(), moved, RULE_PROVIDER_KIMI_SCIENCE_CONTEXT_TAIL_REORDER@);
        let rules2 = with_rule_if(rules1, count > 0, RULE_PROVIDER_KIMI_DOCUMENT_PLACEHOLDER@);
        (paired, with_rule_if(rules2, changed, RULE_PROVIDER_KIMI_WEB_SEARCH_RESULT_PAIRING_REPAIR@))
    } else if flavor == RelayFlavor::DeepSeek {
        normalized(body, model, Seq::empty())
    } else {
        (body, Seq::empty())
    }
}

/// What a flavor and a thinking policy make of a request: the body and the rules. The repairs for
/// DeepSeek have seen to its thinking already.
pub open spec fn flavored_thinking(
    body: JsonV,
    flavor: RelayFlavor,
    policy: Option<Seq<char>>,
    rules: Seq<Seq<char>>,
) -> (JsonV, Seq<Seq<char>>) {
    if flavor == RelayFlavor::DeepSeek {
        (body, rules)
    } else if policy == Some("upstream_default"@) {
        default_thinking(body, rules)
    } else {
        (relay_thinking_body(body, policy), rules)
    }
}

/// Why a history cannot be sent, from the request as it came and as its repairs left it. The repairs for
/// DeepSeek see to calls without results and results without calls; for everything else its history is
/// judged as it came.
pub open spec fn relay_fault(body: JsonV, repaired: JsonV, flavor: RelayFlavor) -> Option<Seq<char>> {
    if flavor == RelayFlavor::DeepSeek {
        match messages_fault(body.items_at("messages"@).unwrap()) {
            Some(e) => Some(e),
            None => history_fault(repaired, false),
        }
    } else {
        history_fault(repaired, true)
    }
}

/// A relayed request: the body, the number of server tools that went, and the rules; or why the
/// request cannot be sent.
pub open spec fn relayed(
    body: JsonV,
    model: Seq<char>,
    policy: Option<Seq<char>>,
    contract: Option<Seq<char>>,
) -> Result<(JsonV, usize, Seq<Seq<char>>), Seq<char>> {
    if body.items_at("messages"@) is None {
        Err(needs_messages())
    } else if model.len() == 0 {
        Err("resolved upstream model is required"@)
    } else {
        let flavor = flavor_of(contract, model);
        let (repaired, rules1) = flavored_history(body.with("model"@, JsonV::Str(model)), flavor, model);
        match relay_fault(body, repaired, flavor) {
            Some(e) => Err(e),
            None => {
                let (thought, rules2) = flavored_thinking(repaired, flavor, policy, rules1);
                Ok(flavored_tools(thought, flavor, rules2))
            },
        }
    }
}

pub open spec fn is_relayed(
    out: Result<(Json, AnthropicMetadata), String>,
    body: JsonV,
    model: Seq<char>,
    policy: Option<Seq<char>>,
    contract: Option<Seq<char>>,
) -> bool {
    match (out, relayed(body, model, policy, contract)) {
        (Ok((sent, metadata)), Ok((tree, dropped, rules))) => {
            &&& sent@ == tree
            &&& metadata.target_model@ == model
            &&& metadata.flavor == flavor_of(contract, model)
            &&& metadata.dropped_server_tools == dropped
            &&& texts(metadata.rule_ids@) == rules
        },
        (Err(e), Err(reason)) => e@ == reason,
        _ => false,
    }
}

/// The outline of a request on its way to Kimi, as it is before its search results are paired.
pub open spec fn relayed_skeleton(body: JsonV, model: Seq<char>, contract: Option<Seq<char>>) -> Option<Seq<char>> {
    if body.items_at("messages"@) is Some && model.len() > 0 && flavor_of(contract, model) == RelayFlavor::Kimi {
        skeleton_line(noted_body(reordered_body(body.with("model"@, JsonV::Str(model))).0).0)
    } else {
        None
    }
}

/// Outlines a request on its way to Kimi.
pub fn relay_skeleton(body: &Json, target_model: &str, provider_contract_id: Option<&str>) -> (line: Option<String>)
    ensures
        match line {
            Some(l) => relayed_skeleton(body@, target_model@, opt_text(provider_contract_id)) == Some(l@),
            None => relayed_skeleton(body@, target_model@, opt_text(provider_contract_id)) is None,
        },
{
    if body.array_at("messages").is_none() || target_model.is_empty() {
        return None;
    }
    if RelayFlavor::detect(provider_contract_id, target_model) != RelayFlavor::Kimi {
        return None;
    }
    let mut body = body.copy();
    let mut rule_ids: Vec<String> = Vec::new();
    body.set("model", Json::text(target_model));
    reorder_science_context_before_user_intent(&mut body, &mut rule_ids);
    let _ = replace_kimi_document_blocks(&mut body, &mut rule_ids);
    debug_tool_skeleton(&body)
}

/// Transforms a request for an upstream without a bound provider contract.
pub fn transform_relay_request(body: Json, target_model: &str, relay_thinking: Option<&str>) -> (out: Result<
    (Json, AnthropicMetadata),
    String,
>)
    ensures
        is_relayed(out, body@, target_model@, opt_text(relay_thinking), None),
{
    transform_relay_request_for_contract(body, target_model, relay_thinking, None)
}

/// Transforms a request for an upstream: sets the model, repairs the history where the flavor asks
/// for it, checks it, and fits thinking and tools to what the upstream takes.
pub fn transform_relay_request_for_contract(
    body: Json,
    target_model: &str,
    relay_thinking: Option<&str>,
    provider_contract_id: Option<&str>,
) -> (out: Result<(Json, AnthropicMetadata), String>)
    ensures
        is_relayed(out, body@, target_model@, opt_text(relay_thinking), opt_text(provider_contract_id)),
{
    let mut body = body;
    if body.array_at("messages").is_none() {
        return Err("request body must be a JSON object with a 'messages' array".to_owned());
    }
    if target_model.is_empty() {
        return Err("resolved upstream model is required".to_owned());
    }
    let flavor = RelayFlavor::detect(provider_contract_id, target_model);
    let mut rule_ids: Vec<String> = Vec::new();
    if flavor == RelayFlavor::DeepSeek {
        match validate_relay_messages(&body) {
            Err(e) => {
                return Err(e);
            },
            Ok(()) => {},
        }
    }
    body.set("model", Json::text(target_model));
    if flavor == RelayFlavor::Kimi {
        reorder_science_context_before_user_intent(&mut body, &mut rule_ids);
        let _ = replace_kimi_document_blocks(&mut body, &mut rule_ids);
        repair_web_search_result_pairing(&mut body, &mut rule_ids);
    } else if flavor == RelayFlavor::DeepSeek {
        normalize_request(&mut body, target_model, &mut rule_ids);
    }
    let checked = if flavor == RelayFlavor::DeepSeek {
        check_history(&body, false)
    } else {
        validate_relay_tool_history(&body)
    };
    match checked {
        Err(e) => {
            return Err(e);
        },
        Ok(()) => {},
    }
    if flavor != RelayFlavor::DeepSeek {
        if same_opt(relay_thinking, "upstream_default") {
            normalize_upstream_default_thinking(&mut body, &mut rule_ids);
        } else {
            normalize_relay_thinking(&mut body, relay_thinking);
        }
    }
    let server_tools = filter_relay_server_tools(&mut body, flavor, &mut rule_ids);
    Ok(
        (
            body,
            AnthropicMetadata {
                target_model: target_model.to_owned(),
                rule_ids,
                flavor,
                dropped_server_tools: server_tools.dropped,
            },
        ),
    )
}

} // verus!
