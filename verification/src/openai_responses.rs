//! Mapping between the Anthropic messages protocol and the OpenAI responses protocol.
use crate::anthropic_compat::{is_object_at, needs_messages, open_schema, opt_tree, type_only, typed_object};
use crate::deepseek_compat::{append_rule, item_texts, with_rule_if};
use crate::json::{Json, JsonV, NumberV};
use crate::json_model::{group_json_views, json_parse, list_view, rendered, text_block};
use crate::text::{byte_len, chars_of, contains_char, group_texts, join, joined, lowered, same, text_of, texts, to_lower};
use crate::tool_schema::{arguments_check, tool_arguments_match_schema, Check, QuotientTest};
use crate::text::opt_text;
use crate::upstream_url::{parse_parts, url_origin};
use vstd::prelude::*;
use vstd::utf8::{encode_utf8, is_ascii_chars};

verus! {

broadcast use {group_json_views, group_texts};

pub const DEFAULT_RESPONSES_CAP: u64 = 65_536;

pub const DASHSCOPE_RESPONSES_TOOLS_CAP: u64 = 8_192;

pub const MAX_TOOL_ARGUMENT_BYTES: usize = 1_048_576;

pub const TOOL_ARGUMENT_PROTOCOL_ERROR: &'static str = "upstream tool arguments failed the declared input schema";

pub const RULE_PROVIDER_DASHSCOPE_RESPONSES_TOOLS_CAP: &'static str = "provider.dashscope.responses-tools-cap";

pub const RULE_TOOL_DASHSCOPE_RESPONSES_WEB_SEARCH_DROP: &'static str = "tool.dashscope.responses.web_search-drop";

#[derive(Debug, Clone, PartialEq, Eq)]
pub struct ResponsesMetadata {
    pub rule_ids: Vec<String>,
}

/// The place of the first `://`, or the length of the text.
pub open spec fn scheme_end(s: Seq<char>) -> int
    decreases s.len(),
{
    if s.len() == 0 || crate::text::stands_at(s, "://"@, 0) {
        0
    } else {
        1 + scheme_end(s.drop_first())
    }
}

/// Whether a character ends the authority of a URL.
pub open spec fn ends_authority(c: char) -> bool {
    c == '/' || c == '?' || c == '#'
}

/// What stands before the first character that ends the authority.
pub open spec fn authority_of(s: Seq<char>) -> Seq<char>
    decreases s.len(),
{
    if s.len() == 0 || ends_authority(s[0]) {
        Seq::empty()
    } else {
        seq![s[0]] + authority_of(s.drop_first())
    }
}

/// Whether an authority names a host alone, in ASCII.
pub open spec fn plain_authority(authority: Seq<char>) -> bool {
    authority.len() > 0 && is_ascii_chars(authority) && !authority.contains('@')
}

/// A host name without the dot at its end.
pub open spec fn without_dot(host: Seq<char>) -> Seq<char> {
    if host.len() > 0 && host.last() == '.' {
        host.drop_last()
    } else {
        host
    }
}

/// Whether a URL leads to DashScope, given its scheme and host.
pub open spec fn is_dashscope_origin(origin: Option<(Seq<char>, Option<Seq<char>>)>) -> bool {
    match origin {
        Some((scheme, Some(host))) => (scheme == "http"@ || scheme == "https"@) && lowered(without_dot(host))
            == "dashscope.aliyuncs.com"@,
        _ => false,
    }
}

/// Whether the authority of a URL is written as a plain host.
pub open spec fn has_plain_authority(url: Seq<char>) -> bool {
    let at = scheme_end(url);
    at < url.len() && plain_authority(authority_of(url.skip(at + 3)))
}

fn find_scheme_end(chars: &Vec<char>) -> (at: usize)
    ensures
        at == scheme_end(chars@),
        at <= chars@.len(),
        at < chars@.len() ==> at + 3 <= chars@.len(),
{
    let mark = chars_of("://");
    proof {
        reveal_strlit("://");
    }
    let n: usize = chars.len();
    let mut i: usize = 0;
    assert(chars@.skip(0) =~= chars@);
    while i < n
        invariant
            i <= n,
            n == chars@.len(),
            mark@ == "://"@,
            "://"@.len() == 3,
            scheme_end(chars@) == i + scheme_end(chars@.skip(i as int)),
        decreases n - i,
    {
        let ghost tail = chars@.skip(i as int);
        assert(crate::text::stands_at(chars@, "://"@, i as int) == crate::text::stands_at(tail, "://"@, 0)) by {
            if i + 3 <= n {
                assert(chars@.subrange(i as int, i + 3) =~= tail.subrange(0, 3));
            }
        }
        if crate::text::chars_at(chars, &mark, i) {
            return i;
        }
        assert(tail.drop_first() =~= chars@.skip(i + 1));
        i = i + 1;
    }
    i
}

fn read_authority(chars: &Vec<char>, from: usize) -> (authority: String)
    requires
        from <= chars@.len(),
    ensures
        authority@ == authority_of(chars@.skip(from as int)),
{
    let ghost rest = chars@.skip(from as int);
    let n: usize = chars.len();
    let mut i: usize = from;
    let mut seen = String::new();
    assert(seen@ + authority_of(rest) =~= authority_of(rest));
    while i < n && chars[i] != '/' && chars[i] != '?' && chars[i] != '#'
        invariant
            from <= i <= n,
            n == chars@.len(),
            authority_of(rest) == seen@ + authority_of(chars@.skip(i as int)),
        decreases n - i,
    {
        let ghost tail = chars@.skip(i as int);
        let ghost was = seen@;
        seen.push(chars[i]);
        assert(tail[0] == chars@[i as int]);
        assert(tail.drop_first() =~= chars@.skip(i + 1));
        assert(was + (seq![tail[0]] + authority_of(tail.drop_first())) =~= seen@ + authority_of(tail.drop_first()));
        i = i + 1;
    }
    assert(authority_of(chars@.skip(i as int)) =~= Seq::empty()) by {
        if i < n {
            assert(chars@.skip(i as int)[0] == chars@[i as int]);
        }
    }
    assert(seen@ + Seq::<char>::empty() =~= seen@);
    seen
}

/// Whether a scheme and a host are those of DashScope.
pub fn origin_is_dashscope(scheme: &str, host: Option<&str>) -> (yes: bool)
    ensures
        yes == is_dashscope_origin(Some((scheme@, opt_text(host)))),
{
    if !same(scheme, "http") && !same(scheme, "https") {
        return false;
    }
    match host {
        Some(host) => {
            let letters = chars_of(host);
            let n: usize = letters.len();
            let end: usize = if n > 0 && letters[n - 1] == '.' {
                n - 1
            } else {
                n
            };
            let name = text_of(&letters, 0, end);
            assert(name@ =~= without_dot(host@));
            same(to_lower(name.as_str()).as_str(), "dashscope.aliyuncs.com")
        },
        None => false,
    }
}

/// Whether a provider's upstream is DashScope's endpoint for the responses protocol.
pub fn is_dashscope_responses_endpoint(provider: &str, upstream_url: &str) -> (yes: bool)
    ensures
        yes == (provider@ == "openai-responses"@ && has_plain_authority(upstream_url@) && is_dashscope_origin(
            url_origin(upstream_url@),
        )),
{
    if !same(provider, "openai-responses") {
        return false;
    }
    let chars = chars_of(upstream_url);
    let at = find_scheme_end(&chars);
    if at == chars.len() {
        return false;
    }
    let authority = read_authority(&chars, at + 3);
    if authority.as_str().is_empty() || !authority.as_str().is_ascii() || contains_char(authority.as_str(), '@') {
        return false;
    }
    match parse_parts(upstream_url) {
        Some(parts) => origin_is_dashscope(
            parts.scheme.as_str(),
            match &parts.host {
                Some(host) => Some(host.as_str()),
                None => None,
            },
        ),
        None => false,
    }
}

/// A compact JSON text on its way to one with a space after each `:` and `,` outside strings.
pub struct SpacedV {
    pub out: Seq<char>,
    pub in_string: bool,
    pub escaped: bool,
}

pub open spec fn spaced_step(s: SpacedV, c: char) -> SpacedV {
    let out = s.out.push(c);
    if s.in_string {
        if s.escaped {
            SpacedV { out, in_string: true, escaped: false }
        } else if c == '\\' {
            SpacedV { out, in_string: true, escaped: true }
        } else {
            SpacedV { out, in_string: c != '"', escaped: false }
        }
    } else if c == '"' {
        SpacedV { out, in_string: true, escaped: s.escaped }
    } else if c == ':' || c == ',' {
        SpacedV { out: out.push(' '), in_string: false, escaped: s.escaped }
    } else {
        SpacedV { out, in_string: false, escaped: s.escaped }
    }
}

pub open spec fn spaced(text: Seq<char>) -> SpacedV
    decreases text.len(),
{
    if text.len() == 0 {
        SpacedV { out: Seq::empty(), in_string: false, escaped: false }
    } else {
        spaced_step(spaced(text.drop_last()), text.last())
    }
}

/// The text of a value with a space after each `:` and `,`.
pub open spec fn spaced_json(value: JsonV) -> Seq<char> {
    spaced(rendered(value)).out
}

/// Writes a value with a space after each `:` and `,`.
pub fn json_dumps_python_style(value: &Json) -> (out: String)
    ensures
        out@ == spaced_json(value@),
{
    python_spacing(value.render().as_str())
}

/// Puts a space after each `:` and `,` outside the strings of a compact JSON text.
pub fn python_spacing(compact: &str) -> (out: String)
    ensures
        out@ == spaced(compact@).out,
{
    let ghost all = compact@;
    let mut out = String::new();
    let mut in_string = false;
    let mut escaped = false;
    for c in it: compact.chars()
        invariant
            it.seq() == all,
            ({
                let s = spaced(all.take(it.index()));
                s.out == out@ && s.in_string == in_string && s.escaped == escaped
            }),
    {
        assert(all.take(it.index() + 1).drop_last() =~= all.take(it.index()));
        out.push(c);
        if in_string {
            if escaped {
                escaped = false;
            } else if c == '\\' {
                escaped = true;
            } else if c == '"' {
                in_string = false;
            }
        } else if c == '"' {
            in_string = true;
        } else if c == ':' || c == ',' {
            out.push(' ');
        }
    }
    assert(all.take(all.len() as int) =~= all);
    out
}

fn texts_of_items(items: &Vec<Json>) -> (parts: Vec<String>)
    ensures
        texts(parts@) == item_texts(list_view(items@)),
{
    let ghost all = list_view(items@);
    let mut parts: Vec<String> = Vec::new();
    let mut i: usize = 0;
    while i < items.len()
        invariant
            i <= items@.len(),
            all == list_view(items@),
            texts(parts@) == item_texts(all.take(i as int)),
        decreases items@.len() - i,
    {
        assert(all.take(i + 1).drop_last() =~= all.take(i as int));
        if let Some(part) = items[i].str_at("text") {
            parts.push(part.to_owned());
        }
        i = i + 1;
    }
    assert(all.take(i as int) =~= all);
    parts
}

/// The text of a tool result's content.
pub open spec fn content_text(value: Option<JsonV>) -> Seq<char> {
    match value {
        Some(JsonV::Str(s)) => s,
        Some(JsonV::Array(items)) => joined(item_texts(items), ""@),
        Some(other) => spaced_json(other),
        None => Seq::empty(),
    }
}

fn as_text(value: Option<&Json>) -> (text: String)
    ensures
        text@ == content_text(opt_tree(value)),
{
    match value {
        Some(v) => match v {
            Json::Str(s) => s.clone(),
            Json::Array(items) => {
                assert(v@ == JsonV::Array(list_view(items@)));
                join(&texts_of_items(items), "")
            },
            _ => json_dumps_python_style(v),
        },
        None => String::new(),
    }
}

/// The system prompt, `None` where it is empty.
pub open spec fn prompt_of(system: Option<JsonV>) -> Option<Seq<char>> {
    let prompt = match system {
        Some(JsonV::Str(s)) => s,
        Some(JsonV::Array(items)) => joined(item_texts(items), "\n"@),
        _ => Seq::empty(),
    };
    if prompt.len() == 0 {
        None
    } else {
        Some(prompt)
    }
}

fn system_prompt(system: Option<&Json>) -> (prompt: Option<String>)
    ensures
        match prompt {
            Some(p) => prompt_of(opt_tree(system)) == Some(p@),
            None => prompt_of(opt_tree(system)) is None,
        },
{
    let prompt = match system {
        Some(v) => match v {
            Json::Str(s) => s.clone(),
            Json::Array(items) => {
                assert(v@ == JsonV::Array(list_view(items@)));
                join(&texts_of_items(items), "\n")
            },
            _ => String::new(),
        },
        None => String::new(),
    };
    if prompt.as_str().is_empty() {
        None
    } else {
        Some(prompt)
    }
}

/// A tool's parameters: an object schema with properties.
pub open spec fn parameters_of(schema: Option<JsonV>) -> JsonV {
    match schema {
        Some(JsonV::Object(entries)) => {
            let given = JsonV::Object(entries);
            let named = if given.get("properties"@) is Some && given.get("type"@) is None {
                given.with("type"@, JsonV::Str("object"@))
            } else {
                given
            };
            if named.text_at("type"@) != Some("object"@) {
                open_schema()
            } else if is_object_at(named, "properties"@) {
                named
            } else {
                named.with("properties"@, JsonV::object())
            }
        },
        _ => open_schema(),
    }
}

fn open_parameters() -> (tree: Json)
    ensures
        tree@ == open_schema(),
{
    typed_object("object").and("properties", Json::object())
}

fn normalize_tool_parameters(schema: Option<&Json>) -> (out: Json)
    ensures
        out@ == parameters_of(opt_tree(schema)),
{
    match schema {
        Some(given) => {
            if !given.is_object() {
                return open_parameters();
            }
            let mut out = given.copy();
            if out.get("properties").is_some() && out.get("type").is_none() {
                out.set("type", Json::text("object"));
            }
            if !out.has_text("type", "object") {
                return open_parameters();
            }
            let has_properties = match out.get("properties") {
                Some(p) => p.is_object(),
                None => false,
            };
            if !has_properties {
                out.set("properties", Json::object());
            }
            out
        },
        None => open_parameters(),
    }
}

/// A tool as a function declaration.
pub open spec fn function_of(tool: JsonV, name: Seq<char>) -> JsonV {
    let description = match tool.text_at("description"@) {
        Some(d) => d,
        None => ""@,
    };
    type_only("function"@).and("name"@, JsonV::Str(name)).and("description"@, JsonV::Str(description)).and(
        "parameters"@,
        parameters_of(tool.get("input_schema"@)),
    )
}

/// The declarations of the tools that have a name, and whether a web search tool was left out.
pub open spec fn functions_of(tools: Seq<JsonV>, is_dashscope: bool) -> (Seq<JsonV>, bool)
    decreases tools.len(),
{
    if tools.len() == 0 {
        (Seq::empty(), false)
    } else {
        let (before, left_out) = functions_of(tools.drop_last(), is_dashscope);
        match tools.last().text_at("name"@) {
            None => (before, left_out),
            Some(name) => if is_dashscope && name == "web_search"@ {
                (before, true)
            } else {
                (before.push(function_of(tools.last(), name)), left_out)
            },
        }
    }
}

pub open spec fn tools_of(tools: Option<JsonV>) -> Seq<JsonV> {
    match tools {
        Some(JsonV::Array(items)) => items,
        _ => Seq::empty(),
    }
}

fn map_tools(tools: Option<&Json>, is_dashscope: bool, rule_ids: &mut Vec<String>) -> (out: Vec<Json>)
    ensures
        list_view(out@) == functions_of(tools_of(opt_tree(tools)), is_dashscope).0,
        texts(final(rule_ids)@) == with_rule_if(
            texts(old(rule_ids)@),
            functions_of(tools_of(opt_tree(tools)), is_dashscope).1,
            RULE_TOOL_DASHSCOPE_RESPONSES_WEB_SEARCH_DROP@,
        ),
{
    let none: Vec<Json> = Vec::new();
    assert(list_view(none@) =~= Seq::empty());
    let items = match tools {
        Some(v) => match v.as_array() {
            Some(items) => items,
            None => &none,
        },
        None => &none,
    };
    let ghost all = list_view(items@);
    let mut out: Vec<Json> = Vec::new();
    let mut left_out = false;
    let mut i: usize = 0;
    while i < items.len()
        invariant
            i <= items@.len(),
            all == list_view(items@),
            list_view(out@) == functions_of(all.take(i as int), is_dashscope).0,
            left_out == functions_of(all.take(i as int), is_dashscope).1,
        decreases items@.len() - i,
    {
        assert(all.take(i + 1).drop_last() =~= all.take(i as int));
        let tool = &items[i];
        if let Some(name) = tool.str_at("name") {
            if is_dashscope && same(name, "web_search") {
                left_out = true;
            } else {
                let description = match tool.str_at("description") {
                    Some(d) => d,
                    None => "",
                };
                let parameters = normalize_tool_parameters(tool.get("input_schema"));
                out.push(
                    typed_object("function").and("name", Json::text(name)).and("description", Json::text(description)).and(
                        "parameters",
                        parameters,
                    ),
                );
            }
        }
        i = i + 1;
    }
    assert(all.take(i as int) =~= all);
    if left_out {
        append_rule(rule_ids, RULE_TOOL_DASHSCOPE_RESPONSES_WEB_SEARCH_DROP);
    }
    out
}

/// The tool choice: `auto` or `none` as asked for, `auto` where there are tools.
pub open spec fn choice_of(tool_choice: Option<JsonV>, has_tools: bool) -> Option<Seq<char>> {
    let kind = match tool_choice {
        Some(JsonV::Str(s)) => Some(s),
        Some(other) => other.text_at("type"@),
        None => None,
    };
    if kind == Some("auto"@) {
        Some("auto"@)
    } else if kind == Some("none"@) {
        Some("none"@)
    } else if has_tools {
        Some("auto"@)
    } else {
        None
    }
}

fn map_tool_choice(tool_choice: Option<&Json>, has_tools: bool) -> (choice: Option<&'static str>)
    ensures
        match choice {
            Some(c) => choice_of(opt_tree(tool_choice), has_tools) == Some(c@),
            None => choice_of(opt_tree(tool_choice), has_tools) is None,
        },
{
    let kind = match tool_choice {
        Some(v) => match v.as_str() {
            Some(s) => Some(s),
            None => v.str_at("type"),
        },
        None => None,
    };
    if let Some(k) = kind {
        if same(k, "auto") {
            return Some("auto");
        }
        if same(k, "none") {
            return Some("none");
        }
    }
    if has_tools {
        Some("auto")
    } else {
        None
    }
}

pub open spec fn min_u64(a: u64, b: u64) -> u64 {
    if a <= b {
        a
    } else {
        b
    }
}

/// The token limit of the response.
pub open spec fn output_limit(value: Option<u64>, has_tools: bool, is_dashscope: bool) -> Option<u64> {
    match value {
        None => None,
        Some(v) => if has_tools && is_dashscope {
            Some(min_u64(min_u64(v, DEFAULT_RESPONSES_CAP), DASHSCOPE_RESPONSES_TOOLS_CAP))
        } else {
            Some(min_u64(v, DEFAULT_RESPONSES_CAP))
        },
    }
}

fn smaller(a: u64, b: u64) -> (m: u64)
    ensures
        m == min_u64(a, b),
{
    if a <= b {
        a
    } else {
        b
    }
}

fn max_output_tokens(value: Option<u64>, has_tools: bool, is_dashscope: bool, rule_ids: &mut Vec<String>) -> (limit: Option<
    u64,
>)
    ensures
        limit == output_limit(value, has_tools, is_dashscope),
        texts(final(rule_ids)@) == with_rule_if(
            texts(old(rule_ids)@),
            value is Some && has_tools && is_dashscope,
            RULE_PROVIDER_DASHSCOPE_RESPONSES_TOOLS_CAP@,
        ),
{
    match value {
        None => None,
        Some(v) => {
            let capped = smaller(v, DEFAULT_RESPONSES_CAP);
            if has_tools && is_dashscope {
                append_rule(rule_ids, RULE_PROVIDER_DASHSCOPE_RESPONSES_TOOLS_CAP);
                Some(smaller(capped, DASHSCOPE_RESPONSES_TOOLS_CAP))
            } else {
                Some(capped)
            }
        },
    }
}

/// A message of one role.
pub open spec fn said(role: JsonV, text: Seq<char>) -> JsonV {
    JsonV::object().and("role"@, role).and("content"@, JsonV::Str(text))
}

pub open spec fn or_null(value: Option<JsonV>) -> JsonV {
    match value {
        Some(v) => v,
        None => JsonV::Null,
    }
}

/// The items of a message so far, and the texts that wait to be said together.
#[verifier::ext_equal]
pub struct ItemsV {
    pub items: Seq<JsonV>,
    pub waiting: Seq<Seq<char>>,
}

/// Says what waits.
pub open spec fn flushed(s: ItemsV, role: JsonV) -> ItemsV {
    if s.waiting.len() == 0 {
        s
    } else {
        ItemsV { items: s.items.push(said(role, joined(s.waiting, ""@))), waiting: Seq::empty() }
    }
}

pub open spec fn call_item(block: JsonV) -> JsonV {
    let input = match block.get("input"@) {
        Some(v) => v,
        None => JsonV::object(),
    };
    type_only("function_call"@).and("call_id"@, or_null(block.get("id"@))).and(
        "name"@,
        or_null(block.get("name"@)),
    ).and("arguments"@, JsonV::Str(spaced_json(input)))
}

pub open spec fn output_item(block: JsonV) -> JsonV {
    type_only("function_call_output"@).and("call_id"@, or_null(block.get("tool_use_id"@))).and(
        "output"@,
        JsonV::Str(content_text(block.get("content"@))),
    )
}

pub open spec fn item_step(s: ItemsV, block: JsonV, role: JsonV) -> ItemsV {
    let kind = block.text_at("type"@);
    if kind == Some("text"@) {
        let text = match block.text_at("text"@) {
            Some(t) => t,
            None => ""@,
        };
        ItemsV { waiting: s.waiting.push(text), ..s }
    } else if kind == Some("tool_use"@) {
        let f = flushed(s, role);
        ItemsV { items: f.items.push(call_item(block)), ..f }
    } else if kind == Some("tool_result"@) {
        let f = flushed(s, role);
        ItemsV { items: f.items.push(output_item(block)), ..f }
    } else {
        s
    }
}

pub open spec fn items_of_blocks(blocks: Seq<JsonV>, role: JsonV) -> ItemsV
    decreases blocks.len(),
{
    if blocks.len() == 0 {
        ItemsV { items: Seq::empty(), waiting: Seq::empty() }
    } else {
        item_step(items_of_blocks(blocks.drop_last(), role), blocks.last(), role)
    }
}

/// The items that a message becomes.
pub open spec fn items_of_message(message: JsonV) -> Seq<JsonV> {
    let role = or_null(message.get("role"@));
    match message.get("content"@) {
        Some(JsonV::Str(text)) => seq![said(role, text)],
        Some(JsonV::Array(blocks)) => flushed(items_of_blocks(blocks, role), role).items,
        _ => Seq::empty(),
    }
}

/// The items that messages become.
pub open spec fn items_of_messages(messages: Seq<JsonV>) -> Seq<JsonV>
    decreases messages.len(),
{
    if messages.len() == 0 {
        Seq::empty()
    } else {
        items_of_messages(messages.drop_last()) + items_of_message(messages.last())
    }
}

fn say(role: &Json, text: &str) -> (tree: Json)
    ensures
        tree@ == said(role@, text@),
{
    Json::object().and("role", role.copy()).and("content", Json::text(text))
}

fn value_or_null(value: Option<&Json>) -> (tree: Json)
    ensures
        tree@ == or_null(opt_tree(value)),
{
    match value {
        Some(v) => v.copy(),
        None => Json::Null,
    }
}

fn flush(items: &mut Vec<Json>, waiting: &mut Vec<String>, role: &Json)
    ensures
        (ItemsV { items: list_view(final(items)@), waiting: texts(final(waiting)@) }) == flushed(
            ItemsV { items: list_view(old(items)@), waiting: texts(old(waiting)@) },
            role@,
        ),
{
    if waiting.len() > 0 {
        let text = join(waiting, "");
        items.push(say(role, text.as_str()));
        *waiting = Vec::new();
    }
}

fn map_blocks(blocks: &Vec<Json>, role: &Json) -> (items: Vec<Json>)
    ensures
        list_view(items@) == flushed(items_of_blocks(list_view(blocks@), role@), role@).items,
{
    let ghost all = list_view(blocks@);
    let mut items: Vec<Json> = Vec::new();
    let mut waiting: Vec<String> = Vec::new();
    let mut i: usize = 0;
    while i < blocks.len()
        invariant
            i <= blocks@.len(),
            all == list_view(blocks@),
            (ItemsV { items: list_view(items@), waiting: texts(waiting@) }) == items_of_blocks(all.take(i as int), role@),
        decreases blocks@.len() - i,
    {
        assert(all.take(i + 1).drop_last() =~= all.take(i as int));
        let block = &blocks[i];
        if block.has_text("type", "text") {
            let text = match block.str_at("text") {
                Some(t) => t,
                None => "",
            };
            waiting.push(text.to_owned());
        } else if block.has_text("type", "tool_use") {
            flush(&mut items, &mut waiting, role);
            let arguments = match block.get("input") {
                Some(v) => json_dumps_python_style(v),
                None => json_dumps_python_style(&Json::object()),
            };
            items.push(
                typed_object("function_call").and("call_id", value_or_null(block.get("id"))).and(
                    "name",
                    value_or_null(block.get("name")),
                ).and("arguments", Json::text(arguments.as_str())),
            );
        } else if block.has_text("type", "tool_result") {
            flush(&mut items, &mut waiting, role);
            let output = as_text(block.get("content"));
            items.push(
                typed_object("function_call_output").and("call_id", value_or_null(block.get("tool_use_id"))).and(
                    "output",
                    Json::text(output.as_str()),
                ),
            );
        }
        i = i + 1;
    }
    assert(all.take(i as int) =~= all);
    flush(&mut items, &mut waiting, role);
    items
}

fn map_messages(messages: &Vec<Json>) -> (items: Vec<Json>)
    ensures
        list_view(items@) == items_of_messages(list_view(messages@)),
{
    let ghost all = list_view(messages@);
    let mut items: Vec<Json> = Vec::new();
    let mut i: usize = 0;
    while i < messages.len()
        invariant
            i <= messages@.len(),
            all == list_view(messages@),
            list_view(items@) == items_of_messages(all.take(i as int)),
        decreases messages@.len() - i,
    {
        assert(all.take(i + 1).drop_last() =~= all.take(i as int));
        let ghost before = list_view(items@);
        let role = value_or_null(messages[i].get("role"));
        if let Some(content) = messages[i].get("content") {
            if let Some(text) = content.as_str() {
                items.push(say(&role, text));
                assert(list_view(items@) =~= before + seq![said(role@, text@)]);
            } else if let Some(blocks) = content.as_array() {
                let more = map_blocks(blocks, &role);
                let ghost added = list_view(more@);
                let mut more = more;
                items.append(&mut more);
                assert(list_view(items@) =~= before + added);
            } else {
                assert(before + Seq::<JsonV>::empty() =~= before);
            }
        } else {
            assert(before + Seq::<JsonV>::empty() =~= before);
        }
        i = i + 1;
    }
    assert(all.take(i as int) =~= all);
    items
}

pub open spec fn and_opt(tree: JsonV, key: Seq<char>, value: Option<JsonV>) -> JsonV {
    match value {
        Some(v) => tree.and(key, v),
        None => tree,
    }
}

pub open spec fn not_null(value: Option<JsonV>) -> Option<JsonV> {
    match value {
        Some(v) => if v is Null {
            None
        } else {
            Some(v)
        },
        None => None,
    }
}

/// A request in the responses protocol.
pub open spec fn responses_request(req: JsonV, model: Seq<char>, is_dashscope: bool) -> JsonV {
    let messages = req.items_at("messages"@).unwrap();
    let tools = functions_of(tools_of(req.get("tools"@)), is_dashscope).0;
    let has_tools = tools.len() > 0;
    let base = JsonV::object().and("model"@, JsonV::Str(model)).and(
        "input"@,
        JsonV::Array(items_of_messages(messages)),
    ).and("stream"@, JsonV::Bool(false));
    let instructed = match prompt_of(req.get("system"@)) {
        Some(p) => base.and("instructions"@, JsonV::Str(p)),
        None => base,
    };
    let limited = match output_limit(req.unsigned_at("max_tokens"@), has_tools, is_dashscope) {
        Some(v) => instructed.and("max_output_tokens"@, JsonV::Number(NumberV::PosInt(v))),
        None => instructed,
    };
    let warm = and_opt(limited, "temperature"@, not_null(req.get("temperature"@)));
    let sampled = and_opt(warm, "top_p"@, not_null(req.get("top_p"@)));
    let tooled = if has_tools {
        sampled.and("tools"@, JsonV::Array(tools))
    } else {
        sampled
    };
    match choice_of(req.get("tool_choice"@), has_tools) {
        Some(c) => tooled.and("tool_choice"@, JsonV::Str(c)),
        None => tooled,
    }
}

/// The rules that applied to a request in the responses protocol.
pub open spec fn responses_rules(req: JsonV, is_dashscope: bool) -> Seq<Seq<char>> {
    let (tools, left_out) = functions_of(tools_of(req.get("tools"@)), is_dashscope);
    with_rule_if(
        with_rule_if(Seq::empty(), left_out, RULE_TOOL_DASHSCOPE_RESPONSES_WEB_SEARCH_DROP@),
        req.unsigned_at("max_tokens"@) is Some && tools.len() > 0 && is_dashscope,
        RULE_PROVIDER_DASHSCOPE_RESPONSES_TOOLS_CAP@,
    )
}

fn copy_not_null(tree: Json, key: &str, value: Option<&Json>) -> (out: Json)
    requires
        tree@ is Object,
    ensures
        out@ == and_opt(tree@, key@, not_null(opt_tree(value))),
        out@ is Object,
{
    match value {
        Some(v) => if v.is_null() {
            tree
        } else {
            tree.and(key, v.copy())
        },
        None => tree,
    }
}

/// Maps a request of the messages protocol to the responses protocol.
pub fn anthropic_to_openai(req: &Json, target_model: &str, is_dashscope: bool) -> (out: Result<
    (Json, ResponsesMetadata),
    String,
>)
    ensures
        match out {
            Ok((mapped, metadata)) => {
                &&& req@.items_at("messages"@) is Some
                &&& mapped@ == responses_request(req@, target_model@, is_dashscope)
                &&& texts(metadata.rule_ids@) == responses_rules(req@, is_dashscope)
            },
            Err(e) => req@.items_at("messages"@) is None && e@ == needs_messages(),
        },
{
    let messages = match req.array_at("messages") {
        Some(messages) => messages,
        None => {
            return Err("request body must be a JSON object with a 'messages' array".to_owned());
        },
    };
    let mut rule_ids: Vec<String> = Vec::new();
    let items = map_messages(messages);
    let tools = map_tools(req.get("tools"), is_dashscope, &mut rule_ids);
    let has_tools = tools.len() > 0;
    let mut out = Json::object().and("model", Json::text(target_model)).and("input", Json::array(items)).and(
        "stream",
        Json::Bool(false),
    );
    if let Some(prompt) = system_prompt(req.get("system")) {
        out = out.and("instructions", Json::text(prompt.as_str()));
    }
    if let Some(value) = max_output_tokens(req.u64_at("max_tokens"), has_tools, is_dashscope, &mut rule_ids) {
        out = out.and("max_output_tokens", Json::unsigned(value));
    }
    out = copy_not_null(out, "temperature", req.get("temperature"));
    out = copy_not_null(out, "top_p", req.get("top_p"));
    if has_tools {
        out = out.and("tools", Json::array(tools));
    }
    if let Some(choice) = map_tool_choice(req.get("tool_choice"), has_tools) {
        out = out.and("tool_choice", Json::text(choice));
    }
    Ok((out, ResponsesMetadata { rule_ids }))
}

/// The texts of the contents of an output item.
pub open spec fn output_texts(contents: Seq<JsonV>) -> Seq<Seq<char>>
    decreases contents.len(),
{
    if contents.len() == 0 {
        Seq::empty()
    } else {
        let before = output_texts(contents.drop_last());
        let kind = contents.last().text_at("type"@);
        match contents.last().text_at("text"@) {
            Some(text) => if kind == Some("output_text"@) || kind == Some("text"@) {
                before.push(text)
            } else {
                before
            },
            None => before,
        }
    }
}

pub open spec fn text_of_output(item: JsonV) -> Seq<char> {
    match item.items_at("content"@) {
        Some(contents) => joined(output_texts(contents), ""@),
        None => Seq::empty(),
    }
}

fn output_text(item: &Json) -> (text: String)
    ensures
        text@ == text_of_output(item@),
{
    match item.array_at("content") {
        Some(contents) => {
            let ghost all = list_view(contents@);
            let mut parts: Vec<String> = Vec::new();
            let mut i: usize = 0;
            while i < contents.len()
                invariant
                    i <= contents@.len(),
                    all == list_view(contents@),
                    texts(parts@) == output_texts(all.take(i as int)),
                decreases contents@.len() - i,
            {
                assert(all.take(i + 1).drop_last() =~= all.take(i as int));
                let content = &contents[i];
                if content.has_text("type", "output_text") || content.has_text("type", "text") {
                    if let Some(text) = content.str_at("text") {
                        parts.push(text.to_owned());
                    }
                }
                i = i + 1;
            }
            assert(all.take(i as int) =~= all);
            join(&parts, "")
        },
        None => String::new(),
    }
}

/// The arguments of a function call, an empty object where they are not there or no JSON.
pub open spec fn call_arguments(item: JsonV) -> JsonV {
    let raw = match item.text_at("arguments"@) {
        Some(text) => text,
        None => "{}"@,
    };
    match json_parse(raw) {
        Some(v) => v,
        None => JsonV::object(),
    }
}

/// The tool call that a function call becomes.
pub open spec fn tool_call(item: JsonV) -> JsonV {
    let id = match item.get("call_id"@) {
        Some(v) => Some(v),
        None => item.get("id"@),
    };
    type_only("tool_use"@).and("id"@, or_null(id)).and("name"@, or_null(item.get("name"@))).and(
        "input"@,
        call_arguments(item),
    )
}

/// The blocks that output items become.
pub open spec fn blocks_of_output(output: Seq<JsonV>) -> Seq<JsonV>
    decreases output.len(),
{
    if output.len() == 0 {
        Seq::empty()
    } else {
        let before = blocks_of_output(output.drop_last());
        let item = output.last();
        if item.text_at("type"@) == Some("message"@) {
            if text_of_output(item).len() > 0 {
                before.push(text_block(text_of_output(item)))
            } else {
                before
            }
        } else if item.text_at("type"@) == Some("function_call"@) {
            before.push(tool_call(item))
        } else {
            before
        }
    }
}

/// The blocks of a response, those of its plain text where there are no others.
pub open spec fn blocks_of_response(resp: JsonV) -> Seq<JsonV> {
    let blocks = match resp.items_at("output"@) {
        Some(output) => blocks_of_output(output),
        None => Seq::empty(),
    };
    if blocks.len() > 0 {
        blocks
    } else {
        match resp.text_at("output_text"@) {
            Some(text) => if text.len() > 0 {
                seq![text_block(text)]
            } else {
                Seq::empty()
            },
            None => Seq::empty(),
        }
    }
}

pub open spec fn any_tool_call(blocks: Seq<JsonV>) -> bool {
    exists|i: int| 0 <= i < blocks.len() && (#[trigger] blocks[i]).text_at("type"@) == Some("tool_use"@)
}

/// Why a response ended.
pub open spec fn stop_reason_of(resp: JsonV) -> Seq<char> {
    if resp.text_at("status"@) == Some("incomplete"@) {
        "max_tokens"@
    } else if any_tool_call(blocks_of_response(resp)) {
        "tool_use"@
    } else {
        "end_turn"@
    }
}

pub open spec fn count_at(tree: Option<JsonV>, key: Seq<char>) -> JsonV {
    let n = match tree {
        Some(v) => v.unsigned_at(key),
        None => None,
    };
    JsonV::Number(
        NumberV::PosInt(
            match n {
                Some(c) => c,
                None => 0,
            },
        ),
    )
}

/// A response in the messages protocol.
pub open spec fn message_of(resp: JsonV, model: Seq<char>) -> JsonV {
    let blocks = blocks_of_response(resp);
    let id = match resp.text_at("id"@) {
        Some(t) => t,
        None => "msg_proxy"@,
    };
    let usage = resp.get("usage"@);
    JsonV::object().and("id"@, JsonV::Str(id)).and("type"@, JsonV::Str("message"@)).and(
        "role"@,
        JsonV::Str("assistant"@),
    ).and("model"@, JsonV::Str(model)).and(
        "content"@,
        JsonV::Array(
            if blocks.len() == 0 {
                seq![text_block(""@)]
            } else {
                blocks
            },
        ),
    ).and("stop_reason"@, JsonV::Str(stop_reason_of(resp))).and("stop_sequence"@, JsonV::Null).and(
        "usage"@,
        JsonV::object().and("input_tokens"@, count_at(usage, "input_tokens"@)).and(
            "output_tokens"@,
            count_at(usage, "output_tokens"@),
        ),
    )
}

fn map_output(output: &Vec<Json>) -> (blocks: Vec<Json>)
    ensures
        list_view(blocks@) == blocks_of_output(list_view(output@)),
{
    let ghost all = list_view(output@);
    let mut blocks: Vec<Json> = Vec::new();
    let mut i: usize = 0;
    while i < output.len()
        invariant
            i <= output@.len(),
            all == list_view(output@),
            list_view(blocks@) == blocks_of_output(all.take(i as int)),
        decreases output@.len() - i,
    {
        assert(all.take(i + 1).drop_last() =~= all.take(i as int));
        let item = &output[i];
        if item.has_text("type", "message") {
            let text = output_text(item);
            if !text.as_str().is_empty() {
                blocks.push(Json::typed("text", "text", text.as_str()));
            }
        } else if item.has_text("type", "function_call") {
            let raw = match item.str_at("arguments") {
                Some(text) => text,
                None => "{}",
            };
            let arguments = match Json::parse(raw) {
                Some(v) => v,
                None => Json::object(),
            };
            let id = match item.get("call_id") {
                Some(v) => Some(v),
                None => item.get("id"),
            };
            blocks.push(
                typed_object("tool_use").and("id", value_or_null(id)).and("name", value_or_null(item.get("name"))).and(
                    "input",
                    arguments,
                ),
            );
        }
        i = i + 1;
    }
    assert(all.take(i as int) =~= all);
    blocks
}

fn map_response_blocks(resp: &Json) -> (blocks: Vec<Json>)
    ensures
        list_view(blocks@) == blocks_of_response(resp@),
{
    let mut blocks = match resp.array_at("output") {
        Some(output) => map_output(output),
        None => Vec::new(),
    };
    if blocks.len() == 0 {
        assert(list_view(blocks@) =~= Seq::empty());
        if let Some(text) = resp.str_at("output_text") {
            if !text.is_empty() {
                blocks.push(Json::typed("text", "text", text));
                assert(list_view(blocks@) =~= seq![text_block(text@)]);
            }
        }
    }
    blocks
}

fn has_tool_call(blocks: &Vec<Json>) -> (yes: bool)
    ensures
        yes == any_tool_call(list_view(blocks@)),
{
    let mut i: usize = 0;
    while i < blocks.len()
        invariant
            i <= blocks@.len(),
            forall|k: int| 0 <= k < i ==> (#[trigger] list_view(blocks@)[k]).text_at("type"@) != Some("tool_use"@),
        decreases blocks@.len() - i,
    {
        if blocks[i].has_text("type", "tool_use") {
            assert(list_view(blocks@)[i as int].text_at("type"@) == Some("tool_use"@));
            return true;
        }
        i = i + 1;
    }
    false
}

fn count_json(tree: Option<&Json>, key: &str) -> (n: Json)
    ensures
        n@ == count_at(opt_tree(tree), key@),
{
    let found = match tree {
        Some(v) => v.u64_at(key),
        None => None,
    };
    match found {
        Some(c) => Json::unsigned(c),
        None => Json::unsigned(0),
    }
}

/// Maps a response of the responses protocol to the messages protocol.
pub fn openai_to_anthropic(resp: &Json, model_id: &str) -> (message: Json)
    ensures
        message@ == message_of(resp@, model_id@),
{
    let mut blocks = map_response_blocks(resp);
    let stop_reason = if resp.has_text("status", "incomplete") {
        "max_tokens"
    } else if has_tool_call(&blocks) {
        "tool_use"
    } else {
        "end_turn"
    };
    if blocks.len() == 0 {
        blocks.push(Json::typed("text", "text", ""));
        assert(list_view(blocks@) =~= seq![text_block(""@)]);
    }
    let id = match resp.str_at("id") {
        Some(t) => t,
        None => "msg_proxy",
    };
    let usage = resp.get("usage");
    let counts = Json::object().and("input_tokens", count_json(usage, "input_tokens")).and(
        "output_tokens",
        count_json(usage, "output_tokens"),
    );
    Json::object().and("id", Json::text(id)).and("type", Json::text("message")).and("role", Json::text("assistant")).and(
        "model",
        Json::text(model_id),
    ).and("content", Json::array(blocks)).and("stop_reason", Json::text(stop_reason)).and("stop_sequence", Json::Null).and(
        "usage",
        counts,
    )
}

/// Why a response was not mapped: a tool call failed its schema, or a division must be known first.
#[derive(Debug)]
pub enum ToolCallStop {
    Rejected(String),
    NeedsQuotient(u64, u64),
}

/// One function call checked against the schema of the tool that it names.
pub open spec fn call_check(item: JsonV, known_tools: JsonV, tests: Seq<QuotientTest>) -> Check {
    if item.text_at("type"@) != Some("function_call"@) {
        Check::Valid(0)
    } else {
        match (item.text_at("name"@), item.text_at("arguments"@)) {
            (Some(name), Some(raw)) => match known_tools.get(name) {
                None => Check::Invalid,
                Some(schema) => if encode_utf8(raw).len() > MAX_TOOL_ARGUMENT_BYTES {
                    Check::Invalid
                } else {
                    match json_parse(raw) {
                        None => Check::Invalid,
                        Some(arguments) => if arguments is Object {
                            arguments_check(arguments, schema, tests)
                        } else {
                            Check::Invalid
                        },
                    }
                },
            },
            _ => Check::Invalid,
        }
    }
}

/// The function calls of an output checked one after another.
pub open spec fn calls_check(output: Seq<JsonV>, known_tools: JsonV, tests: Seq<QuotientTest>) -> Check
    decreases output.len(),
{
    if output.len() == 0 {
        Check::Valid(0)
    } else {
        match calls_check(output.drop_last(), known_tools, tests) {
            Check::Valid(_) => match call_check(output.last(), known_tools, tests) {
                Check::Valid(_) => Check::Valid(0),
                other => other,
            },
            other => other,
        }
    }
}

/// The function calls of a response checked.
pub open spec fn response_check(resp: JsonV, known_tools: JsonV, tests: Seq<QuotientTest>) -> Check {
    match resp.items_at("output"@) {
        Some(output) => calls_check(output, known_tools, tests),
        None => Check::Valid(0),
    }
}

proof fn calls_check_stays(output: Seq<JsonV>, known_tools: JsonV, tests: Seq<QuotientTest>, i: int)
    requires
        0 <= i <= output.len(),
        !(calls_check(output.take(i), known_tools, tests) is Valid),
    ensures
        calls_check(output, known_tools, tests) == calls_check(output.take(i), known_tools, tests),
    decreases output.len() - i,
{
    if i < output.len() {
        assert(output.take(i + 1).drop_last() =~= output.take(i));
        calls_check_stays(output, known_tools, tests, i + 1);
    } else {
        assert(output.take(i) =~= output);
    }
}

fn check_call(item: &Json, known_tools: &Json, tests: &Vec<QuotientTest>) -> (check: Check)
    ensures
        check == call_check(item@, known_tools@, tests@),
{
    if !item.has_text("type", "function_call") {
        return Check::Valid(0);
    }
    let name = match item.str_at("name") {
        Some(name) => name,
        None => {
            return Check::Invalid;
        },
    };
    let raw = match item.str_at("arguments") {
        Some(raw) => raw,
        None => {
            return Check::Invalid;
        },
    };
    let schema = match known_tools.get(name) {
        Some(schema) => schema,
        None => {
            return Check::Invalid;
        },
    };
    if byte_len(raw) > MAX_TOOL_ARGUMENT_BYTES {
        return Check::Invalid;
    }
    match Json::parse(raw) {
        Some(arguments) => if arguments.is_object() {
            tool_arguments_match_schema(&arguments, schema, tests)
        } else {
            Check::Invalid
        },
        None => Check::Invalid,
    }
}

fn check_calls(output: &Vec<Json>, known_tools: &Json, tests: &Vec<QuotientTest>) -> (check: Check)
    ensures
        check == calls_check(list_view(output@), known_tools@, tests@),
{
    let ghost all = list_view(output@);
    let mut i: usize = 0;
    while i < output.len()
        invariant
            i <= output@.len(),
            all == list_view(output@),
            calls_check(all.take(i as int), known_tools@, tests@) == Check::Valid(0),
        decreases output@.len() - i,
    {
        assert(all.take(i + 1).drop_last() =~= all.take(i as int));
        match check_call(&output[i], known_tools, tests) {
            Check::Valid(_) => {},
            other => {
                proof {
                    calls_check_stays(all, known_tools@, tests@, i + 1);
                }
                return other;
            },
        }
        i = i + 1;
    }
    assert(all.take(i as int) =~= all);
    Check::Valid(0)
}

/// Maps a response after every function call was checked against the schema of its tool. The
/// outcomes of divisions that `multipleOf` needs are taken from `tests`.
pub fn openai_to_anthropic_validated(
    resp: &Json,
    model_id: &str,
    known_tools: &Json,
    tests: &Vec<QuotientTest>,
) -> (out: Result<Json, ToolCallStop>)
    ensures
        match response_check(resp@, known_tools@, tests@) {
            Check::Valid(_) => out matches Ok(message) && message@ == message_of(resp@, model_id@),
            Check::Invalid => out matches Err(ToolCallStop::Rejected(e)) && e@ == TOOL_ARGUMENT_PROTOCOL_ERROR@,
            Check::NeedsQuotient(a, b) => out == Err::<Json, ToolCallStop>(ToolCallStop::NeedsQuotient(a, b)),
        },
{
    let check = match resp.array_at("output") {
        Some(output) => check_calls(output, known_tools, tests),
        None => Check::Valid(0),
    };
    match check {
        Check::Valid(_) => Ok(openai_to_anthropic(resp, model_id)),
        Check::Invalid => Err(ToolCallStop::Rejected(TOOL_ARGUMENT_PROTOCOL_ERROR.to_owned())),
        Check::NeedsQuotient(a, b) => Err(ToolCallStop::NeedsQuotient(a, b)),
    }
}

} // verus!
