//! What a relayed request keeps of the request that came.
use crate::anthropic_compat::{
    client_tool, fitting_tool_choice, flavor_of, flavored_history, flavored_thinking, flavored_tools,
    last_two_swapped, names_tool, noted_body, noted_message, open_schema, paired_messages, relay_schema, relay_tool,
    relay_tools, relay_tools_body, relayed, reordered_body, search_paired_body, server_tool_kind, sifted,
    thinking_budget, type_at, type_only, under_policy, with_tools, AnthropicServerToolKind, AnthropicServerToolPolicy,
    RelayFlavor,
};
use crate::anthropic_compat_laws::{keys_are_distinct, taken_out_is_gone};
use crate::deepseek_normal_laws::{giving_keeps_keys, taking_out_keeps_the_rest, well_keyed, values_are_well_keyed};
use crate::json::{JsonV, NumberV};
use crate::policy::{calmed, deepseek_request, targeted};
use crate::text::{has_part, lowered};
use crate::json_model::{and_gives, key_index, key_index_finds, key_index_is, with_gives};
use vstd::prelude::*;

verus! {

pub open spec fn is_an_object(value: Option<JsonV>) -> bool {
    match value {
        Some(JsonV::Object(_)) => true,
        _ => false,
    }
}

pub open spec fn is_an_array(value: Option<JsonV>) -> bool {
    match value {
        Some(JsonV::Array(_)) => true,
        _ => false,
    }
}

/// Whether an object became another one by changes to these keys alone.
pub open spec fn differs_at(a: JsonV, b: JsonV, keys: Set<Seq<char>>) -> bool {
    &&& b is Object
    &&& keys_are_distinct(b)
    &&& forall|key: Seq<char>| !keys.contains(key) ==> #[trigger] b.get(key) == a.get(key)
}

proof fn giving_differs_at(a: JsonV, key: Seq<char>, value: JsonV)
    requires
        a is Object,
        keys_are_distinct(a),
    ensures
        differs_at(a, a.with(key, value), set![key]),
        a.with(key, value).get(key) == Some(value),
{
    with_gives(a, key, value);
    giving_keeps_keys(a, key, value);
}

proof fn taking_differs_at(a: JsonV, key: Seq<char>)
    requires
        a is Object,
        keys_are_distinct(a),
    ensures
        differs_at(a, a.without(key), set![key]),
        a.without(key).get(key) is None,
{
    taken_out_is_gone(a, key);
    taking_out_keeps_the_rest(a, key, key);
    assert forall|other: Seq<char>| !set![key].contains(other) implies #[trigger] a.without(key).get(other) == a.get(other) by {
        taking_out_keeps_the_rest(a, key, other);
    }
}

proof fn differences_add_up(a: JsonV, b: JsonV, c: JsonV, first: Set<Seq<char>>, second: Set<Seq<char>>, all: Set<Seq<char>>)
    requires
        differs_at(a, b, first),
        differs_at(b, c, second),
        first.subset_of(all),
        second.subset_of(all),
    ensures
        differs_at(a, c, all),
{
    assert forall|key: Seq<char>| !all.contains(key) implies #[trigger] c.get(key) == a.get(key) by {
        assert(b.get(key) == a.get(key));
    }
}

proof fn fewer_differences(a: JsonV, b: JsonV, few: Set<Seq<char>>, many: Set<Seq<char>>)
    requires
        differs_at(a, b, few),
        few.subset_of(many),
    ensures
        differs_at(a, b, many),
{
}

/// An input schema that is sent is that of an object, with an object of properties and, where it says what is
/// required, a list. What was declared in that form is sent as it is: the properties of an object are those that
/// were declared, and so is everything else that the schema says.
pub proof fn declared_schemas_are_sent(schema: JsonV)
    requires
        keys_are_distinct(schema),
    ensures
        ({
            let sent = relay_schema(Some(schema));
            let kind = schema.text_at("type"@);
            let properties = schema.get("properties"@);
            let required = schema.get("required"@);
            let kept = kind == Some("object"@) || (kind is None && is_an_object(properties));
            &&& sent.text_at("type"@) == Some("object"@)
            &&& is_an_object(sent.get("properties"@))
            &&& sent.get("required"@) matches Some(list) ==> list is Array
            &&& kept && is_an_object(properties) ==> sent.get("properties"@) == properties
            &&& kept && is_an_array(required) ==> sent.get("required"@) == required
            &&& kept ==> forall|key: Seq<char>|
                key != "type"@ && key != "properties"@ && key != "required"@ ==> #[trigger] sent.get(key) == schema.get(key)
            &&& kind == Some("object"@) && is_an_object(properties) && (required is None || is_an_array(
                required,
            )) ==> sent == schema
            &&& !kept ==> sent.get("properties"@) == Some(JsonV::object()) && sent.get("required"@) is None
        }),
{
    schema_words_differ();
    open_schemas_tell();
    let kind = schema.text_at("type"@);
    if let JsonV::Object(entries) = schema {
        if entries.len() > 0 && (kind == Some("object"@) || (kind is None && is_an_object(schema.get("properties"@)))) {
            let named = if kind is None {
                schema.with("type"@, JsonV::Str("object"@))
            } else {
                schema
            };
            with_gives(schema, "type"@, JsonV::Str("object"@));
            giving_keeps_keys(schema, "type"@, JsonV::Str("object"@));
            let filled = if is_an_object(named.get("properties"@)) {
                named
            } else {
                named.with("properties"@, JsonV::object())
            };
            with_gives(named, "properties"@, JsonV::object());
            giving_keeps_keys(named, "properties"@, JsonV::object());
            taking_differs_at(filled, "required"@);
        } else if entries.len() == 0 {
            key_index_finds(entries, "type"@);
            key_index_finds(entries, "properties"@);
        }
    }
}

proof fn schema_words_differ()
    ensures
        "type"@.len() == 4,
        "properties"@.len() == 10,
        "required"@.len() == 8,
{
    reveal_strlit("type");
    reveal_strlit("properties");
    reveal_strlit("required");
}

proof fn open_schemas_tell()
    ensures
        open_schema().text_at("type"@) == Some("object"@),
        open_schema().get("properties"@) == Some(JsonV::object()),
        open_schema().get("required"@) is None,
{
    schema_words_differ();
    let entries = open_schema()->Object_0;
    assert(entries.len() == 2);
    assert(entries[0] == ("type"@, JsonV::Str("object"@)));
    assert(entries[1] == ("properties"@, JsonV::object()));
    key_index_is(entries, "type"@, 0);
    key_index_is(entries, "properties"@, 1);
    key_index_is(entries, "required"@, 2);
}

/// Whether a tool is declared by a type, as a server's tools are.
pub open spec fn is_typed(tool: JsonV) -> bool {
    tool.text_at("type"@) matches Some(kind) && kind.len() > 0
}

/// Whether a tool has a name.
pub open spec fn is_named(tool: JsonV) -> bool {
    tool.text_at("name"@) matches Some(name) && name.len() > 0
}

/// Whether a tool that was sent is one that was declared: a tool with a type as it was, any other with another
/// form of its input schema at most.
pub open spec fn is_sent_as(sent: JsonV, declared: JsonV) -> bool {
    if is_typed(declared) {
        sent == declared
    } else {
        &&& differs_at(declared, sent, set!["input_schema"@])
        &&& sent.get("input_schema"@) matches Some(schema) && {
            &&& schema.text_at("type"@) == Some("object"@)
            &&& declared.get("input_schema"@) matches Some(given) ==> {
                &&& (given.text_at("type"@) == Some("object"@) || given.text_at("type"@) is None) && is_an_object(
                    given.get("properties"@),
                ) ==> schema.get("properties"@) == given.get("properties"@)
                &&& given.text_at("type"@) == Some("object"@) && is_an_array(given.get("required"@)) ==> schema.get(
                    "required"@,
                ) == given.get("required"@)
            }
        }
    }
}

/// The tools that an upstream is sent, out of those that were declared.
pub open spec fn to_be_sent(tool: JsonV, flavor: RelayFlavor) -> bool {
    (is_typed(tool) || is_named(tool)) && (flavor != RelayFlavor::Generic ==> server_tool_kind(tool) != Some(
        AnthropicServerToolKind::Unsupported,
    ))
}

/// Whether the tools that are sent are those that are to be sent, one by one and in their order.
pub open spec fn are_sent_as(sent: Seq<JsonV>, declared: Seq<JsonV>) -> bool {
    sent.len() == declared.len() && forall|i: int| 0 <= i < sent.len() ==> is_sent_as(#[trigger] sent[i], declared[i])
}

proof fn tool_is_sent(tool: JsonV)
    requires
        well_keyed(tool),
        client_tool(tool),
    ensures
        is_sent_as(relay_tool(tool), tool),
        server_tool_kind(relay_tool(tool)) is None,
        server_tool_kind(tool) is None,
        !is_typed(relay_tool(tool)),
        is_named(relay_tool(tool)),
{
    reveal_strlit("input_schema");
    reveal_strlit("type");
    reveal_strlit("name");
    assert("input_schema"@.len() == 12 && "type"@.len() == 4 && "name"@.len() == 4);
    let schema = relay_schema(tool.get("input_schema"@));
    values_are_well_keyed(tool, "input_schema"@);
    assert(tool is Object);
    giving_differs_at(tool, "input_schema"@, schema);
    open_schemas_tell();
    if let Some(given) = tool.get("input_schema"@) {
        values_are_well_keyed(given, ""@);
        declared_schemas_are_sent(given);
    }
    assert(relay_tool(tool).get("type"@) == tool.get("type"@));
    assert(relay_tool(tool).get("name"@) == tool.get("name"@));
}

/// The tools of a relay before its policy.
proof fn tools_are_sent(tools: Seq<JsonV>)
    requires
        forall|i: int| 0 <= i < tools.len() ==> well_keyed(#[trigger] tools[i]),
    ensures
        are_sent_as(relay_tools(tools), tools.filter(|tool: JsonV| to_be_sent(tool, RelayFlavor::Generic))),
        forall|i: int| 0 <= i < relay_tools(tools).len() ==> is_typed(#[trigger] relay_tools(tools)[i]) || is_named(
            relay_tools(tools)[i],
        ),
    decreases tools.len(),
{
    reveal(Seq::filter);
    let test = |tool: JsonV| to_be_sent(tool, RelayFlavor::Generic);
    if tools.len() > 0 {
        let before = tools.drop_last();
        let tool = tools.last();
        assert forall|i: int| 0 <= i < before.len() implies well_keyed(#[trigger] before[i]) by {
            assert(before[i] == tools[i]);
        }
        tools_are_sent(before);
        assert(well_keyed(tools[tools.len() - 1]));
        if client_tool(tool) {
            tool_is_sent(tool);
        }
        let now = relay_tools(tools);
        let meant = tools.filter(test);
        assert(test(tool) == to_be_sent(tool, RelayFlavor::Generic));
        assert forall|i: int| 0 <= i < now.len() implies is_sent_as(#[trigger] now[i], meant[i]) && (is_typed(now[i])
            || is_named(now[i])) by {
            if i < relay_tools(before).len() {
                assert(now[i] == relay_tools(before)[i]);
                assert(meant[i] == before.filter(test)[i]);
            }
        }
    }
}

/// The tools of a relay under a policy.
proof fn sifted_tools_are_sent(tools: Seq<JsonV>, policy: AnthropicServerToolPolicy, dropped: usize, rules: Seq<Seq<char>>)
    requires
        forall|i: int| 0 <= i < tools.len() ==> well_keyed(#[trigger] tools[i]),
    ensures
        are_sent_as(
            sifted(relay_tools(tools), policy, dropped, rules).kept,
            tools.filter(|tool: JsonV| to_be_sent(tool, RelayFlavor::Kimi)),
        ),
    decreases tools.len(),
{
    reveal(Seq::filter);
    let test = |tool: JsonV| to_be_sent(tool, RelayFlavor::Kimi);
    if tools.len() > 0 {
        let before = tools.drop_last();
        let tool = tools.last();
        assert forall|i: int| 0 <= i < before.len() implies well_keyed(#[trigger] before[i]) by {
            assert(before[i] == tools[i]);
        }
        sifted_tools_are_sent(before, policy, dropped, rules);
        assert(well_keyed(tools[tools.len() - 1]));
        if client_tool(tool) {
            tool_is_sent(tool);
        }
        let few = relay_tools(before);
        let many = relay_tools(tools);
        if many != few {
            assert(many.drop_last() =~= few);
        }
        let old_kept = sifted(few, policy, dropped, rules).kept;
        let now = sifted(many, policy, dropped, rules).kept;
        let meant = tools.filter(test);
        assert(test(tool) == to_be_sent(tool, RelayFlavor::Kimi));
        assert forall|i: int| 0 <= i < now.len() implies is_sent_as(#[trigger] now[i], meant[i]) by {
            if i < old_kept.len() {
                assert(now[i] == old_kept[i]);
                assert(meant[i] == before.filter(test)[i]);
            }
        }
    }
}

proof fn request_words_differ()
    ensures
        "model"@ != "messages"@,
        "model"@ != "thinking"@,
        "model"@ != "tools"@,
        "model"@ != "tool_choice"@,
        "model"@ != "mcp_servers"@,
        "model"@ != "max_tokens"@,
        "model"@ != "reasoning_effort"@,
        "model"@ != "output_config"@,
        "messages"@ != "thinking"@,
        "messages"@ != "tools"@,
        "messages"@ != "tool_choice"@,
        "messages"@ != "mcp_servers"@,
        "messages"@ != "max_tokens"@,
        "thinking"@ != "tools"@,
        "thinking"@ != "tool_choice"@,
        "thinking"@ != "mcp_servers"@,
        "thinking"@ != "max_tokens"@,
        "messages"@ != "reasoning_effort"@,
        "messages"@ != "output_config"@,
        "thinking"@ != "reasoning_effort"@,
        "thinking"@ != "output_config"@,
        "mcp_servers"@ != "reasoning_effort"@,
        "mcp_servers"@ != "output_config"@,
        "mcp_servers"@ != "max_tokens"@,
        "tools"@ != "tool_choice"@,
        "tools"@ != "mcp_servers"@,
        "tools"@ != "max_tokens"@,
        "tools"@ != "reasoning_effort"@,
        "tools"@ != "output_config"@,
        "tool_choice"@ != "mcp_servers"@,
        "tool_choice"@ != "max_tokens"@,
        "tool_choice"@ != "reasoning_effort"@,
        "tool_choice"@ != "output_config"@,
{
    reveal_strlit("model");
    reveal_strlit("messages");
    reveal_strlit("thinking");
    reveal_strlit("tools");
    reveal_strlit("tool_choice");
    reveal_strlit("mcp_servers");
    reveal_strlit("max_tokens");
    reveal_strlit("reasoning_effort");
    reveal_strlit("output_config");
    assert("model"@.len() == 5 && "messages"@.len() == 8 && "thinking"@.len() == 8 && "tools"@.len() == 5);
    assert("tool_choice"@.len() == 11 && "mcp_servers"@.len() == 11 && "max_tokens"@.len() == 10);
    assert("reasoning_effort"@.len() == 16 && "output_config"@.len() == 13);
    assert("model"@[0] == 'm' && "tools"@[0] == 't' && "messages"@[0] == 'm' && "thinking"@[0] == 't');
    assert("tool_choice"@[0] == 't' && "mcp_servers"@[0] == 'm');
}

proof fn fitting_differs(body: JsonV)
    requires
        body is Object,
        keys_are_distinct(body),
    ensures
        differs_at(body, fitting_tool_choice(body), set!["tool_choice"@]),
{
    taking_differs_at(body, "tool_choice"@);
    giving_differs_at(body, "tool_choice"@, type_only("auto"@));
}

proof fn tools_differ(body: JsonV, tools: Seq<JsonV>)
    requires
        body is Object,
        keys_are_distinct(body),
    ensures
        ({
            let sent = fitting_tool_choice(with_tools(body, tools));
            &&& differs_at(body, sent, set!["tools"@, "tool_choice"@])
            &&& sent.get("tools"@) == if tools.len() == 0 {
                None
            } else {
                Some(JsonV::Array(tools))
            }
        }),
{
    request_words_differ();
    let given = with_tools(body, tools);
    taking_differs_at(body, "tools"@);
    giving_differs_at(body, "tools"@, JsonV::Array(tools));
    fitting_differs(given);
    differences_add_up(
        body,
        given,
        fitting_tool_choice(given),
        set!["tools"@],
        set!["tool_choice"@],
        set!["tools"@, "tool_choice"@],
    );
    assert(fitting_tool_choice(given).get("tools"@) == given.get("tools"@));
}

/// What the last step leaves of a request.
pub proof fn flavored_tools_differ(body: JsonV, flavor: RelayFlavor, rules: Seq<Seq<char>>)
    requires
        body is Object,
        keys_are_distinct(body),
        body.items_at("tools"@) matches Some(tools) ==> forall|i: int| 0 <= i < tools.len() ==> well_keyed(#[trigger] tools[i]),
    ensures
        ({
            let sent = flavored_tools(body, flavor, rules).0;
            &&& differs_at(body, sent, set!["tools"@, "tool_choice"@, "mcp_servers"@])
            &&& flavor == RelayFlavor::Generic ==> sent.get("mcp_servers"@) == body.get("mcp_servers"@)
            &&& flavor != RelayFlavor::Generic ==> sent.get("mcp_servers"@) is None
            &&& body.get("tools"@) is None ==> sent.get("tools"@) is None
            &&& body.items_at("tools"@) matches Some(tools) ==> {
                let meant = tools.filter(|tool: JsonV| to_be_sent(tool, flavor));
                if meant.len() == 0 {
                    sent.get("tools"@) is None
                } else {
                    sent.items_at("tools"@) matches Some(out) && are_sent_as(out, meant)
                }
            }
        }),
{
    request_words_differ();
    let all = set!["tools"@, "tool_choice"@, "mcp_servers"@];
    let clean = relay_tools_body(body, rules).0;
    let rules1 = relay_tools_body(body, rules).1;
    let some = set!["tools"@, "tool_choice"@];
    match body.get("tools"@) {
        None => {
            assert(differs_at(body, clean, some));
        },
        Some(JsonV::Array(tools)) => {
            let declared = body.items_at("tools"@).unwrap();
            assert(declared == tools);
            assert forall|i: int| 0 <= i < tools.len() implies well_keyed(#[trigger] tools[i]) by {
                assert(well_keyed(declared[i]));
            }
            tools_are_sent(tools);
            tools_differ(body, relay_tools(tools));
        },
        Some(_) => {
            let bare = body.without("tools"@);
            taking_differs_at(body, "tools"@);
            fitting_differs(bare);
            differences_add_up(body, bare, fitting_tool_choice(bare), set!["tools"@], set!["tool_choice"@], some);
            assert(clean.get("tools"@) == bare.get("tools"@));
        },
    }
    fewer_differences(body, clean, some, all);
    if flavor == RelayFlavor::Generic {
        assert(clean.get("mcp_servers"@) == body.get("mcp_servers"@));
        if let Some(tools) = body.items_at("tools"@) {
            let one = |tool: JsonV| to_be_sent(tool, flavor);
            let two = |tool: JsonV| to_be_sent(tool, RelayFlavor::Generic);
            assert(tools.filter(one) == tools.filter(two)) by {
                filters_agree(tools, one, two);
            }
        }
    } else {
        let policy = if flavor == RelayFlavor::Kimi {
            AnthropicServerToolPolicy::Kimi
        } else {
            AnthropicServerToolPolicy::DeepSeek
        };
        let bare = clean.without("mcp_servers"@);
        taking_differs_at(clean, "mcp_servers"@);
        differences_add_up(body, clean, bare, some, set!["mcp_servers"@], all);
        assert(bare.get("tools"@) == clean.get("tools"@));
        fitting_differs(bare);
        differences_add_up(body, bare, fitting_tool_choice(bare), all, set!["tool_choice"@], all);
        let sent = under_policy(clean, policy, rules1).0;
        if let Some(left) = bare.items_at("tools"@) {
            let dropped: usize = if clean.get("mcp_servers"@) is Some {
                1
            } else {
                0
            };
            let rules2 = crate::deepseek_compat::with_rule_if(
                rules1,
                clean.get("mcp_servers"@) is Some,
                crate::anthropic_compat::unsupported_rule(policy),
            );
            let kept = sifted(left, policy, dropped, rules2).kept;
            tools_differ(bare, kept);
            differences_add_up(body, bare, sent, all, some, all);
            assert(sent.get("mcp_servers"@) == bare.get("mcp_servers"@));
            if let Some(tools) = body.items_at("tools"@) {
                let one = |tool: JsonV| to_be_sent(tool, flavor);
                let two = |tool: JsonV| to_be_sent(tool, RelayFlavor::Kimi);
                filters_agree(tools, one, two);
                sifted_tools_are_sent(tools, policy, dropped, rules2);
                assert(left == relay_tools(tools));
            }
        } else {
            assert(sent == fitting_tool_choice(bare));
            assert(sent.get("mcp_servers"@) == bare.get("mcp_servers"@));
            assert(sent.get("tools"@) == bare.get("tools"@));
            if let Some(tools) = body.items_at("tools"@) {
                let one = |tool: JsonV| to_be_sent(tool, flavor);
                let two = |tool: JsonV| to_be_sent(tool, RelayFlavor::Generic);
                assert(relay_tools(tools).len() == 0);
                fewer_pass(tools, one, two);
            }
        }
    }
}

proof fn filters_agree(items: Seq<JsonV>, one: spec_fn(JsonV) -> bool, two: spec_fn(JsonV) -> bool)
    requires
        forall|item: JsonV| #[trigger] one(item) == two(item),
    ensures
        items.filter(one) == items.filter(two),
    decreases items.len(),
{
    reveal(Seq::filter);
    if items.len() > 0 {
        filters_agree(items.drop_last(), one, two);
    }
}

proof fn fewer_pass(items: Seq<JsonV>, one: spec_fn(JsonV) -> bool, two: spec_fn(JsonV) -> bool)
    requires
        forall|item: JsonV| #[trigger] one(item) ==> two(item),
    ensures
        items.filter(one).len() <= items.filter(two).len(),
    decreases items.len(),
{
    reveal(Seq::filter);
    if items.len() > 0 {
        fewer_pass(items.drop_last(), one, two);
    }
}

/// The choice of a tool where some tools are left: `auto` in place of a named tool that is not among them.
pub open spec fn choice_among(choice: Option<JsonV>, tools: Seq<JsonV>) -> Option<JsonV> {
    match choice {
        Some(given) => if given.text_at("type"@) == Some("tool"@) && !names_tool(
            tools,
            match given.text_at("name"@) {
                Some(name) => name,
                None => ""@,
            },
        ) {
            Some(JsonV::object().and("type"@, JsonV::Str("auto"@)))
        } else {
            choice
        },
        None => None,
    }
}

proof fn autos_stay(tools: Seq<JsonV>)
    ensures
        choice_among(Some(type_only("auto"@)), tools) == Some(type_only("auto"@)),
{
    and_gives(JsonV::object(), "type"@, JsonV::Str("auto"@), "type"@);
    reveal_strlit("auto");
    reveal_strlit("tool");
    assert("auto"@[0] == 'a' && "tool"@[0] == 't');
}

proof fn fitting_chooses(body: JsonV)
    requires
        body is Object,
        keys_are_distinct(body),
    ensures
        fitting_tool_choice(body).get("tool_choice"@) == (match body.items_at("tools"@) {
            Some(tools) => if tools.len() == 0 {
                None
            } else {
                choice_among(body.get("tool_choice"@), tools)
            },
            None => None,
        }),
{
    taking_differs_at(body, "tool_choice"@);
    giving_differs_at(body, "tool_choice"@, type_only("auto"@));
}

proof fn sifted_are_among(tools: Seq<JsonV>, policy: AnthropicServerToolPolicy, dropped: usize, rules: Seq<Seq<char>>, name: Seq<char>)
    ensures
        names_tool(sifted(tools, policy, dropped, rules).kept, name) ==> names_tool(tools, name),
    decreases tools.len(),
{
    let kept = sifted(tools, policy, dropped, rules).kept;
    if names_tool(kept, name) && tools.len() > 0 {
        let before = tools.drop_last();
        let few = sifted(before, policy, dropped, rules).kept;
        sifted_are_among(before, policy, dropped, rules, name);
        let i = choose|i: int| 0 <= i < kept.len() && (#[trigger] kept[i]).text_at("name"@) == Some(name);
        if i < few.len() {
            assert(kept[i] == few[i]);
            let j = choose|j: int| 0 <= j < before.len() && (#[trigger] before[j]).text_at("name"@) == Some(name);
            assert(tools[j] == before[j]);
        } else {
            assert(tools[tools.len() - 1].text_at("name"@) == Some(name));
        }
    }
}

proof fn flavored_tools_choose(body: JsonV, flavor: RelayFlavor, rules: Seq<Seq<char>>)
    requires
        body is Object,
        keys_are_distinct(body),
    ensures
        ({
            let sent = flavored_tools(body, flavor, rules).0;
            match sent.items_at("tools"@) {
                Some(tools) => sent.get("tool_choice"@) == choice_among(body.get("tool_choice"@), tools),
                None => sent.get("tool_choice"@) == (if flavor == RelayFlavor::Generic && body.get("tools"@) is None {
                    body.get("tool_choice"@)
                } else {
                    None
                }),
            }
        }),
{
    request_words_differ();
    let (clean, rules1) = relay_tools_body(body, rules);
    match body.get("tools"@) {
        None => {},
        Some(JsonV::Array(tools)) => {
            let given = with_tools(body, relay_tools(tools));
            taking_differs_at(body, "tools"@);
            giving_differs_at(body, "tools"@, JsonV::Array(relay_tools(tools)));
            assert(given.get("tool_choice"@) == body.get("tool_choice"@));
            fitting_chooses(given);
            fitting_differs(given);
            assert(clean.get("tools"@) == given.get("tools"@));
        },
        Some(_) => {
            let bare = body.without("tools"@);
            taking_differs_at(body, "tools"@);
            fitting_chooses(bare);
            fitting_differs(bare);
            assert(clean.get("tools"@) == bare.get("tools"@));
        },
    }
    if flavor != RelayFlavor::Generic {
        let policy = if flavor == RelayFlavor::Kimi {
            AnthropicServerToolPolicy::Kimi
        } else {
            AnthropicServerToolPolicy::DeepSeek
        };
        let bare = clean.without("mcp_servers"@);
        taking_differs_at(clean, "mcp_servers"@);
        assert(bare.get("tools"@) == clean.get("tools"@));
        assert(bare.get("tool_choice"@) == clean.get("tool_choice"@));
        if let Some(left) = bare.items_at("tools"@) {
            let dropped: usize = if clean.get("mcp_servers"@) is Some {
                1
            } else {
                0
            };
            let rules2 = crate::deepseek_compat::with_rule_if(
                rules1,
                clean.get("mcp_servers"@) is Some,
                crate::anthropic_compat::unsupported_rule(policy),
            );
            let kept = sifted(left, policy, dropped, rules2).kept;
            let given = with_tools(bare, kept);
            taking_differs_at(bare, "tools"@);
            giving_differs_at(bare, "tools"@, JsonV::Array(kept));
            assert(given.get("tool_choice"@) == bare.get("tool_choice"@));
            fitting_chooses(given);
            fitting_differs(given);
            assert(fitting_tool_choice(given).get("tools"@) == given.get("tools"@));
            autos_stay(kept);
            if let Some(choice) = body.get("tool_choice"@) {
                let name = match choice.text_at("name"@) {
                    Some(n) => n,
                    None => ""@,
                };
                sifted_are_among(left, policy, dropped, rules2, name);
            }
        } else {
            fitting_chooses(bare);
            fitting_differs(bare);
            assert(fitting_tool_choice(bare).get("tools"@) == bare.get("tools"@));
        }
    }
}

/// What the step on thinking leaves of a request that is not for DeepSeek.
pub proof fn flavored_thinking_differs(body: JsonV, flavor: RelayFlavor, policy: Option<Seq<char>>, rules: Seq<Seq<char>>)
    requires
        body is Object,
        keys_are_distinct(body),
    ensures
        differs_at(body, flavored_thinking(body, flavor, policy, rules).0, set!["thinking"@, "tool_choice"@]),
{
    request_words_differ();
    let both = set!["thinking"@, "tool_choice"@];
    let sent = flavored_thinking(body, flavor, policy, rules).0;
    if flavor != RelayFlavor::DeepSeek {
        if policy == Some("upstream_default"@) {
            taking_differs_at(body, "thinking"@);
            giving_differs_at(body, "thinking"@, type_only("disabled"@));
        } else if policy == Some("enabled"@) {
            let free = if crate::anthropic_compat::forces_a_tool(body) {
                body.without("tool_choice"@)
            } else {
                body
            };
            taking_differs_at(body, "tool_choice"@);
            let on = type_only("enabled"@).and(
                "budget_tokens"@,
                JsonV::Number(NumberV::PosInt(thinking_budget(free.unsigned_at("max_tokens"@)))),
            );
            giving_differs_at(free, "thinking"@, on);
            if free != sent {
                differences_add_up(body, free, sent, both, set!["thinking"@], both);
            }
        } else if let Some(thinking) = body.get("thinking"@) {
            giving_differs_at(body, "thinking"@, thinking.with("type"@, JsonV::Str("adaptive"@)));
        }
    }
}

proof fn flavored_history_differs(body: JsonV, flavor: RelayFlavor, model: Seq<char>)
    requires
        well_keyed(body),
        body is Object,
    ensures
        ({
            let sent = flavored_history(body, flavor, model).0;
            &&& flavor == RelayFlavor::Generic ==> sent == body
            &&& flavor == RelayFlavor::Kimi ==> differs_at(body, sent, set!["messages"@])
            &&& flavor == RelayFlavor::DeepSeek ==> differs_at(
                body,
                sent,
                set!["messages"@, "max_tokens"@, "thinking"@, "reasoning_effort"@, "output_config"@],
            )
        }),
{
    values_are_well_keyed(body, ""@);
    if flavor == RelayFlavor::Kimi {
        let one = set!["messages"@];
        let ordered = reordered_body(body).0;
        if let Some(messages) = body.items_at("messages"@) {
            giving_differs_at(body, "messages"@, JsonV::Array(last_two_swapped(messages)));
        }
        assert(differs_at(body, ordered, one));
        let noted = noted_body(ordered).0;
        if let Some(messages) = ordered.items_at("messages"@) {
            giving_differs_at(
                ordered,
                "messages"@,
                JsonV::Array(messages.map_values(|message: JsonV| noted_message(message))),
            );
        }
        differences_add_up(body, ordered, noted, one, one, one);
        let paired = search_paired_body(noted).0;
        if let Some(messages) = noted.items_at("messages"@) {
            giving_differs_at(noted, "messages"@, JsonV::Array(paired_messages(messages).0));
        }
        differences_add_up(body, noted, paired, one, one, one);
    } else if flavor == RelayFlavor::DeepSeek {
        crate::deepseek_normal_laws::other_settings_are_kept(body, model, Seq::empty(), ""@);
        assert forall|key: Seq<char>|
            !set!["messages"@, "max_tokens"@, "thinking"@, "reasoning_effort"@, "output_config"@].contains(
                key,
            ) implies #[trigger] flavored_history(body, flavor, model).0.get(key) == body.get(key) by {
            crate::deepseek_normal_laws::other_settings_are_kept(body, model, Seq::empty(), key);
        }
    }
}

proof fn named_bodies_are_well_keyed(body: JsonV, model: Seq<char>)
    requires
        well_keyed(body),
        body is Object,
    ensures
        well_keyed(body.with("model"@, JsonV::Str(model))),
{
    let named = body.with("model"@, JsonV::Str(model));
    giving_keeps_keys(body, "model"@, JsonV::Str(model));
    let entries = body->Object_0;
    key_index_finds(entries, "model"@);
    let after = named->Object_0;
    assert forall|i: int| 0 <= i < after.len() implies well_keyed((#[trigger] after[i]).1) by {
        if i != key_index(entries, "model"@) {
            assert(after[i] == entries[i]);
        }
    }
}

/// The steps of a request that is sent.
pub proof fn steps_of_a_request(body: JsonV, model: Seq<char>, policy: Option<Seq<char>>, contract: Option<Seq<char>>)
    requires
        well_keyed(body),
        relayed(body, model, policy, contract) is Ok,
    ensures
        ({
            let flavor = flavor_of(contract, model);
            let named = body.with("model"@, JsonV::Str(model));
            let (repaired, rules1) = flavored_history(named, flavor, model);
            let (thought, rules2) = flavored_thinking(repaired, flavor, policy, rules1);
            &&& body is Object
            &&& well_keyed(named)
            &&& differs_at(body, named, set!["model"@])
            &&& named.get("model"@) == Some(JsonV::Str(model))
            &&& repaired is Object
            &&& keys_are_distinct(repaired)
            &&& thought is Object
            &&& keys_are_distinct(thought)
            &&& thought.get("tools"@) == body.get("tools"@)
            &&& repaired.get("tool_choice"@) == body.get("tool_choice"@)
            &&& body.items_at("tools"@) matches Some(tools) ==> forall|i: int|
                0 <= i < tools.len() ==> well_keyed(#[trigger] tools[i])
            &&& relayed(body, model, policy, contract) == Ok::<(JsonV, usize, Seq<Seq<char>>), Seq<char>>(
                flavored_tools(thought, flavor, rules2),
            )
        }),
{
    request_words_differ();
    let flavor = flavor_of(contract, model);
    let named = body.with("model"@, JsonV::Str(model));
    values_are_well_keyed(body, "tools"@);
    giving_differs_at(body, "model"@, JsonV::Str(model));
    named_bodies_are_well_keyed(body, model);
    flavored_history_differs(named, flavor, model);
    let (repaired, rules1) = flavored_history(named, flavor, model);
    assert(repaired is Object && keys_are_distinct(repaired));
    assert(named.get("tools"@) == body.get("tools"@));
    assert(repaired.get("tools"@) == named.get("tools"@));
    assert(named.get("tool_choice"@) == body.get("tool_choice"@));
    assert(repaired.get("tool_choice"@) == named.get("tool_choice"@));
    flavored_thinking_differs(repaired, flavor, policy, rules1);
    let thought = flavored_thinking(repaired, flavor, policy, rules1).0;
    assert(thought.get("tools"@) == repaired.get("tools"@));
}

/// A request that is sent names the model that it is for, and says everything else as the request that came did,
/// but for what the upstream does not take: the settings of thinking and effort, the token limit, the tools and the
/// choice of one, and the history where it has to be repaired. An upstream without peculiarities is sent the
/// history as it came.
pub proof fn requests_keep_their_settings(body: JsonV, model: Seq<char>, policy: Option<Seq<char>>, contract: Option<Seq<char>>)
    requires
        well_keyed(body),
    ensures
        relayed(body, model, policy, contract) matches Ok((sent, dropped, rules)) ==> {
            let flavor = flavor_of(contract, model);
            &&& sent.text_at("model"@) == Some(model)
            &&& forall|key: Seq<char>|
                key != "model"@ && key != "messages"@ && key != "thinking"@ && key != "tool_choice"@ && key != "tools"@
                    && key != "mcp_servers"@ && key != "max_tokens"@ && key != "reasoning_effort"@ && key
                    != "output_config"@ ==> #[trigger] sent.get(key) == body.get(key)
            &&& flavor != RelayFlavor::DeepSeek ==> {
                &&& sent.get("max_tokens"@) == body.get("max_tokens"@)
                &&& sent.get("reasoning_effort"@) == body.get("reasoning_effort"@)
                &&& sent.get("output_config"@) == body.get("output_config"@)
            }
            &&& flavor == RelayFlavor::DeepSeek ==> match body.unsigned_at("max_tokens"@) {
                Some(limit) => {
                    let most: u64 = if model == "deepseek-v4-pro"@ {
                        65_536
                    } else if model == "deepseek-v4-flash"@ {
                        32_768
                    } else {
                        8_192
                    };
                    sent.unsigned_at("max_tokens"@) == Some(
                        if limit <= most {
                            limit
                        } else {
                            most
                        },
                    )
                },
                None => sent.get("max_tokens"@) == body.get("max_tokens"@),
            }
            &&& flavor == RelayFlavor::Generic ==> {
                &&& sent.get("messages"@) == body.get("messages"@)
                &&& sent.get("mcp_servers"@) == body.get("mcp_servers"@)
                &&& dropped == 0
            }
            &&& flavor != RelayFlavor::Generic ==> sent.get("mcp_servers"@) is None
        },
{
    request_words_differ();
    if relayed(body, model, policy, contract) is Ok {
        steps_of_a_request(body, model, policy, contract);
        let flavor = flavor_of(contract, model);
        let named = body.with("model"@, JsonV::Str(model));
        let (repaired, rules1) = flavored_history(named, flavor, model);
        let (thought, rules2) = flavored_thinking(repaired, flavor, policy, rules1);
        let sent = flavored_tools(thought, flavor, rules2).0;
        flavored_history_differs(named, flavor, model);
        flavored_thinking_differs(repaired, flavor, policy, rules1);
        flavored_tools_differ(thought, flavor, rules2);
        if flavor == RelayFlavor::DeepSeek {
            crate::deepseek_normal_laws::other_settings_are_kept(named, model, Seq::empty(), ""@);
        }
        assert forall|key: Seq<char>|
            key != "model"@ && key != "messages"@ && key != "thinking"@ && key != "tool_choice"@ && key != "tools"@ && key
                != "mcp_servers"@ && key != "max_tokens"@ && key != "reasoning_effort"@ && key
                != "output_config"@ implies #[trigger] sent.get(key) == body.get(key) by {
            assert(named.get(key) == body.get(key));
            assert(repaired.get(key) == named.get(key));
            assert(thought.get(key) == repaired.get(key));
        }
        assert(repaired.get("model"@) == named.get("model"@));
        if flavor != RelayFlavor::DeepSeek {
            assert(repaired.get("max_tokens"@) == named.get("max_tokens"@));
            assert(repaired.get("reasoning_effort"@) == named.get("reasoning_effort"@));
            assert(repaired.get("output_config"@) == named.get("output_config"@));
        }
        key_comes_through(body, named, repaired, thought, sent, "model"@);
        key_comes_through(body, named, repaired, thought, sent, "max_tokens"@);
        key_comes_through(body, named, repaired, thought, sent, "messages"@);
        key_comes_through(body, named, repaired, thought, sent, "mcp_servers"@);
        key_comes_through(body, named, repaired, thought, sent, "reasoning_effort"@);
        key_comes_through(body, named, repaired, thought, sent, "output_config"@);
    }
}

proof fn key_comes_through(body: JsonV, named: JsonV, repaired: JsonV, thought: JsonV, sent: JsonV, key: Seq<char>)
    requires
        differs_at(body, named, set!["model"@]),
        differs_at(repaired, thought, set!["thinking"@, "tool_choice"@]),
        differs_at(thought, sent, set!["tools"@, "tool_choice"@, "mcp_servers"@]),
    ensures
        key != "model"@ ==> named.get(key) == body.get(key),
        key != "thinking"@ && key != "tool_choice"@ ==> thought.get(key) == repaired.get(key),
        key != "tools"@ && key != "tool_choice"@ && key != "mcp_servers"@ ==> sent.get(key) == thought.get(key),
{
}

/// The tools of a request that is sent are those that were declared, one by one and in their order, but for those
/// that the upstream lacks; each is as it was declared, with another form of its input schema at most.
pub proof fn declared_tools_are_sent(body: JsonV, model: Seq<char>, policy: Option<Seq<char>>, contract: Option<Seq<char>>)
    requires
        well_keyed(body),
    ensures
        relayed(body, model, policy, contract) matches Ok((sent, dropped, rules)) ==> {
            &&& body.get("tools"@) is None ==> sent.get("tools"@) is None
            &&& body.items_at("tools"@) matches Some(tools) ==> {
                let meant = tools.filter(|tool: JsonV| to_be_sent(tool, flavor_of(contract, model)));
                if meant.len() == 0 {
                    sent.get("tools"@) is None
                } else {
                    sent.items_at("tools"@) matches Some(out) && are_sent_as(out, meant)
                }
            }
        },
{
    if relayed(body, model, policy, contract) is Ok {
        steps_of_a_request(body, model, policy, contract);
        let flavor = flavor_of(contract, model);
        let named = body.with("model"@, JsonV::Str(model));
        let (repaired, rules1) = flavored_history(named, flavor, model);
        let (thought, rules2) = flavored_thinking(repaired, flavor, policy, rules1);
        flavored_tools_differ(thought, flavor, rules2);
    }
}

/// The thinking and the choice of a tool in a request that is sent, by the policy. Where the policy is to think, the
/// request does, within a budget below its token limit, and is forced to no tool. Where the upstream's default
/// holds, a request that names a tool does not think, and one that leaves thinking open does not speak of it. Under
/// any other policy `auto` becomes `adaptive`. Everything else stays, and a tool that is chosen by name is one that
/// is sent.
pub proof fn policies_decide_on_thinking(body: JsonV, model: Seq<char>, policy: Option<Seq<char>>, contract: Option<Seq<char>>)
    requires
        well_keyed(body),
        flavor_of(contract, model) != RelayFlavor::DeepSeek,
    ensures
        relayed(body, model, policy, contract) matches Ok((sent, dropped, rules)) ==> {
            let thinking = body.get("thinking"@);
            let told = sent.get("thinking"@);
            let kind = type_at(body, "thinking"@);
            let choice = type_at(body, "tool_choice"@);
            let freed = policy == Some("enabled"@) && (choice == Some("any"@) || choice == Some("tool"@));
            let chosen = if freed {
                None
            } else {
                body.get("tool_choice"@)
            };
            &&& policy == Some("enabled"@) && kind == Some("enabled"@) ==> told == thinking
            &&& policy == Some("enabled"@) && kind != Some("enabled"@) ==> {
                &&& type_at(sent, "thinking"@) == Some("enabled"@)
                &&& told matches Some(value) && value.unsigned_at("budget_tokens"@) matches Some(budget) && {
                    &&& 1 <= budget <= 1024
                    &&& body.unsigned_at("max_tokens"@) matches Some(limit) ==> {
                        &&& limit >= 2 ==> budget < limit
                        &&& 2 <= limit <= 1024 ==> budget == limit - 1
                        &&& limit > 1024 ==> budget == 1024
                    }
                    &&& body.unsigned_at("max_tokens"@) is None ==> budget == 1024
                }
            }
            &&& policy == Some("upstream_default"@) && choice == Some("tool"@) ==> told == Some(
                JsonV::object().and("type"@, JsonV::Str("disabled"@)),
            )
            &&& policy == Some("upstream_default"@) && choice != Some("tool"@) ==> if kind == Some("auto"@) || kind == Some(
                "adaptive"@,
            ) {
                told is None
            } else {
                told == thinking
            }
            &&& policy != Some("upstream_default"@) && policy != Some("enabled"@) ==> if kind == Some("auto"@) {
                told == Some(thinking.unwrap().with("type"@, JsonV::Str("adaptive"@)))
            } else {
                told == thinking
            }
            &&& match sent.items_at("tools"@) {
                Some(tools) => sent.get("tool_choice"@) == choice_among(chosen, tools),
                None => sent.get("tool_choice"@) == (if flavor_of(contract, model) == RelayFlavor::Generic && body.get(
                    "tools"@,
                ) is None {
                    chosen
                } else {
                    None
                }),
            }
        },
{
    request_words_differ();
    reveal_strlit("enabled");
    reveal_strlit("upstream_default");
    reveal_strlit("type");
    reveal_strlit("budget_tokens");
    assert("enabled"@.len() == 7 && "upstream_default"@.len() == 16);
    assert("type"@.len() == 4 && "budget_tokens"@.len() == 13);
    if relayed(body, model, policy, contract) is Ok {
        steps_of_a_request(body, model, policy, contract);
        let flavor = flavor_of(contract, model);
        let named = body.with("model"@, JsonV::Str(model));
        let (repaired, rules1) = flavored_history(named, flavor, model);
        let (thought, rules2) = flavored_thinking(repaired, flavor, policy, rules1);
        let sent = flavored_tools(thought, flavor, rules2).0;
        flavored_history_differs(named, flavor, model);
        flavored_thinking_differs(repaired, flavor, policy, rules1);
        flavored_tools_differ(thought, flavor, rules2);
        flavored_tools_choose(thought, flavor, rules2);
        key_comes_through(body, named, repaired, thought, sent, "thinking"@);
        key_comes_through(body, named, repaired, thought, sent, "max_tokens"@);
        assert(repaired.get("thinking"@) == named.get("thinking"@));
        assert(repaired.get("max_tokens"@) == named.get("max_tokens"@));
        let free = if crate::anthropic_compat::forces_a_tool(repaired) {
            repaired.without("tool_choice"@)
        } else {
            repaired
        };
        taking_differs_at(repaired, "tool_choice"@);
        taking_differs_at(repaired, "thinking"@);
        giving_differs_at(repaired, "thinking"@, type_only("disabled"@));
        assert(free.get("thinking"@) == repaired.get("thinking"@));
        assert(free.get("max_tokens"@) == repaired.get("max_tokens"@));
        let on = type_only("enabled"@).and(
            "budget_tokens"@,
            JsonV::Number(NumberV::PosInt(thinking_budget(free.unsigned_at("max_tokens"@)))),
        );
        giving_differs_at(free, "thinking"@, on);
        let entries = on->Object_0;
        assert(entries.len() == 2);
        assert(entries[0] == ("type"@, JsonV::Str("enabled"@)));
        key_index_is(entries, "type"@, 0);
        key_index_is(entries, "budget_tokens"@, 1);
        if let Some(given) = repaired.get("thinking"@) {
            giving_differs_at(repaired, "thinking"@, given.with("type"@, JsonV::Str("adaptive"@)));
        }
    }
}

/// A request for the native endpoint names the model that it is for, keeps its messages and everything else that it
/// says, caps its token limit, loses the tools that the endpoint lacks and no others, and does not think where a
/// tool must be called.
pub proof fn native_requests_keep_their_settings(body: JsonV, model: Seq<char>)
    requires
        keys_are_distinct(body),
    ensures
        deepseek_request(body, model) is None <==> body.items_at("messages"@) is None,
        deepseek_request(body, model) matches Some((sent, dropped, rules)) ==> {
            &&& sent.text_at("model"@) == Some(model)
            &&& sent.get("messages"@) == body.get("messages"@)
            &&& sent.get("mcp_servers"@) is None
            &&& forall|key: Seq<char>|
                key != "model"@ && key != "max_tokens"@ && key != "thinking"@ && key != "tool_choice"@ && key != "tools"@
                    && key != "mcp_servers"@ ==> #[trigger] sent.get(key) == body.get(key)
            &&& match body.unsigned_at("max_tokens"@) {
                Some(limit) => {
                    let most: u64 = if model == "deepseek-v4-pro"@ {
                        65_536
                    } else if model == "deepseek-v4-flash"@ {
                        32_768
                    } else {
                        8_192
                    };
                    sent.unsigned_at("max_tokens"@) == Some(
                        if limit <= most {
                            limit
                        } else {
                            most
                        },
                    )
                },
                None => sent.get("max_tokens"@) == body.get("max_tokens"@),
            }
            &&& match body.items_at("tools"@) {
                Some(tools) => {
                    let kept = tools.filter(
                        |tool: JsonV| server_tool_kind(tool) != Some(AnthropicServerToolKind::Unsupported),
                    );
                    &&& kept.len() == 0 ==> sent.get("tools"@) is None && sent.get("tool_choice"@) is None
                    &&& kept.len() > 0 ==> {
                        &&& sent.items_at("tools"@) == Some(kept)
                        &&& sent.get("tool_choice"@) == choice_among(body.get("tool_choice"@), kept)
                    }
                },
                None => sent.get("tools"@) == body.get("tools"@) && sent.get("tool_choice"@) is None,
            }
            &&& if type_at(sent, "tool_choice"@) == Some("any"@) || type_at(sent, "tool_choice"@) == Some("tool"@) {
                sent.get("thinking"@) == Some(JsonV::object().and("type"@, JsonV::Str("disabled"@)))
            } else {
                sent.get("thinking"@) == body.get("thinking"@)
            }
        },
{
    request_words_differ();
    if body.items_at("messages"@) is Some {
        let named = body.with("model"@, JsonV::Str(model));
        giving_differs_at(body, "model"@, JsonV::Str(model));
        let aimed = targeted(body, model);
        let two = set!["model"@, "max_tokens"@];
        fewer_differences(body, named, set!["model"@], two);
        if let Some(limit) = named.unsigned_at("max_tokens"@) {
            let value = JsonV::Number(NumberV::PosInt(crate::deepseek_compat::clamped(limit, model)));
            giving_differs_at(named, "max_tokens"@, value);
            differences_add_up(body, named, aimed, two, set!["max_tokens"@], two);
        }
        assert(named.get("max_tokens"@) == body.get("max_tokens"@));
        assert(aimed.get("model"@) == named.get("model"@));
        assert(aimed.get("tools"@) == body.get("tools"@));
        assert(aimed.get("tool_choice"@) == body.get("tool_choice"@));
        assert(aimed.get("thinking"@) == body.get("thinking"@));
        assert(aimed.get("messages"@) == body.get("messages"@));
        let policy = AnthropicServerToolPolicy::DeepSeek;
        let bare = aimed.without("mcp_servers"@);
        taking_differs_at(aimed, "mcp_servers"@);
        assert(bare.get("tools"@) == aimed.get("tools"@));
        assert(bare.get("tool_choice"@) == aimed.get("tool_choice"@));
        let three = set!["mcp_servers"@, "tools"@, "tool_choice"@];
        fewer_differences(aimed, bare, set!["mcp_servers"@], three);
        let sifted_body = under_policy(aimed, policy, Seq::empty()).0;
        if let Some(tools) = bare.items_at("tools"@) {
            let dropped: usize = if aimed.get("mcp_servers"@) is Some {
                1
            } else {
                0
            };
            let rules1 = crate::deepseek_compat::with_rule_if(
                Seq::empty(),
                aimed.get("mcp_servers"@) is Some,
                crate::anthropic_compat::unsupported_rule(policy),
            );
            let kept = sifted(tools, policy, dropped, rules1).kept;
            crate::anthropic_compat_laws::unsupported_tools_go(tools, policy, dropped, rules1);
            let given = with_tools(bare, kept);
            tools_differ(bare, kept);
            taking_differs_at(bare, "tools"@);
            giving_differs_at(bare, "tools"@, JsonV::Array(kept));
            assert(given.get("tool_choice"@) == bare.get("tool_choice"@));
            fitting_chooses(given);
            differences_add_up(aimed, bare, sifted_body, three, set!["tools"@, "tool_choice"@], three);
            assert(sifted_body.get("mcp_servers"@) == bare.get("mcp_servers"@));
        } else {
            fitting_chooses(bare);
            fitting_differs(bare);
            differences_add_up(aimed, bare, sifted_body, three, set!["tool_choice"@], three);
            assert(sifted_body.get("tools"@) == bare.get("tools"@));
            assert(sifted_body.get("mcp_servers"@) == bare.get("mcp_servers"@));
        }
        let sent = calmed(sifted_body);
        giving_differs_at(sifted_body, "thinking"@, type_only("disabled"@));
        assert(sifted_body.get("thinking"@) == aimed.get("thinking"@));
        assert(sifted_body.get("messages"@) == aimed.get("messages"@));
        assert(sifted_body.get("model"@) == aimed.get("model"@));
        assert(sifted_body.get("max_tokens"@) == aimed.get("max_tokens"@));
        assert(sent.get("messages"@) == sifted_body.get("messages"@));
        assert(sent.get("model"@) == sifted_body.get("model"@));
        assert(sent.get("max_tokens"@) == sifted_body.get("max_tokens"@));
        assert(sent.get("tools"@) == sifted_body.get("tools"@));
        assert(sent.get("tool_choice"@) == sifted_body.get("tool_choice"@));
        assert(sent.get("mcp_servers"@) == sifted_body.get("mcp_servers"@));
        assert forall|key: Seq<char>|
            key != "model"@ && key != "max_tokens"@ && key != "thinking"@ && key != "tool_choice"@ && key != "tools"@ && key
                != "mcp_servers"@ implies #[trigger] sent.get(key) == body.get(key) by {
            assert(aimed.get(key) == body.get(key));
            assert(sifted_body.get(key) == aimed.get(key));
        }
    }
}

/// A request whose channel is under a contract follows the peculiarities of that contract, whatever its model is
/// called; without one the name of the model decides.
pub proof fn contracts_decide_the_flavor(contract: Option<Seq<char>>, model: Seq<char>)
    ensures
        contract == Some("kimi-anthropic-relay"@) ==> flavor_of(contract, model) == RelayFlavor::Kimi,
        contract == Some("deepseek-native"@) ==> flavor_of(contract, model) == RelayFlavor::DeepSeek,
        contract is Some && contract != Some("kimi-anthropic-relay"@) && contract != Some("deepseek-native"@) ==> flavor_of(
            contract,
            model,
        ) == RelayFlavor::Generic,
        contract is None && has_part(lowered(model), "kimi"@) ==> flavor_of(contract, model) == RelayFlavor::Kimi,
        contract is None && !has_part(lowered(model), "kimi"@) && has_part(lowered(model), "deepseek"@) ==> flavor_of(
            contract,
            model,
        ) == RelayFlavor::DeepSeek,
        contract is None && !has_part(lowered(model), "kimi"@) && !has_part(lowered(model), "deepseek"@) ==> flavor_of(
            contract,
            model,
        ) == RelayFlavor::Generic,
{
    reveal_strlit("kimi-anthropic-relay");
    reveal_strlit("deepseek-native");
    assert("kimi-anthropic-relay"@.len() == 20 && "deepseek-native"@.len() == 15);
}

/// The tools of a server that upstreams lack are those that fetch pages, run code, search for tools, advise, or stand
/// for servers of their own; a search of the web is none of them, and nor is a tool of the client or of a kind that
/// is not known.
pub proof fn server_tools_are_told_apart(tool: JsonV, kind: Seq<char>, name: Seq<char>)
    requires
        tool.text_at("type"@) == Some(kind),
        kind.len() > 0,
    ensures
        ({
            let found = server_tool_kind(tool);
            let called = tool.text_at("name"@) == Some(name);
            &&& found is Some
            &&& called && name == "web_search"@ && "web_search_"@.is_prefix_of(kind) ==> found == Some(
                AnthropicServerToolKind::WebSearch,
            )
            &&& called && name == "web_fetch"@ && "web_fetch_"@.is_prefix_of(kind) ==> found == Some(
                AnthropicServerToolKind::Unsupported,
            )
            &&& called && name == "code_execution"@ && "code_execution_"@.is_prefix_of(kind) ==> found == Some(
                AnthropicServerToolKind::Unsupported,
            )
            &&& kind == "mcp_toolset"@ || kind == "mcp_servers"@ ==> found == Some(AnthropicServerToolKind::Unsupported)
            &&& called && "tool_search_tool_"@.is_prefix_of(kind) && "tool_search_tool_"@.is_prefix_of(name) ==> found
                == Some(AnthropicServerToolKind::Unsupported)
            &&& called && "advisor_"@.is_prefix_of(kind) && "advisor"@.is_prefix_of(name) ==> found == Some(
                AnthropicServerToolKind::Unsupported,
            )
            &&& !"web_search_"@.is_prefix_of(kind) && !"web_fetch_"@.is_prefix_of(kind) && !"code_execution_"@.is_prefix_of(
                kind,
            ) && kind != "mcp_toolset"@ && kind != "mcp_servers"@ && !"tool_search_tool_"@.is_prefix_of(kind)
                && !"advisor_"@.is_prefix_of(kind) ==> found == Some(AnthropicServerToolKind::Unknown)
        }),
{
    reveal_strlit("web_search_");
    reveal_strlit("web_fetch_");
    reveal_strlit("code_execution_");
    reveal_strlit("mcp_toolset");
    reveal_strlit("mcp_servers");
    reveal_strlit("tool_search_tool_");
    reveal_strlit("advisor_");
    reveal_strlit("web_search");
    reveal_strlit("web_fetch");
    reveal_strlit("code_execution");
    reveal_strlit("advisor");
    assert("web_search"@.len() == 10 && "web_fetch"@.len() == 9 && "code_execution"@.len() == 14);
    assert("mcp_toolset"@[0] == 'm' && "mcp_servers"@[0] == 'm' && "web_search_"@[0] == 'w');
    if "web_search_"@.is_prefix_of(kind) {
        assert(kind[0] == "web_search_"@[0]);
        assert(kind[4] == "web_search_"@[4]);
    }
    if "web_fetch_"@.is_prefix_of(kind) {
        assert(kind[0] == "web_fetch_"@[0]);
        assert(kind[4] == "web_fetch_"@[4]);
    }
    if "code_execution_"@.is_prefix_of(kind) {
        assert(kind[0] == "code_execution_"@[0]);
    }
    if "tool_search_tool_"@.is_prefix_of(kind) {
        assert(kind[0] == "tool_search_tool_"@[0]);
    }
    if "advisor_"@.is_prefix_of(kind) {
        assert(kind[0] == "advisor_"@[0]);
    }
}

} // verus!
