//! What a value that a schema takes must be, keyword by keyword.
use crate::json::JsonV;
use crate::json_model::{float_bits, float_place, json_eq, key_index_finds};
use crate::tool_schema::{
    all_supported, array_check, branch_count, entries_check, entry_schema, group_check, has_type, if_check, is_supported,
    items_check, leaf_check, logic_check, object_check, optional_check, pattern_match, plain_rules, ref_check, schema_check,
    Check, Quorum, SchemaContextV, MAX_SCHEMA_NODES,
};
use vstd::prelude::*;

verus! {

/// Whether a schema takes a value, with as many levels and some schemas left.
pub open spec fn takes(instance: JsonV, schema: JsonV, cx: SchemaContextV, inner: nat, refs: Set<Seq<char>>) -> bool {
    exists|nodes: usize| #[trigger] schema_check(instance, schema, cx, inner, nodes, refs) is Valid
}

/// What the names of types stand for.
pub open spec fn is_of_kind(instance: JsonV, kind: Seq<char>) -> bool {
    &&& kind == "null"@ ==> instance == JsonV::Null
    &&& kind == "boolean"@ ==> instance is Bool
    &&& kind == "object"@ ==> instance is Object
    &&& kind == "array"@ ==> instance is Array
    &&& kind == "number"@ ==> instance is Number
    &&& kind == "integer"@ ==> instance is Number && !(instance->Number_0 is Float)
    &&& kind == "string"@ ==> instance is Str
    &&& kind == "null"@ || kind == "boolean"@ || kind == "object"@ || kind == "array"@ || kind == "number"@ || kind
        == "integer"@ || kind == "string"@
}

proof fn kinds_are_told_apart(instance: JsonV, kind: Seq<char>)
    ensures
        has_type(instance, kind) == is_of_kind(instance, kind),
{
    reveal_strlit("null");
    reveal_strlit("boolean");
    reveal_strlit("object");
    reveal_strlit("array");
    reveal_strlit("number");
    reveal_strlit("integer");
    reveal_strlit("string");
    assert("null"@.len() == 4 && "boolean"@.len() == 7 && "object"@.len() == 6 && "array"@.len() == 5);
    assert("number"@.len() == 6 && "integer"@.len() == 7 && "string"@.len() == 6);
    assert("boolean"@[0] == 'b' && "integer"@[0] == 'i' && "object"@[0] == 'o' && "number"@[0] == 'n' && "string"@[0] == 's');
}

proof fn branches_that_take(
    instance: JsonV,
    branches: Seq<JsonV>,
    cx: SchemaContextV,
    inner: nat,
    nodes: usize,
    refs: Set<Seq<char>>,
)
    ensures
        branch_count(instance, branches, cx, inner, nodes, refs) matches Ok(count) ==> {
            &&& count <= branches.len()
            &&& count == branches.len() ==> forall|i: int|
                0 <= i < branches.len() ==> schema_check(instance, #[trigger] branches[i], cx, inner, nodes, refs) is Valid
            &&& count >= 1 ==> exists|i: int|
                0 <= i < branches.len() && schema_check(instance, #[trigger] branches[i], cx, inner, nodes, refs) is Valid
            &&& count == 0 ==> forall|i: int|
                0 <= i < branches.len() ==> schema_check(instance, #[trigger] branches[i], cx, inner, nodes, refs) is Invalid
            &&& count == 1 ==> forall|i: int, j: int|
                0 <= i < j < branches.len() && schema_check(instance, #[trigger] branches[i], cx, inner, nodes, refs) is Valid
                    ==> schema_check(instance, #[trigger] branches[j], cx, inner, nodes, refs) is Invalid
        },
    decreases branches.len(),
{
    if branches.len() > 0 {
        let before = branches.drop_last();
        branches_that_take(instance, before, cx, inner, nodes, refs);
        assert(forall|i: int| 0 <= i < before.len() ==> #[trigger] before[i] == branches[i]);
        let end = branches.len() - 1;
        if let Ok(count) = branch_count(instance, branches, cx, inner, nodes, refs) {
            let fewer = branch_count(instance, before, cx, inner, nodes, refs)->Ok_0;
            assert(fewer <= before.len());
            if count == branches.len() {
                assert(fewer == before.len());
                assert forall|i: int| 0 <= i < branches.len() implies schema_check(
                    instance,
                    #[trigger] branches[i],
                    cx,
                    inner,
                    nodes,
                    refs,
                ) is Valid by {
                    if i < before.len() {
                        assert(schema_check(instance, before[i], cx, inner, nodes, refs) is Valid);
                    }
                }
            }
            if count >= 1 {
                if fewer >= 1 {
                    let i = choose|i: int|
                        0 <= i < before.len() && schema_check(instance, #[trigger] before[i], cx, inner, nodes, refs) is Valid;
                    assert(schema_check(instance, branches[i], cx, inner, nodes, refs) is Valid);
                } else {
                    assert(schema_check(instance, branches[end], cx, inner, nodes, refs) is Valid);
                }
            }
            if count == 0 {
                assert forall|i: int| 0 <= i < branches.len() implies schema_check(
                    instance,
                    #[trigger] branches[i],
                    cx,
                    inner,
                    nodes,
                    refs,
                ) is Invalid by {
                    if i < before.len() {
                        assert(schema_check(instance, before[i], cx, inner, nodes, refs) is Invalid);
                    }
                }
            }
            if count == 1 {
                assert forall|i: int, j: int|
                    0 <= i < j < branches.len() && schema_check(instance, #[trigger] branches[i], cx, inner, nodes, refs)
                        is Valid implies schema_check(instance, #[trigger] branches[j], cx, inner, nodes, refs) is Invalid by {
                    assert(schema_check(instance, before[i], cx, inner, nodes, refs) is Valid);
                    if j < before.len() {
                        assert(schema_check(instance, before[j], cx, inner, nodes, refs) is Invalid || fewer != 1);
                    }
                    if fewer == 0 {
                        assert(schema_check(instance, before[i], cx, inner, nodes, refs) is Invalid);
                    }
                }
            }
        }
    }
}

proof fn items_are_taken(items: Seq<JsonV>, schema: JsonV, cx: SchemaContextV, inner: nat, nodes: usize, refs: Set<Seq<char>>)
    ensures
        items_check(items, schema, cx, inner, nodes, refs) is Valid ==> forall|i: int|
            0 <= i < items.len() ==> takes(#[trigger] items[i], schema, cx, inner, refs),
    decreases items.len(),
{
    if items.len() > 0 && items_check(items, schema, cx, inner, nodes, refs) is Valid {
        let before = items.drop_last();
        items_are_taken(before, schema, cx, inner, nodes, refs);
        assert forall|i: int| 0 <= i < items.len() implies takes(#[trigger] items[i], schema, cx, inner, refs) by {
            if i < before.len() {
                assert(before[i] == items[i]);
            } else {
                let n = items_check(before, schema, cx, inner, nodes, refs)->Valid_0;
                assert(schema_check(items[i], schema, cx, inner, n, refs) is Valid);
            }
        }
    }
}

/// Whether an entry of an object is one that a schema takes: what it declares under the name, or else what it allows
/// besides.
pub open spec fn entry_is_taken(
    entry: (Seq<char>, JsonV),
    schema: JsonV,
    cx: SchemaContextV,
    inner: nat,
    refs: Set<Seq<char>>,
) -> bool {
    let declared = match schema.get("properties"@) {
        Some(properties) => properties.get(entry.0),
        None => None,
    };
    match declared {
        Some(own) => takes(entry.1, own, cx, inner, refs),
        None => match schema.get("additionalProperties"@) {
            None => true,
            Some(JsonV::Bool(allowed)) => allowed,
            Some(other) => other is Object && takes(entry.1, other, cx, inner, refs),
        },
    }
}

proof fn entries_are_taken(
    entries: Seq<(Seq<char>, JsonV)>,
    schema: JsonV,
    cx: SchemaContextV,
    inner: nat,
    nodes: usize,
    refs: Set<Seq<char>>,
)
    ensures
        entries_check(entries, schema, cx, inner, nodes, refs) is Valid ==> forall|i: int|
            0 <= i < entries.len() ==> entry_is_taken(#[trigger] entries[i], schema, cx, inner, refs),
    decreases entries.len(),
{
    if entries.len() > 0 && entries_check(entries, schema, cx, inner, nodes, refs) is Valid {
        let before = entries.drop_last();
        entries_are_taken(before, schema, cx, inner, nodes, refs);
        assert forall|i: int| 0 <= i < entries.len() implies entry_is_taken(
            #[trigger] entries[i],
            schema,
            cx,
            inner,
            refs,
        ) by {
            if i < before.len() {
                assert(before[i] == entries[i]);
            } else {
                let n = entries_check(before, schema, cx, inner, nodes, refs)->Valid_0;
                if let Ok(Some(own)) = entry_schema(schema, entries[i].0) {
                    assert(optional_check(entries[i].1, Some(own), cx, inner, n, refs) is Valid);
                    assert(schema_check(entries[i].1, own, cx, inner, n, refs) is Valid);
                }
            }
        }
    }
}

/// What the keywords say of the kind of a value, and which values they list.
pub open spec fn is_one_of_those_named(instance: JsonV, schema: JsonV) -> bool {
    &&& schema.text_at("type"@) matches Some(kind) ==> is_of_kind(instance, kind)
    &&& schema.items_at("type"@) matches Some(kinds) ==> exists|i: int|
        0 <= i < kinds.len() && ((#[trigger] kinds[i]) matches JsonV::Str(kind) && is_of_kind(instance, kind))
    &&& schema.get("const"@) matches Some(value) ==> json_eq(instance, value)
    &&& schema.items_at("enum"@) matches Some(values) ==> exists|i: int|
        0 <= i < values.len() && json_eq(#[trigger] values[i], instance)
}

/// What the keywords say of the size and the form of a value.
pub open spec fn has_the_size_named(instance: JsonV, schema: JsonV) -> bool {
    &&& instance matches JsonV::Str(text) ==> {
        &&& schema.unsigned_at("minLength"@) matches Some(n) ==> n <= text.len()
        &&& schema.unsigned_at("maxLength"@) matches Some(n) ==> text.len() <= n
        &&& schema.text_at("pattern"@) matches Some(pattern) ==> pattern_match(pattern, text) == Some(true)
    }
    &&& instance matches JsonV::Array(items) ==> {
        &&& schema.unsigned_at("minItems"@) matches Some(n) ==> n <= items.len()
        &&& schema.unsigned_at("maxItems"@) matches Some(n) ==> items.len() <= n
        &&& schema.get("uniqueItems"@) == Some(JsonV::Bool(true)) ==> forall|i: int, j: int|
            0 <= i < j < items.len() ==> !json_eq(#[trigger] items[j], #[trigger] items[i])
    }
    &&& instance matches JsonV::Object(entries) ==> {
        &&& schema.unsigned_at("minProperties"@) matches Some(n) ==> n <= entries.len()
        &&& schema.unsigned_at("maxProperties"@) matches Some(n) ==> entries.len() <= n
        &&& schema.items_at("required"@) matches Some(names) ==> forall|i: int|
            0 <= i < names.len() ==> ((#[trigger] names[i]) matches JsonV::Str(name) && instance.get(name) is Some)
    }
}

/// What the keywords say of the place of a number among numbers.
pub open spec fn lies_within_the_bounds(instance: JsonV, schema: JsonV) -> bool {
    &&& instance matches JsonV::Number(n) ==> {
        &&& schema.get("minimum"@) matches Some(JsonV::Number(m)) ==> float_place(float_bits(m)) <= float_place(float_bits(n))
        &&& schema.get("maximum"@) matches Some(JsonV::Number(m)) ==> float_place(float_bits(n)) <= float_place(float_bits(m))
        &&& schema.get("exclusiveMinimum"@) matches Some(JsonV::Number(m)) ==> float_place(float_bits(m)) < float_place(
            float_bits(n),
        )
        &&& schema.get("exclusiveMaximum"@) matches Some(JsonV::Number(m)) ==> float_place(float_bits(n)) < float_place(
            float_bits(m),
        )
    }
}

proof fn plain_values_are_named(instance: JsonV, schema: JsonV)
    requires
        plain_rules(instance, schema),
    ensures
        is_one_of_those_named(instance, schema),
{
    if let Some(kind) = schema.text_at("type"@) {
        kinds_are_told_apart(instance, kind);
    }
    if let Some(kinds) = schema.items_at("type"@) {
        let i = choose|i: int| 0 <= i < kinds.len() && has_type(instance, (#[trigger] kinds[i])->Str_0);
        kinds_are_told_apart(instance, kinds[i]->Str_0);
        assert(kinds[i] is Str);
    }
    if let Some(values) = schema.items_at("enum"@) {
        let i = choose|i: int| 0 <= i < values.len() && json_eq(#[trigger] values[i], instance);
        assert(json_eq(values[i], instance));
    }
}

/// What the keywords say of the parts of a value.
pub open spec fn keeps_inner_keywords(
    instance: JsonV,
    schema: JsonV,
    cx: SchemaContextV,
    inner: nat,
    refs: Set<Seq<char>>,
) -> bool {
    &&& schema.items_at("allOf"@) matches Some(branches) ==> forall|i: int|
        0 <= i < branches.len() ==> takes(instance, #[trigger] branches[i], cx, inner, refs)
    &&& schema.items_at("anyOf"@) matches Some(branches) ==> exists|i: int|
        0 <= i < branches.len() && takes(instance, #[trigger] branches[i], cx, inner, refs)
    &&& schema.items_at("oneOf"@) matches Some(branches) ==> exists|i: int|
        0 <= i < branches.len() && takes(instance, #[trigger] branches[i], cx, inner, refs)
    &&& instance matches JsonV::Array(items) ==> (schema.get("items"@) matches Some(own) ==> forall|i: int|
        0 <= i < items.len() ==> takes(#[trigger] items[i], own, cx, inner, refs))
    &&& instance matches JsonV::Object(entries) ==> forall|i: int|
        0 <= i < entries.len() ==> entry_is_taken(#[trigger] entries[i], schema, cx, inner, refs)
}

/// A value that a schema takes obeys every keyword of it, and a schema with a keyword that is not known takes nothing.
pub proof fn taken_values_obey_every_keyword(
    instance: JsonV,
    schema: JsonV,
    cx: SchemaContextV,
    left: nat,
    nodes: usize,
    refs: Set<Seq<char>>,
)
    requires
        schema_check(instance, schema, cx, left, nodes, refs) is Valid,
    ensures
        left > 0,
        schema == JsonV::Bool(true) || schema is Object,
        schema matches JsonV::Object(entries) ==> {
            &&& forall|i: int| 0 <= i < entries.len() ==> is_supported((#[trigger] entries[i]).0)
            &&& is_one_of_those_named(instance, schema)
            &&& has_the_size_named(instance, schema)
            &&& lies_within_the_bounds(instance, schema)
            &&& keeps_inner_keywords(instance, schema, cx, (left - 1) as nat, refs)
        },
{
    if let JsonV::Object(own) = schema {
        let inner = (left - 1) as nat;
        let entered = (nodes + 1) as usize;
        let n1 = ref_check(instance, schema, cx, inner, entered, refs)->Valid_0;
        assert(plain_rules(instance, schema));
        assert(logic_check(instance, schema, cx, inner, n1, refs) is Valid);
        let n2 = if_check(instance, schema, cx, inner, n1, refs)->Valid_0;
        let n3 = object_check(instance, schema, cx, inner, n2, refs)->Valid_0;
        let n4 = array_check(instance, schema, cx, inner, n3, refs)->Valid_0;
        assert(leaf_check(instance, schema, n4, cx.tests) is Valid);
        plain_values_are_named(instance, schema);
        assert(has_the_size_named(instance, schema));
        assert(lies_within_the_bounds(instance, schema));
        assert(group_check(instance, schema, "allOf"@, Quorum::All, cx, inner, n1, refs) is Valid);
        assert(group_check(instance, schema, "anyOf"@, Quorum::Any, cx, inner, n1, refs) is Valid);
        assert(group_check(instance, schema, "oneOf"@, Quorum::One, cx, inner, n1, refs) is Valid);
        if let Some(branches) = schema.items_at("allOf"@) {
            branches_that_take(instance, branches, cx, inner, n1, refs);
        }
        if let Some(branches) = schema.items_at("anyOf"@) {
            branches_that_take(instance, branches, cx, inner, n1, refs);
            let i = choose|i: int|
                0 <= i < branches.len() && schema_check(instance, #[trigger] branches[i], cx, inner, n1, refs) is Valid;
            assert(takes(instance, branches[i], cx, inner, refs));
        }
        if let Some(branches) = schema.items_at("oneOf"@) {
            branches_that_take(instance, branches, cx, inner, n1, refs);
            let i = choose|i: int|
                0 <= i < branches.len() && schema_check(instance, #[trigger] branches[i], cx, inner, n1, refs) is Valid;
            assert(takes(instance, branches[i], cx, inner, refs));
        }
        if let JsonV::Array(items) = instance {
            if let Some(own) = schema.get("items"@) {
                items_are_taken(items, own, cx, inner, n3, refs);
            }
        }
        if let JsonV::Object(entries) = instance {
            entries_are_taken(entries, schema, cx, inner, n2, refs);
        }
    }
}

/// Where `oneOf` is given, no second branch takes the value.
pub proof fn one_branch_alone_takes(
    instance: JsonV,
    schema: JsonV,
    cx: SchemaContextV,
    left: nat,
    nodes: usize,
    refs: Set<Seq<char>>,
    i: int,
    j: int,
)
    requires
        schema_check(instance, schema, cx, left, nodes, refs) is Valid,
        schema is Object,
        schema.get("$ref"@) is None,
    ensures
        schema.items_at("oneOf"@) matches Some(branches) ==> (0 <= i < j < branches.len() && schema_check(
            instance,
            branches[i],
            cx,
            (left - 1) as nat,
            (nodes + 1) as usize,
            refs,
        ) is Valid ==> schema_check(instance, branches[j], cx, (left - 1) as nat, (nodes + 1) as usize, refs) is Invalid),
{
    let inner = (left - 1) as nat;
    let entered = (nodes + 1) as usize;
    assert(ref_check(instance, schema, cx, inner, entered, refs) == Check::Valid(entered));
    assert(logic_check(instance, schema, cx, inner, entered, refs) is Valid);
    assert(group_check(instance, schema, "oneOf"@, Quorum::One, cx, inner, entered, refs) is Valid);
    if let Some(branches) = schema.items_at("oneOf"@) {
        branches_that_take(instance, branches, cx, inner, entered, refs);
    }
}

/// A condition decides which of two schemas counts.
pub proof fn conditions_decide(
    instance: JsonV,
    schema: JsonV,
    cx: SchemaContextV,
    left: nat,
    nodes: usize,
    refs: Set<Seq<char>>,
)
    requires
        schema_check(instance, schema, cx, left, nodes, refs) is Valid,
        schema is Object,
        schema.get("$ref"@) is None,
    ensures
        schema.get("if"@) matches Some(condition) ==> {
            let inner = (left - 1) as nat;
            let entered = (nodes + 1) as usize;
            &&& schema_check(instance, condition, cx, inner, entered, refs) is Valid ==> (schema.get("then"@) matches Some(own)
                ==> takes(instance, own, cx, inner, refs))
            &&& schema_check(instance, condition, cx, inner, entered, refs) is Invalid ==> (schema.get("else"@) matches Some(own)
                ==> takes(instance, own, cx, inner, refs))
        },
        schema.get("if"@) is None ==> schema.get("then"@) is None && schema.get("else"@) is None,
{
    let inner = (left - 1) as nat;
    let entered = (nodes + 1) as usize;
    assert(ref_check(instance, schema, cx, inner, entered, refs) == Check::Valid(entered));
    assert(logic_check(instance, schema, cx, inner, entered, refs) is Valid);
    assert(if_check(instance, schema, cx, inner, entered, refs) is Valid);
    if let Some(condition) = schema.get("if"@) {
        if let Some(own) = schema.get("then"@) {
            if schema_check(instance, condition, cx, inner, entered, refs) is Valid {
                assert(optional_check(instance, Some(own), cx, inner, entered, refs) is Valid);
                assert(schema_check(instance, own, cx, inner, entered, refs) is Valid);
            }
        }
        if let Some(own) = schema.get("else"@) {
            if schema_check(instance, condition, cx, inner, entered, refs) is Invalid {
                assert(optional_check(instance, Some(own), cx, inner, entered, refs) is Valid);
                assert(schema_check(instance, own, cx, inner, entered, refs) is Valid);
            }
        }
    }
}

proof fn holds_the_type_alone(kind: Seq<char>, key: Seq<char>)
    ensures
        JsonV::Object(seq![("type"@, JsonV::Str(kind))]).get("type"@) == Some(JsonV::Str(kind)),
        key != "type"@ ==> JsonV::Object(seq![("type"@, JsonV::Str(kind))]).get(key) is None,
{
    let entries = seq![("type"@, JsonV::Str(kind))];
    assert(entries[0].0 == "type"@);
    key_index_finds(entries, "type"@);
    key_index_finds(entries, key);
}

proof fn entries_pass(
    entries: Seq<(Seq<char>, JsonV)>,
    schema: JsonV,
    cx: SchemaContextV,
    inner: nat,
    nodes: usize,
    refs: Set<Seq<char>>,
)
    requires
        schema.get("properties"@) is None,
        schema.get("additionalProperties"@) is None,
    ensures
        entries_check(entries, schema, cx, inner, nodes, refs) == Check::Valid(nodes),
    decreases entries.len(),
{
    if entries.len() > 0 {
        entries_pass(entries.drop_last(), schema, cx, inner, nodes, refs);
        assert(entry_schema(schema, entries.last().0) == Ok::<Option<JsonV>, ()>(None));
        assert(optional_check(entries.last().1, None, cx, inner, nodes, refs) == Check::Valid(nodes));
    }
}

/// A schema that names a type takes every value of it and no other.
pub proof fn types_decide(
    instance: JsonV,
    kind: Seq<char>,
    cx: SchemaContextV,
    left: nat,
    nodes: usize,
    refs: Set<Seq<char>>,
)
    requires
        left > 0,
        nodes < MAX_SCHEMA_NODES,
    ensures
        schema_check(instance, JsonV::Object(seq![("type"@, JsonV::Str(kind))]), cx, left, nodes, refs) is Valid <==> is_of_kind(
            instance,
            kind,
        ),
{
    let entries = seq![("type"@, JsonV::Str(kind))];
    let schema = JsonV::Object(entries);
    let inner = (left - 1) as nat;
    let entered = (nodes + 1) as usize;
    kinds_are_told_apart(instance, kind);
    reveal_strlit("type");
    assert("type"@.len() == 4 && "type"@[0] == 't' && "type"@[1] == 'y');
    reveal_strlit("$ref");
    reveal_strlit("const");
    reveal_strlit("enum");
    reveal_strlit("allOf");
    reveal_strlit("anyOf");
    reveal_strlit("oneOf");
    reveal_strlit("not");
    reveal_strlit("if");
    reveal_strlit("then");
    reveal_strlit("else");
    reveal_strlit("minProperties");
    reveal_strlit("maxProperties");
    reveal_strlit("required");
    reveal_strlit("properties");
    reveal_strlit("additionalProperties");
    reveal_strlit("dependentRequired");
    reveal_strlit("minItems");
    reveal_strlit("maxItems");
    reveal_strlit("uniqueItems");
    reveal_strlit("items");
    reveal_strlit("minLength");
    reveal_strlit("maxLength");
    reveal_strlit("pattern");
    reveal_strlit("minimum");
    reveal_strlit("maximum");
    reveal_strlit("exclusiveMinimum");
    reveal_strlit("exclusiveMaximum");
    reveal_strlit("multipleOf");
    assert("$ref"@[0] == '$' && "enum"@[0] == 'e' && "then"@[1] == 'h' && "else"@[0] == 'e');
    assert("const"@.len() == 5 && "allOf"@.len() == 5 && "anyOf"@.len() == 5 && "oneOf"@.len() == 5 && "not"@.len() == 3);
    assert("if"@.len() == 2 && "minProperties"@.len() == 13 && "maxProperties"@.len() == 13 && "required"@.len() == 8);
    assert("properties"@.len() == 10 && "additionalProperties"@.len() == 20 && "dependentRequired"@.len() == 17);
    assert("minItems"@.len() == 8 && "maxItems"@.len() == 8 && "uniqueItems"@.len() == 11 && "items"@.len() == 5);
    assert("minLength"@.len() == 9 && "maxLength"@.len() == 9 && "pattern"@.len() == 7 && "minimum"@.len() == 7);
    assert("maximum"@.len() == 7 && "exclusiveMinimum"@.len() == 16 && "exclusiveMaximum"@.len() == 16);
    assert("multipleOf"@.len() == 10);
    assert forall|key: Seq<char>| key != "type"@ implies #[trigger] schema.get(key) is None by {
        holds_the_type_alone(kind, key);
    }
    holds_the_type_alone(kind, "type"@);
    assert(all_supported(schema));
    assert(ref_check(instance, schema, cx, inner, entered, refs) == Check::Valid(entered));
    assert(plain_rules(instance, schema) == has_type(instance, kind));
    assert(group_check(instance, schema, "allOf"@, Quorum::All, cx, inner, entered, refs) == Check::Valid(entered));
    assert(group_check(instance, schema, "anyOf"@, Quorum::Any, cx, inner, entered, refs) == Check::Valid(entered));
    assert(group_check(instance, schema, "oneOf"@, Quorum::One, cx, inner, entered, refs) == Check::Valid(entered));
    assert(logic_check(instance, schema, cx, inner, entered, refs) == Check::Valid(entered));
    assert(if_check(instance, schema, cx, inner, entered, refs) == Check::Valid(entered));
    if let JsonV::Object(own) = instance {
        entries_pass(own, schema, cx, inner, entered, refs);
    }
    assert(object_check(instance, schema, cx, inner, entered, refs) == Check::Valid(entered));
    assert(array_check(instance, schema, cx, inner, entered, refs) == Check::Valid(entered));
    assert(leaf_check(instance, schema, entered, cx.tests) == Check::Valid(entered));
}

} // verus!
