//! What holds of the checks of values against schemas.
use crate::json::JsonV;
use crate::json_model::{group_json_views, key_index_finds};
use crate::tool_schema::{
    array_check, entries_check, entry_schema, group_check, if_check, leaf_check, logic_check, object_check,
    optional_check, plain_rules, ref_check, schema_check, Check, Quorum, SchemaContextV, MAX_SCHEMA_NODES,
};
use crate::tool_schema_bounds::{more_room_makes_no_difference, stays_within};
use vstd::prelude::*;

verus! {

broadcast use group_json_views;

/// The schema that takes what another one refuses.
pub open spec fn negation(schema: JsonV) -> JsonV {
    JsonV::Object(seq![("not"@, schema)])
}

/// The opposite of an answer. A check that waits for a division has none.
pub open spec fn opposite(check: Check, nodes: usize) -> Check {
    match check {
        Check::Valid(_) => Check::Invalid,
        Check::Invalid => Check::Valid(nodes),
        Check::NeedsQuotient(a, b) => Check::NeedsQuotient(a, b),
    }
}

proof fn holds_no_other(schema: JsonV, key: Seq<char>)
    ensures
        negation(schema).get("not"@) == Some(schema),
        key != "not"@ ==> negation(schema).get(key) is None,
{
    let entries = seq![("not"@, schema)];
    assert(entries[0].0 == "not"@);
    key_index_finds(entries, "not"@);
    key_index_finds(entries, key);
}

/// A negation says nothing of a kind that a check of its own stands for.
proof fn other_checks_pass(
    instance: JsonV,
    schema: JsonV,
    cx: SchemaContextV,
    inner: nat,
    nodes: usize,
    refs: Set<Seq<char>>,
)
    ensures
        ref_check(instance, negation(schema), cx, inner, nodes, refs) == Check::Valid(nodes),
        plain_rules(instance, negation(schema)),
        group_check(instance, negation(schema), "allOf"@, Quorum::All, cx, inner, nodes, refs) == Check::Valid(nodes),
        group_check(instance, negation(schema), "anyOf"@, Quorum::Any, cx, inner, nodes, refs) == Check::Valid(nodes),
        group_check(instance, negation(schema), "oneOf"@, Quorum::One, cx, inner, nodes, refs) == Check::Valid(nodes),
        if_check(instance, negation(schema), cx, inner, nodes, refs) == Check::Valid(nodes),
{
    reveal_strlit("not");
    reveal_strlit("$ref");
    reveal_strlit("type");
    reveal_strlit("const");
    reveal_strlit("enum");
    reveal_strlit("allOf");
    reveal_strlit("anyOf");
    reveal_strlit("oneOf");
    reveal_strlit("if");
    reveal_strlit("then");
    reveal_strlit("else");
    assert("not"@.len() == 3 && "$ref"@.len() == 4 && "type"@.len() == 4 && "const"@.len() == 5 && "enum"@.len() == 4);
    assert("allOf"@.len() == 5 && "anyOf"@.len() == 5 && "oneOf"@.len() == 5);
    assert("if"@.len() == 2 && "then"@.len() == 4 && "else"@.len() == 4);
    holds_no_other(schema, "$ref"@);
    holds_no_other(schema, "type"@);
    holds_no_other(schema, "const"@);
    holds_no_other(schema, "enum"@);
    holds_no_other(schema, "allOf"@);
    holds_no_other(schema, "anyOf"@);
    holds_no_other(schema, "oneOf"@);
    holds_no_other(schema, "if"@);
    holds_no_other(schema, "then"@);
    holds_no_other(schema, "else"@);
}

proof fn entries_pass(
    entries: Seq<(Seq<char>, JsonV)>,
    schema: JsonV,
    cx: SchemaContextV,
    inner: nat,
    nodes: usize,
    refs: Set<Seq<char>>,
)
    requires
        schema.get("properties"@) is None,
        schema.get("additionalProperties"@) is None,
    ensures
        entries_check(entries, schema, cx, inner, nodes, refs) == Check::Valid(nodes),
    decreases entries.len(),
{
    if entries.len() > 0 {
        entries_pass(entries.drop_last(), schema, cx, inner, nodes, refs);
        assert(entry_schema(schema, entries.last().0) == Ok::<Option<JsonV>, ()>(None));
        assert(optional_check(entries.last().1, None, cx, inner, nodes, refs) == Check::Valid(nodes));
    }
}

proof fn containers_pass(
    instance: JsonV,
    schema: JsonV,
    cx: SchemaContextV,
    inner: nat,
    nodes: usize,
    refs: Set<Seq<char>>,
)
    ensures
        object_check(instance, negation(schema), cx, inner, nodes, refs) == Check::Valid(nodes),
        array_check(instance, negation(schema), cx, inner, nodes, refs) == Check::Valid(nodes),
{
    reveal_strlit("not");
    reveal_strlit("minProperties");
    reveal_strlit("maxProperties");
    reveal_strlit("required");
    reveal_strlit("properties");
    reveal_strlit("additionalProperties");
    reveal_strlit("dependentRequired");
    reveal_strlit("minItems");
    reveal_strlit("maxItems");
    reveal_strlit("uniqueItems");
    reveal_strlit("items");
    assert("not"@.len() == 3 && "minProperties"@.len() == 13 && "maxProperties"@.len() == 13 && "required"@.len() == 8);
    assert("properties"@.len() == 10 && "additionalProperties"@.len() == 20 && "dependentRequired"@.len() == 17);
    assert("minItems"@.len() == 8 && "maxItems"@.len() == 8 && "uniqueItems"@.len() == 11 && "items"@.len() == 5);
    holds_no_other(schema, "minProperties"@);
    holds_no_other(schema, "maxProperties"@);
    holds_no_other(schema, "required"@);
    holds_no_other(schema, "properties"@);
    holds_no_other(schema, "additionalProperties"@);
    holds_no_other(schema, "dependentRequired"@);
    holds_no_other(schema, "minItems"@);
    holds_no_other(schema, "maxItems"@);
    holds_no_other(schema, "uniqueItems"@);
    holds_no_other(schema, "items"@);
    if let JsonV::Object(entries) = instance {
        entries_pass(entries, negation(schema), cx, inner, nodes, refs);
    }
}

proof fn leaves_pass(instance: JsonV, schema: JsonV, nodes: usize, cx: SchemaContextV)
    ensures
        leaf_check(instance, negation(schema), nodes, cx.tests) == Check::Valid(nodes),
{
    reveal_strlit("not");
    reveal_strlit("minLength");
    reveal_strlit("maxLength");
    reveal_strlit("pattern");
    reveal_strlit("minimum");
    reveal_strlit("maximum");
    reveal_strlit("exclusiveMinimum");
    reveal_strlit("exclusiveMaximum");
    reveal_strlit("multipleOf");
    assert("not"@.len() == 3 && "minLength"@.len() == 9 && "maxLength"@.len() == 9 && "pattern"@.len() == 7);
    assert("minimum"@.len() == 7 && "maximum"@.len() == 7);
    assert("exclusiveMinimum"@.len() == 16 && "exclusiveMaximum"@.len() == 16 && "multipleOf"@.len() == 10);
    holds_no_other(schema, "minLength"@);
    holds_no_other(schema, "maxLength"@);
    holds_no_other(schema, "pattern"@);
    holds_no_other(schema, "minimum"@);
    holds_no_other(schema, "maximum"@);
    holds_no_other(schema, "exclusiveMinimum"@);
    holds_no_other(schema, "exclusiveMaximum"@);
    holds_no_other(schema, "multipleOf"@);
}

/// A negation gives the opposite of the answer that the negated schema gives in its place, one level
/// deeper and one schema later.
pub proof fn negations_give_the_opposite(
    instance: JsonV,
    schema: JsonV,
    cx: SchemaContextV,
    left: nat,
    nodes: usize,
    refs: Set<Seq<char>>,
)
    requires
        left > 0,
        nodes < MAX_SCHEMA_NODES,
    ensures
        schema_check(instance, negation(schema), cx, left, nodes, refs) == opposite(
            schema_check(instance, schema, cx, (left - 1) as nat, (nodes + 1) as usize, refs),
            (nodes + 1) as usize,
        ),
{
    let inner = (left - 1) as nat;
    let entered = (nodes + 1) as usize;
    other_checks_pass(instance, schema, cx, inner, entered, refs);
    holds_no_other(schema, "not"@);
    containers_pass(instance, schema, cx, inner, entered, refs);
    leaves_pass(instance, schema, entered, cx);
    assert(logic_check(instance, negation(schema), cx, inner, entered, refs) == opposite(
        schema_check(instance, schema, cx, inner, entered, refs),
        entered,
    ));
}

/// Where the check of the negated schema stays within the bounds, a negation gives the opposite of the
/// answer that the schema itself gives, both with the same levels left and the same schemas visited.
pub proof fn negations_turn_answers_round(
    instance: JsonV,
    schema: JsonV,
    cx: SchemaContextV,
    left: nat,
    nodes: usize,
    refs: Set<Seq<char>>,
)
    requires
        left > 0,
        nodes < MAX_SCHEMA_NODES,
        stays_within(instance, schema, cx, (left - 1) as nat, (nodes + 1) as usize, refs),
    ensures
        schema_check(instance, negation(schema), cx, left, nodes, refs) == opposite(
            schema_check(instance, schema, cx, left, nodes, refs),
            (nodes + 1) as usize,
        ),
{
    negations_give_the_opposite(instance, schema, cx, left, nodes, refs);
    more_room_makes_no_difference(instance, schema, cx, (left - 1) as nat, (nodes + 1) as usize, left, nodes, refs);
}

/// A schema that takes a value has a negated schema, where it has one, that refuses it.
pub proof fn what_is_taken_is_not_negated(
    instance: JsonV,
    schema: JsonV,
    cx: SchemaContextV,
    left: nat,
    nodes: usize,
    refs: Set<Seq<char>>,
)
    requires
        schema.get("$ref"@) is None,
        schema_check(instance, schema, cx, left, nodes, refs) is Valid,
    ensures
        schema.get("not"@) matches Some(negated) ==> schema_check(
            instance,
            negated,
            cx,
            (left - 1) as nat,
            (nodes + 1) as usize,
            refs,
        ) is Invalid,
{
    let inner = (left - 1) as nat;
    let entered = (nodes + 1) as usize;
    if let JsonV::Object(_) = schema {
        assert(ref_check(instance, schema, cx, inner, entered, refs) == Check::Valid(entered));
        assert(logic_check(instance, schema, cx, inner, entered, refs) is Valid);
    }
}

} // verus!
