//! Within the bounds on its depth and on the schemas visited, a check does not depend on them.
use crate::json::JsonV;
use crate::tool_schema::{
    all_supported, array_check, array_rules, branch_count, entries_check, entry_schema, group_check, if_check,
    items_check, local_ref, logic_check, object_check, optional_check, plain_rules, ref_check, required_rule,
    schema_check, size_fits, Check, Quorum, SchemaContextV, MAX_SCHEMA_NODES,
};
use vstd::prelude::*;

verus! {

/// Whether a check of a value against a schema, and every check that it leads to, stays within the bounds.
pub open spec fn stays_within(
    instance: JsonV,
    schema: JsonV,
    cx: SchemaContextV,
    left: nat,
    nodes: usize,
    refs: Set<Seq<char>>,
) -> bool
    decreases left, 0nat, 0nat,
{
    left > 0 && nodes < MAX_SCHEMA_NODES && {
        let entered = (nodes + 1) as usize;
        let inner = (left - 1) as nat;
        schema is Object && all_supported(schema) ==> {
            &&& ref_stays(instance, schema, cx, inner, entered, refs)
            &&& ref_check(instance, schema, cx, inner, entered, refs) matches Check::Valid(n1) ==> {
                plain_rules(instance, schema) ==> {
                    &&& logic_stays(instance, schema, cx, inner, n1, refs)
                    &&& logic_check(instance, schema, cx, inner, n1, refs) is Valid ==> {
                        &&& if_stays(instance, schema, cx, inner, n1, refs)
                        &&& if_check(instance, schema, cx, inner, n1, refs) matches Check::Valid(n2) ==> {
                            &&& object_stays(instance, schema, cx, inner, n2, refs)
                            &&& object_check(instance, schema, cx, inner, n2, refs) matches Check::Valid(n3) ==> array_stays(
                                instance,
                                schema,
                                cx,
                                inner,
                                n3,
                                refs,
                            )
                        }
                    }
                }
            }
        }
    }
}

pub open spec fn ref_stays(
    instance: JsonV,
    schema: JsonV,
    cx: SchemaContextV,
    inner: nat,
    nodes: usize,
    refs: Set<Seq<char>>,
) -> bool
    decreases inner, 2nat, 0nat,
{
    match schema.get("$ref"@) {
        Some(JsonV::Str(reference)) => match local_ref(cx.root, reference) {
            Some(target) => refs.contains(reference) || stays_within(
                instance,
                target,
                cx,
                inner,
                nodes,
                refs.insert(reference),
            ),
            None => true,
        },
        _ => true,
    }
}

pub open spec fn branches_stay(
    instance: JsonV,
    branches: Seq<JsonV>,
    cx: SchemaContextV,
    inner: nat,
    nodes: usize,
    refs: Set<Seq<char>>,
) -> bool
    decreases inner, 1nat, branches.len(),
{
    branches.len() > 0 ==> {
        &&& branches_stay(instance, branches.drop_last(), cx, inner, nodes, refs)
        &&& branch_count(instance, branches.drop_last(), cx, inner, nodes, refs) is Ok ==> stays_within(
            instance,
            branches.last(),
            cx,
            inner,
            nodes,
            refs,
        )
    }
}

pub open spec fn group_stays(
    instance: JsonV,
    schema: JsonV,
    key: Seq<char>,
    cx: SchemaContextV,
    inner: nat,
    nodes: usize,
    refs: Set<Seq<char>>,
) -> bool
    decreases inner, 2nat, 0nat,
{
    match schema.get(key) {
        Some(JsonV::Array(branches)) => branches_stay(instance, branches, cx, inner, nodes, refs),
        _ => true,
    }
}

pub open spec fn logic_stays(
    instance: JsonV,
    schema: JsonV,
    cx: SchemaContextV,
    inner: nat,
    nodes: usize,
    refs: Set<Seq<char>>,
) -> bool
    decreases inner, 3nat, 0nat,
{
    &&& group_stays(instance, schema, "allOf"@, cx, inner, nodes, refs)
    &&& group_check(instance, schema, "allOf"@, Quorum::All, cx, inner, nodes, refs) is Valid ==> {
        &&& group_stays(instance, schema, "anyOf"@, cx, inner, nodes, refs)
        &&& group_check(instance, schema, "anyOf"@, Quorum::Any, cx, inner, nodes, refs) is Valid ==> {
            &&& group_stays(instance, schema, "oneOf"@, cx, inner, nodes, refs)
            &&& group_check(instance, schema, "oneOf"@, Quorum::One, cx, inner, nodes, refs) is Valid ==> match schema.get(
                "not"@,
            ) {
                Some(negated) => stays_within(instance, negated, cx, inner, nodes, refs),
                None => true,
            }
        }
    }
}

pub open spec fn optional_stays(
    instance: JsonV,
    schema: Option<JsonV>,
    cx: SchemaContextV,
    inner: nat,
    nodes: usize,
    refs: Set<Seq<char>>,
) -> bool
    decreases inner, 1nat, 0nat,
{
    match schema {
        Some(s) => stays_within(instance, s, cx, inner, nodes, refs),
        None => true,
    }
}

pub open spec fn if_stays(
    instance: JsonV,
    schema: JsonV,
    cx: SchemaContextV,
    inner: nat,
    nodes: usize,
    refs: Set<Seq<char>>,
) -> bool
    decreases inner, 2nat, 0nat,
{
    match schema.get("if"@) {
        Some(condition) => {
            &&& stays_within(instance, condition, cx, inner, nodes, refs)
            &&& match schema_check(instance, condition, cx, inner, nodes, refs) {
                Check::Valid(_) => optional_stays(instance, schema.get("then"@), cx, inner, nodes, refs),
                Check::Invalid => optional_stays(instance, schema.get("else"@), cx, inner, nodes, refs),
                _ => true,
            }
        },
        None => true,
    }
}

pub open spec fn entries_stay(
    entries: Seq<(Seq<char>, JsonV)>,
    schema: JsonV,
    cx: SchemaContextV,
    inner: nat,
    nodes: usize,
    refs: Set<Seq<char>>,
) -> bool
    decreases inner, 2nat, entries.len(),
{
    entries.len() > 0 ==> {
        &&& entries_stay(entries.drop_last(), schema, cx, inner, nodes, refs)
        &&& entries_check(entries.drop_last(), schema, cx, inner, nodes, refs) matches Check::Valid(n) ==> match entry_schema(
            schema,
            entries.last().0,
        ) {
            Ok(s) => optional_stays(entries.last().1, s, cx, inner, n, refs),
            Err(_) => true,
        }
    }
}

pub open spec fn object_stays(
    instance: JsonV,
    schema: JsonV,
    cx: SchemaContextV,
    inner: nat,
    nodes: usize,
    refs: Set<Seq<char>>,
) -> bool
    decreases inner, 3nat, 0nat,
{
    match instance {
        JsonV::Object(entries) => {
            let fits = size_fits(schema, "minProperties"@, "maxProperties"@, entries.len());
            let complete = schema.get("required"@) matches Some(names) ==> required_rule(instance, names);
            let regular = schema.get("properties"@) matches Some(properties) ==> properties is Object;
            fits && complete && regular ==> entries_stay(entries, schema, cx, inner, nodes, refs)
        },
        _ => true,
    }
}

pub open spec fn items_stay(
    items: Seq<JsonV>,
    schema: JsonV,
    cx: SchemaContextV,
    inner: nat,
    nodes: usize,
    refs: Set<Seq<char>>,
) -> bool
    decreases inner, 1nat, items.len(),
{
    items.len() > 0 ==> {
        &&& items_stay(items.drop_last(), schema, cx, inner, nodes, refs)
        &&& items_check(items.drop_last(), schema, cx, inner, nodes, refs) matches Check::Valid(n) ==> stays_within(
            items.last(),
            schema,
            cx,
            inner,
            n,
            refs,
        )
    }
}

pub open spec fn array_stays(
    instance: JsonV,
    schema: JsonV,
    cx: SchemaContextV,
    inner: nat,
    nodes: usize,
    refs: Set<Seq<char>>,
) -> bool
    decreases inner, 2nat, 0nat,
{
    match (instance, schema.get("items"@)) {
        (JsonV::Array(items), Some(item_schema)) => array_rules(items, schema) && !(item_schema is Array) ==> items_stay(
            items,
            item_schema,
            cx,
            inner,
            nodes,
            refs,
        ),
        _ => true,
    }
}

/// Whether two checks that began with different numbers of schemas visited came to the same, and visited
/// as many more.
pub open spec fn same_but_for_start(a: Check, from_a: usize, b: Check, from_b: usize) -> bool {
    match (a, b) {
        (Check::Valid(x), Check::Valid(y)) => x - from_a == y - from_b,
        (Check::Invalid, Check::Invalid) => true,
        (Check::NeedsQuotient(p, q), Check::NeedsQuotient(r, s)) => p == r && q == s,
        _ => false,
    }
}

/// A check that stays within the bounds comes to the same with more levels left and fewer schemas visited.
pub proof fn more_room_makes_no_difference(
    instance: JsonV,
    schema: JsonV,
    cx: SchemaContextV,
    left: nat,
    nodes: usize,
    more: nat,
    fewer: usize,
    refs: Set<Seq<char>>,
)
    requires
        stays_within(instance, schema, cx, left, nodes, refs),
        left <= more,
        fewer <= nodes,
    ensures
        same_but_for_start(
            schema_check(instance, schema, cx, left, nodes, refs),
            nodes,
            schema_check(instance, schema, cx, more, fewer, refs),
            fewer,
        ),
    decreases left, 0nat, 0nat,
{
    let e1 = (nodes + 1) as usize;
    let e2 = (fewer + 1) as usize;
    let i1 = (left - 1) as nat;
    let i2 = (more - 1) as nat;
    if schema is Object && all_supported(schema) {
        ref_room(instance, schema, cx, i1, e1, i2, e2, refs);
        match (ref_check(instance, schema, cx, i1, e1, refs), ref_check(instance, schema, cx, i2, e2, refs)) {
            (Check::Valid(n1), Check::Valid(m1)) => if plain_rules(instance, schema) {
                logic_room(instance, schema, cx, i1, n1, i2, m1, refs);
                if logic_check(instance, schema, cx, i1, n1, refs) is Valid {
                    if_room(instance, schema, cx, i1, n1, i2, m1, refs);
                    match (if_check(instance, schema, cx, i1, n1, refs), if_check(instance, schema, cx, i2, m1, refs)) {
                        (Check::Valid(n2), Check::Valid(m2)) => {
                            object_room(instance, schema, cx, i1, n2, i2, m2, refs);
                            match (
                                object_check(instance, schema, cx, i1, n2, refs),
                                object_check(instance, schema, cx, i2, m2, refs),
                            ) {
                                (Check::Valid(n3), Check::Valid(m3)) => {
                                    array_room(instance, schema, cx, i1, n3, i2, m3, refs);
                                },
                                _ => {},
                            }
                        },
                        _ => {},
                    }
                }
            },
            _ => {},
        }
    }
}

proof fn ref_room(
    instance: JsonV,
    schema: JsonV,
    cx: SchemaContextV,
    left: nat,
    nodes: usize,
    more: nat,
    fewer: usize,
    refs: Set<Seq<char>>,
)
    requires
        ref_stays(instance, schema, cx, left, nodes, refs),
        left <= more,
        fewer <= nodes,
    ensures
        same_but_for_start(
            ref_check(instance, schema, cx, left, nodes, refs),
            nodes,
            ref_check(instance, schema, cx, more, fewer, refs),
            fewer,
        ),
    decreases left, 2nat, 0nat,
{
    if let Some(JsonV::Str(reference)) = schema.get("$ref"@) {
        if let Some(target) = local_ref(cx.root, reference) {
            if !refs.contains(reference) {
                more_room_makes_no_difference(instance, target, cx, left, nodes, more, fewer, refs.insert(reference));
            }
        }
    }
}

proof fn branches_room(
    instance: JsonV,
    branches: Seq<JsonV>,
    cx: SchemaContextV,
    left: nat,
    nodes: usize,
    more: nat,
    fewer: usize,
    refs: Set<Seq<char>>,
)
    requires
        branches_stay(instance, branches, cx, left, nodes, refs),
        left <= more,
        fewer <= nodes,
    ensures
        branch_count(instance, branches, cx, left, nodes, refs) == branch_count(instance, branches, cx, more, fewer, refs),
    decreases left, 1nat, branches.len(),
{
    if branches.len() > 0 {
        branches_room(instance, branches.drop_last(), cx, left, nodes, more, fewer, refs);
        if branch_count(instance, branches.drop_last(), cx, left, nodes, refs) is Ok {
            more_room_makes_no_difference(instance, branches.last(), cx, left, nodes, more, fewer, refs);
        }
    }
}

proof fn group_room(
    instance: JsonV,
    schema: JsonV,
    key: Seq<char>,
    quorum: Quorum,
    cx: SchemaContextV,
    left: nat,
    nodes: usize,
    more: nat,
    fewer: usize,
    refs: Set<Seq<char>>,
)
    requires
        group_stays(instance, schema, key, cx, left, nodes, refs),
        left <= more,
        fewer <= nodes,
    ensures
        same_but_for_start(
            group_check(instance, schema, key, quorum, cx, left, nodes, refs),
            nodes,
            group_check(instance, schema, key, quorum, cx, more, fewer, refs),
            fewer,
        ),
    decreases left, 2nat, 0nat,
{
    if let Some(JsonV::Array(branches)) = schema.get(key) {
        branches_room(instance, branches, cx, left, nodes, more, fewer, refs);
    }
}

proof fn logic_room(
    instance: JsonV,
    schema: JsonV,
    cx: SchemaContextV,
    left: nat,
    nodes: usize,
    more: nat,
    fewer: usize,
    refs: Set<Seq<char>>,
)
    requires
        logic_stays(instance, schema, cx, left, nodes, refs),
        left <= more,
        fewer <= nodes,
    ensures
        same_but_for_start(
            logic_check(instance, schema, cx, left, nodes, refs),
            nodes,
            logic_check(instance, schema, cx, more, fewer, refs),
            fewer,
        ),
    decreases left, 3nat, 0nat,
{
    group_room(instance, schema, "allOf"@, Quorum::All, cx, left, nodes, more, fewer, refs);
    if group_check(instance, schema, "allOf"@, Quorum::All, cx, left, nodes, refs) is Valid {
        group_room(instance, schema, "anyOf"@, Quorum::Any, cx, left, nodes, more, fewer, refs);
        if group_check(instance, schema, "anyOf"@, Quorum::Any, cx, left, nodes, refs) is Valid {
            group_room(instance, schema, "oneOf"@, Quorum::One, cx, left, nodes, more, fewer, refs);
            if group_check(instance, schema, "oneOf"@, Quorum::One, cx, left, nodes, refs) is Valid {
                if let Some(negated) = schema.get("not"@) {
                    more_room_makes_no_difference(instance, negated, cx, left, nodes, more, fewer, refs);
                }
            }
        }
    }
}

proof fn optional_room(
    instance: JsonV,
    schema: Option<JsonV>,
    cx: SchemaContextV,
    left: nat,
    nodes: usize,
    more: nat,
    fewer: usize,
    refs: Set<Seq<char>>,
)
    requires
        optional_stays(instance, schema, cx, left, nodes, refs),
        left <= more,
        fewer <= nodes,
    ensures
        same_but_for_start(
            optional_check(instance, schema, cx, left, nodes, refs),
            nodes,
            optional_check(instance, schema, cx, more, fewer, refs),
            fewer,
        ),
    decreases left, 1nat, 0nat,
{
    if let Some(s) = schema {
        more_room_makes_no_difference(instance, s, cx, left, nodes, more, fewer, refs);
    }
}

proof fn if_room(
    instance: JsonV,
    schema: JsonV,
    cx: SchemaContextV,
    left: nat,
    nodes: usize,
    more: nat,
    fewer: usize,
    refs: Set<Seq<char>>,
)
    requires
        if_stays(instance, schema, cx, left, nodes, refs),
        left <= more,
        fewer <= nodes,
    ensures
        same_but_for_start(
            if_check(instance, schema, cx, left, nodes, refs),
            nodes,
            if_check(instance, schema, cx, more, fewer, refs),
            fewer,
        ),
    decreases left, 2nat, 0nat,
{
    if let Some(condition) = schema.get("if"@) {
        more_room_makes_no_difference(instance, condition, cx, left, nodes, more, fewer, refs);
        match schema_check(instance, condition, cx, left, nodes, refs) {
            Check::Valid(_) => {
                optional_room(instance, schema.get("then"@), cx, left, nodes, more, fewer, refs);
            },
            Check::Invalid => {
                optional_room(instance, schema.get("else"@), cx, left, nodes, more, fewer, refs);
            },
            _ => {},
        }
    }
}

proof fn entries_room(
    entries: Seq<(Seq<char>, JsonV)>,
    schema: JsonV,
    cx: SchemaContextV,
    left: nat,
    nodes: usize,
    more: nat,
    fewer: usize,
    refs: Set<Seq<char>>,
)
    requires
        entries_stay(entries, schema, cx, left, nodes, refs),
        left <= more,
        fewer <= nodes,
    ensures
        same_but_for_start(
            entries_check(entries, schema, cx, left, nodes, refs),
            nodes,
            entries_check(entries, schema, cx, more, fewer, refs),
            fewer,
        ),
    decreases left, 2nat, entries.len(),
{
    if entries.len() > 0 {
        entries_room(entries.drop_last(), schema, cx, left, nodes, more, fewer, refs);
        match (
            entries_check(entries.drop_last(), schema, cx, left, nodes, refs),
            entries_check(entries.drop_last(), schema, cx, more, fewer, refs),
        ) {
            (Check::Valid(n), Check::Valid(m)) => {
                if let Ok(s) = entry_schema(schema, entries.last().0) {
                    optional_room(entries.last().1, s, cx, left, n, more, m, refs);
                }
            },
            _ => {},
        }
    }
}

proof fn object_room(
    instance: JsonV,
    schema: JsonV,
    cx: SchemaContextV,
    left: nat,
    nodes: usize,
    more: nat,
    fewer: usize,
    refs: Set<Seq<char>>,
)
    requires
        object_stays(instance, schema, cx, left, nodes, refs),
        left <= more,
        fewer <= nodes,
    ensures
        same_but_for_start(
            object_check(instance, schema, cx, left, nodes, refs),
            nodes,
            object_check(instance, schema, cx, more, fewer, refs),
            fewer,
        ),
    decreases left, 3nat, 0nat,
{
    if let JsonV::Object(entries) = instance {
        let fits = size_fits(schema, "minProperties"@, "maxProperties"@, entries.len());
        let complete = schema.get("required"@) matches Some(names) ==> required_rule(instance, names);
        let regular = schema.get("properties"@) matches Some(properties) ==> properties is Object;
        if fits && complete && regular {
            entries_room(entries, schema, cx, left, nodes, more, fewer, refs);
        }
    }
}

proof fn items_room(
    items: Seq<JsonV>,
    schema: JsonV,
    cx: SchemaContextV,
    left: nat,
    nodes: usize,
    more: nat,
    fewer: usize,
    refs: Set<Seq<char>>,
)
    requires
        items_stay(items, schema, cx, left, nodes, refs),
        left <= more,
        fewer <= nodes,
    ensures
        same_but_for_start(
            items_check(items, schema, cx, left, nodes, refs),
            nodes,
            items_check(items, schema, cx, more, fewer, refs),
            fewer,
        ),
    decreases left, 1nat, items.len(),
{
    if items.len() > 0 {
        items_room(items.drop_last(), schema, cx, left, nodes, more, fewer, refs);
        match (
            items_check(items.drop_last(), schema, cx, left, nodes, refs),
            items_check(items.drop_last(), schema, cx, more, fewer, refs),
        ) {
            (Check::Valid(n), Check::Valid(m)) => {
                more_room_makes_no_difference(items.last(), schema, cx, left, n, more, m, refs);
            },
            _ => {},
        }
    }
}

proof fn array_room(
    instance: JsonV,
    schema: JsonV,
    cx: SchemaContextV,
    left: nat,
    nodes: usize,
    more: nat,
    fewer: usize,
    refs: Set<Seq<char>>,
)
    requires
        array_stays(instance, schema, cx, left, nodes, refs),
        left <= more,
        fewer <= nodes,
    ensures
        same_but_for_start(
            array_check(instance, schema, cx, left, nodes, refs),
            nodes,
            array_check(instance, schema, cx, more, fewer, refs),
            fewer,
        ),
    decreases left, 2nat, 0nat,
{
    if let (JsonV::Array(items), Some(item_schema)) = (instance, schema.get("items"@)) {
        if array_rules(items, schema) && !(item_schema is Array) {
            items_room(items, item_schema, cx, left, nodes, more, fewer, refs);
        }
    }
}

} // verus!
