//! The part of JSON Schema by which the arguments of a tool call are checked.
//!
//! Every keyword that is not supported makes a schema refuse everything, so that nothing passes
//! unchecked. Nesting and the number of visited schemas are bounded.
use crate::json::{float_less, Json, JsonNumber, JsonV};
use crate::json_model::{entries_view, float_bits, float_place, group_json_views, json_eq, list_view};
use crate::text::{
    chars_of, contains_text, group_texts, id_set, id_set_push, is_char, parse_digits, pieces, plain_number, replace, replaced, same, split_char, strip_prefix,
    texts,
};
use crate::anthropic_compat::opt_tree;
use vstd::prelude::*;

verus! {

broadcast use {group_json_views, group_texts};

pub const MAX_SCHEMA_DEPTH: usize = 64;

pub const MAX_SCHEMA_NODES: usize = 20_000;

/// Whether a text matches a pattern, `None` where the pattern is no regular expression, as
/// `regex::Regex::new` and `regex::Regex::is_match` tell it.
pub uninterp spec fn pattern_match(pattern: Seq<char>, text: Seq<char>) -> Option<bool>;

/// `regex::Regex::new` compiles the pattern, and `regex::Regex::is_match` tells whether it matches
/// somewhere in the text.
#[verifier::external_body]
fn match_pattern(pattern: &str, text: &str) -> (matched: Option<bool>)
    ensures
        matched == pattern_match(pattern@, text@),
{
    regex::Regex::new(pattern).ok().map(|compiled| compiled.is_match(text))
}

/// The outcome of a division of two binary64 values: whether the quotient lies within a billionth
/// of a whole number. Divisions are not done here; their outcomes are handed in.
#[derive(Debug, Clone, Copy, PartialEq, Eq, Structural)]
pub struct QuotientTest {
    pub number: u64,
    pub divisor: u64,
    pub whole: bool,
}

/// The outcome of a check: valid, with the number of schemas visited so far; invalid; or open until
/// the quotient of two binary64 values is known.
#[derive(Debug, Clone, Copy, PartialEq, Eq, Structural)]
pub enum Check {
    Valid(usize),
    Invalid,
    NeedsQuotient(u64, u64),
}

/// The known outcome of a division.
pub open spec fn quotient_of(tests: Seq<QuotientTest>, number: u64, divisor: u64) -> Option<bool>
    decreases tests.len(),
{
    if tests.len() == 0 {
        None
    } else if tests[0].number == number && tests[0].divisor == divisor {
        Some(tests[0].whole)
    } else {
        quotient_of(tests.drop_first(), number, divisor)
    }
}

fn find_quotient(tests: &Vec<QuotientTest>, number: u64, divisor: u64) -> (whole: Option<bool>)
    ensures
        whole == quotient_of(tests@, number, divisor),
{
    let mut i: usize = 0;
    assert(tests@.skip(0) =~= tests@);
    while i < tests.len()
        invariant
            i <= tests@.len(),
            quotient_of(tests@, number, divisor) == quotient_of(tests@.skip(i as int), number, divisor),
        decreases tests@.len() - i,
    {
        assert(tests@.skip(i as int).drop_first() =~= tests@.skip(i + 1));
        if tests[i].number == number && tests[i].divisor == divisor {
            return Some(tests[i].whole);
        }
        i = i + 1;
    }
    None
}

/// Whether a keyword is supported.
pub open spec fn is_supported(key: Seq<char>) -> bool {
    key == "$comment"@ || key == "$defs"@ || key == "$id"@ || key == "$ref"@ || key == "$schema"@ || key == "additionalProperties"@ || key == "allOf"@ || key == "anyOf"@ || key == "const"@ || key == "default"@ || key == "dependentRequired"@ || key == "deprecated"@ || key == "description"@ || key == "else"@ || key == "enum"@ || key == "examples"@ || key == "exclusiveMaximum"@ || key == "exclusiveMinimum"@ || key == "format"@ || key == "if"@ || key == "items"@ || key == "maximum"@ || key == "maxItems"@ || key == "maxLength"@ || key == "maxProperties"@ || key == "minimum"@ || key == "minItems"@ || key == "minLength"@ || key == "minProperties"@ || key == "multipleOf"@ || key == "not"@ || key == "oneOf"@ || key == "pattern"@ || key == "properties"@ || key == "readOnly"@ || key == "required"@ || key == "then"@ || key == "title"@ || key == "type"@ || key == "uniqueItems"@ || key == "writeOnly"@
}

fn supported(key: &str) -> (yes: bool)
    ensures
        yes == is_supported(key@),
{
    same(key, "$comment") || same(key, "$defs") || same(key, "$id") || same(key, "$ref") || same(key, "$schema") || same(key, "additionalProperties") || same(key, "allOf") || same(key, "anyOf") || same(key, "const") || same(key, "default") || same(key, "dependentRequired") || same(key, "deprecated") || same(key, "description") || same(key, "else") || same(key, "enum") || same(key, "examples") || same(key, "exclusiveMaximum") || same(key, "exclusiveMinimum") || same(key, "format") || same(key, "if") || same(key, "items") || same(key, "maximum") || same(key, "maxItems") || same(key, "maxLength") || same(key, "maxProperties") || same(key, "minimum") || same(key, "minItems") || same(key, "minLength") || same(key, "minProperties") || same(key, "multipleOf") || same(key, "not") || same(key, "oneOf") || same(key, "pattern") || same(key, "properties") || same(key, "readOnly") || same(key, "required") || same(key, "then") || same(key, "title") || same(key, "type") || same(key, "uniqueItems") || same(key, "writeOnly")
}

/// Whether every keyword of a schema is supported.
pub open spec fn all_supported(schema: JsonV) -> bool {
    match schema {
        JsonV::Object(entries) => forall|i: int| 0 <= i < entries.len() ==> is_supported((#[trigger] entries[i]).0),
        _ => false,
    }
}

fn only_supported(schema: &Json) -> (yes: bool)
    ensures
        yes == all_supported(schema@),
{
    match schema.as_object() {
        Some(entries) => {
            let mut i: usize = 0;
            while i < entries.len()
                invariant
                    i <= entries@.len(),
                    schema@ == JsonV::Object(entries_view(entries@)),
                    forall|k: int| 0 <= k < i ==> is_supported((#[trigger] entries_view(entries@)[k]).0),
                decreases entries@.len() - i,
            {
                if !supported(entries[i].0.as_str()) {
                    proof {
                        let es = schema@->Object_0;
                        assert(es[i as int].0 == entries@[i as int].0@);
                        assert(!is_supported(es[i as int].0));
                        assert(!all_supported(schema@));
                    }
                    return false;
                }
                i = i + 1;
            }
            true
        },
        None => false,
    }
}

/// Whether a value is of a named type.
pub open spec fn has_type(instance: JsonV, kind: Seq<char>) -> bool {
    if kind == "null"@ {
        instance is Null
    } else if kind == "boolean"@ {
        instance is Bool
    } else if kind == "object"@ {
        instance is Object
    } else if kind == "array"@ {
        instance is Array
    } else if kind == "number"@ {
        instance is Number
    } else if kind == "integer"@ {
        instance is Number && !(instance->Number_0 is Float)
    } else if kind == "string"@ {
        instance is Str
    } else {
        false
    }
}

fn value_matches_type(instance: &Json, kind: &str) -> (yes: bool)
    ensures
        yes == has_type(instance@, kind@),
{
    if same(kind, "null") {
        instance.is_null()
    } else if same(kind, "boolean") {
        matches!(instance, Json::Bool(_))
    } else if same(kind, "object") {
        instance.is_object()
    } else if same(kind, "array") {
        matches!(instance, Json::Array(_))
    } else if same(kind, "number") {
        matches!(instance, Json::Number(_))
    } else if same(kind, "integer") {
        match instance {
            Json::Number(JsonNumber::Float(_)) => false,
            Json::Number(_) => true,
            _ => false,
        }
    } else if same(kind, "string") {
        matches!(instance, Json::Str(_))
    } else {
        false
    }
}

/// Whether a value is of the type, or of one of the types, that a schema names.
pub open spec fn type_matches(instance: JsonV, kinds: JsonV) -> bool {
    match kinds {
        JsonV::Str(kind) => has_type(instance, kind),
        JsonV::Array(items) => {
            &&& forall|i: int| 0 <= i < items.len() ==> (#[trigger] items[i]) is Str
            &&& exists|i: int| 0 <= i < items.len() && has_type(instance, (#[trigger] items[i])->Str_0)
        },
        _ => false,
    }
}

fn instance_type_matches(instance: &Json, kinds: &Json) -> (yes: bool)
    ensures
        yes == type_matches(instance@, kinds@),
{
    match kinds {
        Json::Str(kind) => value_matches_type(instance, kind.as_str()),
        Json::Array(items) => {
            let ghost all = list_view(items@);
            let mut found = false;
            let mut i: usize = 0;
            while i < items.len()
                invariant
                    i <= items@.len(),
                    kinds == Json::Array(*items),
                    all == list_view(items@),
                    forall|k: int| 0 <= k < i ==> (#[trigger] all[k]) is Str,
                    found == exists|k: int| 0 <= k < i && has_type(instance@, (#[trigger] all[k])->Str_0),
                decreases items@.len() - i,
            {
                match &items[i] {
                    Json::Str(kind) => {
                        assert(all[i as int] == JsonV::Str(kind@));
                        if value_matches_type(instance, kind.as_str()) {
                            assert(has_type(instance@, all[i as int]->Str_0));
                            found = true;
                        }
                    },
                    _ => {
                        assert(!(all[i as int] is Str));
                        return false;
                    },
                }
                i = i + 1;
            }
            found
        },
        _ => false,
    }
}

/// A token of a JSON pointer with its escapes undone.
pub open spec fn unescaped(token: Seq<char>) -> Seq<char> {
    replaced(replaced(token, "~1"@, "/"@), "~0"@, "~"@)
}

/// The array index that a token names: decimal, without a sign or leading zeros.
pub open spec fn token_index(token: Seq<char>) -> Option<nat> {
    if token.len() > 1 && token[0] == '0' {
        None
    } else {
        plain_number(token, usize::MAX as nat)
    }
}

/// The value that a token names inside another.
pub open spec fn pointer_step(tree: JsonV, token: Seq<char>) -> Option<JsonV> {
    match tree {
        JsonV::Object(_) => tree.get(token),
        JsonV::Array(items) => match token_index(token) {
            Some(i) => if i < items.len() {
                Some(items[i as int])
            } else {
                None
            },
            None => None,
        },
        _ => None,
    }
}

/// The value that tokens lead to, one after another.
pub open spec fn follow(tree: JsonV, tokens: Seq<Seq<char>>) -> Option<JsonV>
    decreases tokens.len(),
{
    if tokens.len() == 0 {
        Some(tree)
    } else {
        match pointer_step(tree, unescaped(tokens[0])) {
            Some(inner) => follow(inner, tokens.drop_first()),
            None => None,
        }
    }
}

/// The schema that a reference inside the document names.
pub open spec fn local_ref(root: JsonV, reference: Seq<char>) -> Option<JsonV> {
    if reference == "#"@ {
        Some(root)
    } else if "#/"@.is_prefix_of(reference) {
        follow(root, pieces(reference.skip("#/"@.len() as int), is_char('/')))
    } else {
        None
    }
}

fn step_into<'a>(tree: &'a Json, token: &str) -> (inner: Option<&'a Json>)
    ensures
        match inner {
            Some(v) => pointer_step(tree@, token@) == Some(v@),
            None => pointer_step(tree@, token@) is None,
        },
{
    match tree {
        Json::Object(_) => tree.get(token),
        Json::Array(items) => {
            let chars = chars_of(token);
            if chars.len() > 1 && chars[0] == '0' {
                return None;
            }
            match parse_digits(token, usize::MAX as u64) {
                Some(i) => {
                    let at: usize = i as usize;
                    if at < items.len() {
                        Some(&items[at])
                    } else {
                        None
                    }
                },
                None => None,
            }
        },
        _ => None,
    }
}

fn resolve_local_ref<'a>(root: &'a Json, reference: &str) -> (target: Option<&'a Json>)
    ensures
        match target {
            Some(v) => local_ref(root@, reference@) == Some(v@),
            None => local_ref(root@, reference@) is None,
        },
{
    if same(reference, "#") {
        return Some(root);
    }
    let rest = match strip_prefix(reference, "#/") {
        Some(rest) => rest,
        None => {
            return None;
        },
    };
    let tokens = split_char(rest.as_str(), '/');
    let ghost all = texts(tokens@);
    let mut at = root;
    let mut i: usize = 0;
    proof {
        reveal_strlit("~1");
        reveal_strlit("~0");
        assert(all.skip(0) =~= all);
    }
    while i < tokens.len()
        invariant
            i <= tokens@.len(),
            all == texts(tokens@),
            "~1"@.len() == 2,
            "~0"@.len() == 2,
            local_ref(root@, reference@) == follow(root@, all),
            follow(root@, all) == follow(at@, all.skip(i as int)),
        decreases tokens@.len() - i,
    {
        assert(all.skip(i as int).drop_first() =~= all.skip(i + 1));
        assert(all.skip(i as int)[0] == all[i as int]);
        let token = replace(replace(tokens[i].as_str(), "~1", "/").as_str(), "~0", "~");
        match step_into(at, token.as_str()) {
            Some(inner) => {
                at = inner;
            },
            None => {
                return None;
            },
        }
        i = i + 1;
    }
    Some(at)
}

/// A size that a keyword gives: `None` where the keyword is not there, `Some(None)` where it is no
/// size.
pub open spec fn size_keyword(schema: JsonV, key: Seq<char>) -> Option<Option<nat>> {
    match schema.get(key) {
        None => None,
        Some(value) => match value.unsigned() {
            Some(n) => if n <= usize::MAX {
                Some(Some(n as nat))
            } else {
                Some(None)
            },
            None => Some(None),
        },
    }
}

/// Whether a size lies within the bounds that two keywords give.
pub open spec fn size_fits(schema: JsonV, min_key: Seq<char>, max_key: Seq<char>, size: nat) -> bool {
    &&& match size_keyword(schema, min_key) {
        None => true,
        Some(None) => false,
        Some(Some(min)) => size >= min,
    }
    &&& match size_keyword(schema, max_key) {
        None => true,
        Some(None) => false,
        Some(Some(max)) => size <= max,
    }
}

fn nonnegative_usize_keyword(schema: &Json, key: &str) -> (size: Option<Option<usize>>)
    ensures
        match size {
            None => size_keyword(schema@, key@) is None,
            Some(None) => size_keyword(schema@, key@) == Some(None::<nat>),
            Some(Some(n)) => size_keyword(schema@, key@) == Some(Some(n as nat)),
        },
{
    match schema.get(key) {
        None => None,
        Some(value) => match value.as_u64() {
            Some(n) => if n <= usize::MAX as u64 {
                Some(Some(n as usize))
            } else {
                Some(None)
            },
            None => Some(None),
        },
    }
}

fn fits(schema: &Json, min_key: &str, max_key: &str, size: usize) -> (yes: bool)
    ensures
        yes == size_fits(schema@, min_key@, max_key@, size as nat),
{
    let low = match nonnegative_usize_keyword(schema, min_key) {
        None => true,
        Some(None) => false,
        Some(Some(min)) => size >= min,
    };
    let high = match nonnegative_usize_keyword(schema, max_key) {
        None => true,
        Some(None) => false,
        Some(Some(max)) => size <= max,
    };
    low && high
}

/// Whether a value has the type that a schema names and is one of the values that it lists.
pub open spec fn plain_rules(instance: JsonV, schema: JsonV) -> bool {
    &&& match schema.get("type"@) {
        Some(kinds) => type_matches(instance, kinds),
        None => true,
    }
    &&& match schema.get("const"@) {
        Some(expected) => json_eq(instance, expected),
        None => true,
    }
    &&& match schema.get("enum"@) {
        Some(JsonV::Array(values)) => exists|i: int| 0 <= i < values.len() && json_eq(#[trigger] values[i], instance),
        Some(_) => false,
        None => true,
    }
}

fn obeys_plain_rules(instance: &Json, schema: &Json) -> (yes: bool)
    ensures
        yes == plain_rules(instance@, schema@),
{
    if let Some(kinds) = schema.get("type") {
        if !instance_type_matches(instance, kinds) {
            return false;
        }
    }
    if let Some(expected) = schema.get("const") {
        if !instance.equals(expected) {
            return false;
        }
    }
    match schema.get("enum") {
        None => true,
        Some(value) => match value.as_array() {
            Some(values) => one_equals(values, instance),
            None => false,
        },
    }
}

/// Whether one of the values equals a given one.
fn one_equals(values: &Vec<Json>, instance: &Json) -> (yes: bool)
    ensures
        yes == exists|i: int| 0 <= i < values@.len() && json_eq(#[trigger] list_view(values@)[i], instance@),
{
    let mut i: usize = 0;
    while i < values.len()
        invariant
            i <= values@.len(),
            forall|k: int| 0 <= k < i ==> !json_eq(#[trigger] list_view(values@)[k], instance@),
        decreases values@.len() - i,
    {
        if values[i].equals(instance) {
            assert(json_eq(list_view(values@)[i as int], instance@));
            return true;
        }
        i = i + 1;
    }
    false
}

/// Whether the names that must be there are texts, differ, and are keys of an object.
pub open spec fn required_rule(instance: JsonV, required: JsonV) -> bool {
    match required {
        JsonV::Array(names) => {
            &&& forall|i: int|
                0 <= i < names.len() ==> (#[trigger] names[i]) is Str && instance.get(names[i]->Str_0) is Some
            &&& forall|i: int, j: int| 0 <= i < j < names.len() ==> (#[trigger] names[i]) != (#[trigger] names[j])
        },
        _ => false,
    }
}

fn obeys_required(instance: &Json, required: &Json) -> (yes: bool)
    ensures
        yes == required_rule(instance@, required@),
{
    match required {
        Json::Array(names) => {
            let ghost all = list_view(names@);
            let mut seen: Vec<String> = Vec::new();
            let mut i: usize = 0;
            while i < names.len()
                invariant
                    i <= names@.len(),
                    required == Json::Array(*names),
                    all == list_view(names@),
                    seen@.len() == i,
                    forall|k: int| 0 <= k < i ==> (#[trigger] all[k]) == JsonV::Str(texts(seen@)[k]),
                    forall|k: int| 0 <= k < i ==> (#[trigger] all[k]) is Str && instance@.get(all[k]->Str_0) is Some,
                    forall|k: int, j: int| 0 <= k < j < i ==> (#[trigger] all[k]) != (#[trigger] all[j]),
                decreases names@.len() - i,
            {
                match &names[i] {
                    Json::Str(name) => {
                        assert(all[i as int] == JsonV::Str(name@));
                        if contains_text(&seen, name.as_str()) {
                            let ghost k = choose|k: int| 0 <= k < texts(seen@).len() && texts(seen@)[k] == name@;
                            assert(all[k] == all[i as int]);
                            return false;
                        }
                        if instance.get(name.as_str()).is_none() {
                            assert(instance@.get(all[i as int]->Str_0) is None);
                            return false;
                        }
                        assert forall|k: int| 0 <= k < i implies (#[trigger] all[k]) != all[i as int] by {
                            assert(texts(seen@)[k] != name@);
                        }
                        seen.push(name.clone());
                    },
                    _ => {
                        assert(!(all[i as int] is Str));
                        return false;
                    },
                }
                i = i + 1;
            }
            true
        },
        _ => false,
    }
}

/// Whether every name of a list is a text and a key of an object.
pub open spec fn names_are_keys(instance: JsonV, names: Seq<JsonV>) -> bool {
    forall|i: int| 0 <= i < names.len() ==> (#[trigger] names[i]) is Str && instance.get(names[i]->Str_0) is Some
}

/// Whether each key that is there brings the keys that depend on it.
pub open spec fn dependent_rule(instance: JsonV, dependencies: JsonV) -> bool {
    match dependencies {
        JsonV::Object(entries) => forall|i: int|
            0 <= i < entries.len() && instance.get((#[trigger] entries[i]).0) is Some ==> match entries[i].1 {
                JsonV::Array(names) => names_are_keys(instance, names),
                _ => false,
            },
        _ => false,
    }
}

fn has_all_keys(instance: &Json, names: &Vec<Json>) -> (yes: bool)
    ensures
        yes == names_are_keys(instance@, list_view(names@)),
{
    let ghost all = list_view(names@);
    let mut i: usize = 0;
    while i < names.len()
        invariant
            i <= names@.len(),
            all == list_view(names@),
            forall|k: int| 0 <= k < i ==> (#[trigger] all[k]) is Str && instance@.get(all[k]->Str_0) is Some,
        decreases names@.len() - i,
    {
        match &names[i] {
            Json::Str(name) => {
                assert(all[i as int] == JsonV::Str(name@));
                if instance.get(name.as_str()).is_none() {
                    return false;
                }
            },
            _ => {
                assert(!(all[i as int] is Str));
                return false;
            },
        }
        i = i + 1;
    }
    true
}

fn obeys_dependent(instance: &Json, dependencies: &Json) -> (yes: bool)
    ensures
        yes == dependent_rule(instance@, dependencies@),
{
    match dependencies {
        Json::Object(entries) => {
            let ghost all = entries_view(entries@);
            let mut i: usize = 0;
            while i < entries.len()
                invariant
                    i <= entries@.len(),
                    dependencies == Json::Object(*entries),
                    all == entries_view(entries@),
                    forall|k: int|
                        0 <= k < i && instance@.get((#[trigger] all[k]).0) is Some ==> match all[k].1 {
                            JsonV::Array(names) => names_are_keys(instance@, names),
                            _ => false,
                        },
                decreases entries@.len() - i,
            {
                let ghost entry = all[i as int];
                assert(entry.0 == entries@[i as int].0@ && entry.1 == entries@[i as int].1@);
                if instance.get(entries[i].0.as_str()).is_some() {
                    match entries[i].1.as_array() {
                        Some(names) => {
                            if !has_all_keys(instance, names) {
                                return false;
                            }
                        },
                        None => {
                            return false;
                        },
                    }
                }
                i = i + 1;
            }
            true
        },
        _ => false,
    }
}

/// Whether no two items are equal.
pub open spec fn no_repeats(items: Seq<JsonV>) -> bool {
    forall|i: int, j: int| 0 <= i < j < items.len() ==> !json_eq(#[trigger] items[j], #[trigger] items[i])
}

fn all_differ(items: &Vec<Json>) -> (yes: bool)
    ensures
        yes == no_repeats(list_view(items@)),
{
    let ghost all = list_view(items@);
    let mut i: usize = 0;
    while i < items.len()
        invariant
            i <= items@.len(),
            all == list_view(items@),
            forall|k: int, j: int| 0 <= k < i && k < j < all.len() ==> !json_eq(#[trigger] all[j], #[trigger] all[k]),
        decreases items@.len() - i,
    {
        let mut j: usize = i + 1;
        while j < items.len()
            invariant
                i < j <= items@.len(),
                all == list_view(items@),
                forall|m: int| i < m < j ==> !json_eq(#[trigger] all[m], all[i as int]),
            decreases items@.len() - j,
        {
            if items[j].equals(&items[i]) {
                assert(json_eq(all[j as int], all[i as int]));
                return false;
            }
            j = j + 1;
        }
        i = i + 1;
    }
    true
}

/// Whether an array obeys the keywords about its size and repetition.
pub open spec fn array_rules(items: Seq<JsonV>, schema: JsonV) -> bool {
    &&& size_fits(schema, "minItems"@, "maxItems"@, items.len())
    &&& match schema.get("uniqueItems"@) {
        Some(JsonV::Bool(unique)) => unique ==> no_repeats(items),
        Some(_) => false,
        None => true,
    }
}

fn obeys_array_rules(items: &Vec<Json>, schema: &Json) -> (yes: bool)
    ensures
        yes == array_rules(list_view(items@), schema@),
{
    if !fits(schema, "minItems", "maxItems", items.len()) {
        return false;
    }
    match schema.get("uniqueItems") {
        Some(Json::Bool(unique)) => !*unique || all_differ(items),
        Some(_) => false,
        None => true,
    }
}

/// Whether a text obeys the keywords about its length and form.
pub open spec fn text_rules(text: Seq<char>, schema: JsonV) -> bool {
    &&& size_fits(schema, "minLength"@, "maxLength"@, text.len())
    &&& match schema.get("pattern"@) {
        Some(JsonV::Str(pattern)) => pattern_match(pattern, text) == Some(true),
        Some(_) => false,
        None => true,
    }
}

fn obeys_text_rules(text: &str, schema: &Json) -> (yes: bool)
    ensures
        yes == text_rules(text@, schema@),
{
    if !fits(schema, "minLength", "maxLength", text.unicode_len()) {
        return false;
    }
    match schema.get("pattern") {
        Some(Json::Str(pattern)) => match match_pattern(pattern.as_str(), text) {
            Some(matched) => matched,
            None => false,
        },
        Some(_) => false,
        None => true,
    }
}

/// A bound that a keyword gives, as binary64 bits: `None` where the keyword is not there,
/// `Some(None)` where it is no number.
pub open spec fn bound_keyword(schema: JsonV, key: Seq<char>) -> Option<Option<u64>> {
    match schema.get(key) {
        None => None,
        Some(JsonV::Number(n)) => Some(Some(float_bits(n))),
        Some(_) => Some(None),
    }
}

fn number_keyword(schema: &Json, key: &str) -> (bound: Option<Option<u64>>)
    ensures
        bound == bound_keyword(schema@, key@),
{
    match schema.get(key) {
        None => None,
        Some(Json::Number(n)) => Some(Some(n.float())),
        Some(_) => Some(None),
    }
}

/// Whether a number lies within the bounds that the keywords give.
pub open spec fn bound_rules(bits: u64, schema: JsonV) -> bool {
    &&& match bound_keyword(schema, "minimum"@) {
        None => true,
        Some(None) => false,
        Some(Some(bound)) => float_place(bits) >= float_place(bound),
    }
    &&& match bound_keyword(schema, "maximum"@) {
        None => true,
        Some(None) => false,
        Some(Some(bound)) => float_place(bits) <= float_place(bound),
    }
    &&& match bound_keyword(schema, "exclusiveMinimum"@) {
        None => true,
        Some(None) => false,
        Some(Some(bound)) => float_place(bits) > float_place(bound),
    }
    &&& match bound_keyword(schema, "exclusiveMaximum"@) {
        None => true,
        Some(None) => false,
        Some(Some(bound)) => float_place(bits) < float_place(bound),
    }
}

fn obeys_bounds(bits: u64, schema: &Json) -> (yes: bool)
    ensures
        yes == bound_rules(bits, schema@),
{
    let above = match number_keyword(schema, "minimum") {
        None => true,
        Some(None) => false,
        Some(Some(bound)) => !float_less(bits, bound),
    };
    let below = match number_keyword(schema, "maximum") {
        None => true,
        Some(None) => false,
        Some(Some(bound)) => !float_less(bound, bits),
    };
    let strictly_above = match number_keyword(schema, "exclusiveMinimum") {
        None => true,
        Some(None) => false,
        Some(Some(bound)) => float_less(bound, bits),
    };
    let strictly_below = match number_keyword(schema, "exclusiveMaximum") {
        None => true,
        Some(None) => false,
        Some(Some(bound)) => float_less(bits, bound),
    };
    above && below && strictly_above && strictly_below
}

/// A number checked against the keywords about numbers.
pub open spec fn number_check(bits: u64, schema: JsonV, nodes: usize, tests: Seq<QuotientTest>) -> Check {
    if !bound_rules(bits, schema) {
        Check::Invalid
    } else {
        match bound_keyword(schema, "multipleOf"@) {
            None => Check::Valid(nodes),
            Some(None) => Check::Invalid,
            Some(Some(divisor)) => if float_place(divisor) <= 0 {
                Check::Invalid
            } else {
                match quotient_of(tests, bits, divisor) {
                    None => Check::NeedsQuotient(bits, divisor),
                    Some(whole) => if whole {
                        Check::Valid(nodes)
                    } else {
                        Check::Invalid
                    },
                }
            },
        }
    }
}

fn check_number(bits: u64, schema: &Json, nodes: usize, tests: &Vec<QuotientTest>) -> (check: Check)
    ensures
        check == number_check(bits, schema@, nodes, tests@),
{
    if !obeys_bounds(bits, schema) {
        return Check::Invalid;
    }
    match number_keyword(schema, "multipleOf") {
        None => Check::Valid(nodes),
        Some(None) => Check::Invalid,
        Some(Some(divisor)) => if !float_less(0, divisor) {
            Check::Invalid
        } else {
            match find_quotient(tests, bits, divisor) {
                None => Check::NeedsQuotient(bits, divisor),
                Some(whole) => if whole {
                    Check::Valid(nodes)
                } else {
                    Check::Invalid
                },
            }
        },
    }
}

/// Everything that stays the same while a schema is checked: the document that references point
/// into, and the divisions whose outcome is known.
pub struct SchemaContextV {
    pub root: JsonV,
    pub tests: Seq<QuotientTest>,
}

/// A value checked against a schema. `left` is how many levels of nesting are left, `nodes` how
/// many schemas were visited, `refs` the references that are being followed.
pub open spec fn schema_check(
    instance: JsonV,
    schema: JsonV,
    cx: SchemaContextV,
    left: nat,
    nodes: usize,
    refs: Set<Seq<char>>,
) -> Check
    decreases left, 0nat, 0nat,
{
    if left == 0 || nodes >= MAX_SCHEMA_NODES {
        Check::Invalid
    } else {
        let entered = (nodes + 1) as usize;
        let inner = (left - 1) as nat;
        match schema {
            JsonV::Bool(allowed) => if allowed {
                Check::Valid(entered)
            } else {
                Check::Invalid
            },
            JsonV::Object(_) => if !all_supported(schema) {
                Check::Invalid
            } else {
                match ref_check(instance, schema, cx, inner, entered, refs) {
                    Check::Valid(n1) => if !plain_rules(instance, schema) {
                        Check::Invalid
                    } else {
                        match logic_check(instance, schema, cx, inner, n1, refs) {
                            Check::Valid(_) => match if_check(instance, schema, cx, inner, n1, refs) {
                                Check::Valid(n2) => match object_check(instance, schema, cx, inner, n2, refs) {
                                    Check::Valid(n3) => match array_check(instance, schema, cx, inner, n3, refs) {
                                        Check::Valid(n4) => leaf_check(instance, schema, n4, cx.tests),
                                        other => other,
                                    },
                                    other => other,
                                },
                                other => other,
                            },
                            other => other,
                        }
                    },
                    other => other,
                }
            },
            _ => Check::Invalid,
        }
    }
}

/// A value checked against the schema that a reference names.
pub open spec fn ref_check(
    instance: JsonV,
    schema: JsonV,
    cx: SchemaContextV,
    inner: nat,
    nodes: usize,
    refs: Set<Seq<char>>,
) -> Check
    decreases inner, 2nat, 0nat,
{
    match schema.get("$ref"@) {
        None => Check::Valid(nodes),
        Some(JsonV::Str(reference)) => match local_ref(cx.root, reference) {
            None => Check::Invalid,
            Some(target) => if refs.contains(reference) {
                Check::Invalid
            } else {
                schema_check(instance, target, cx, inner, nodes, refs.insert(reference))
            },
        },
        Some(_) => Check::Invalid,
    }
}

/// How many of the branches a value is valid against, each checked on its own; or the division
/// that must be known first.
pub open spec fn branch_count(
    instance: JsonV,
    branches: Seq<JsonV>,
    cx: SchemaContextV,
    inner: nat,
    nodes: usize,
    refs: Set<Seq<char>>,
) -> Result<nat, (u64, u64)>
    decreases inner, 1nat, branches.len(),
{
    if branches.len() == 0 {
        Ok(0)
    } else {
        match branch_count(instance, branches.drop_last(), cx, inner, nodes, refs) {
            Err(open) => Err(open),
            Ok(count) => match schema_check(instance, branches.last(), cx, inner, nodes, refs) {
                Check::Valid(_) => Ok(count + 1),
                Check::Invalid => Ok(count),
                Check::NeedsQuotient(a, b) => Err((a, b)),
            },
        }
    }
}

/// Which numbers of valid branches a keyword takes.
pub enum Quorum {
    All,
    Any,
    One,
}

pub open spec fn quorum_met(quorum: Quorum, count: nat, of: nat) -> bool {
    match quorum {
        Quorum::All => count == of,
        Quorum::Any => count >= 1,
        Quorum::One => count == 1,
    }
}

/// A value checked against the branches under a keyword.
pub open spec fn group_check(
    instance: JsonV,
    schema: JsonV,
    key: Seq<char>,
    quorum: Quorum,
    cx: SchemaContextV,
    inner: nat,
    nodes: usize,
    refs: Set<Seq<char>>,
) -> Check
    decreases inner, 2nat, 0nat,
{
    match schema.get(key) {
        None => Check::Valid(nodes),
        Some(JsonV::Array(branches)) => if branches.len() == 0 {
            Check::Invalid
        } else {
            match branch_count(instance, branches, cx, inner, nodes, refs) {
                Err((a, b)) => Check::NeedsQuotient(a, b),
                Ok(count) => if quorum_met(quorum, count, branches.len()) {
                    Check::Valid(nodes)
                } else {
                    Check::Invalid
                },
            }
        },
        Some(_) => Check::Invalid,
    }
}

/// A value checked against `allOf`, `anyOf`, `oneOf` and `not`.
pub open spec fn logic_check(
    instance: JsonV,
    schema: JsonV,
    cx: SchemaContextV,
    inner: nat,
    nodes: usize,
    refs: Set<Seq<char>>,
) -> Check
    decreases inner, 3nat, 0nat,
{
    match group_check(instance, schema, "allOf"@, Quorum::All, cx, inner, nodes, refs) {
        Check::Valid(_) => match group_check(instance, schema, "anyOf"@, Quorum::Any, cx, inner, nodes, refs) {
            Check::Valid(_) => match group_check(instance, schema, "oneOf"@, Quorum::One, cx, inner, nodes, refs) {
                Check::Valid(_) => match schema.get("not"@) {
                    None => Check::Valid(nodes),
                    Some(negated) => match schema_check(instance, negated, cx, inner, nodes, refs) {
                        Check::Valid(_) => Check::Invalid,
                        Check::Invalid => Check::Valid(nodes),
                        other => other,
                    },
                },
                other => other,
            },
            other => other,
        },
        other => other,
    }
}

/// A value checked against a schema that may be there.
pub open spec fn optional_check(
    instance: JsonV,
    schema: Option<JsonV>,
    cx: SchemaContextV,
    inner: nat,
    nodes: usize,
    refs: Set<Seq<char>>,
) -> Check
    decreases inner, 1nat, 0nat,
{
    match schema {
        None => Check::Valid(nodes),
        Some(s) => schema_check(instance, s, cx, inner, nodes, refs),
    }
}

/// A value checked against `if` and the branch that it chooses.
pub open spec fn if_check(
    instance: JsonV,
    schema: JsonV,
    cx: SchemaContextV,
    inner: nat,
    nodes: usize,
    refs: Set<Seq<char>>,
) -> Check
    decreases inner, 2nat, 0nat,
{
    match schema.get("if"@) {
        None => if schema.get("then"@) is Some || schema.get("else"@) is Some {
            Check::Invalid
        } else {
            Check::Valid(nodes)
        },
        Some(condition) => match schema_check(instance, condition, cx, inner, nodes, refs) {
            Check::Valid(_) => optional_check(instance, schema.get("then"@), cx, inner, nodes, refs),
            Check::Invalid => optional_check(instance, schema.get("else"@), cx, inner, nodes, refs),
            other => other,
        },
    }
}

/// The schema that an entry of an object falls under: `Ok(None)` where anything goes, `Err` where
/// the entry is not allowed.
pub open spec fn entry_schema(schema: JsonV, name: Seq<char>) -> Result<Option<JsonV>, ()> {
    let property = match schema.get("properties"@) {
        Some(properties) => properties.get(name),
        None => None,
    };
    match property {
        Some(s) => Ok(Some(s)),
        None => match schema.get("additionalProperties"@) {
            None => Ok(None),
            Some(JsonV::Bool(allowed)) => if allowed {
                Ok(None)
            } else {
                Err(())
            },
            Some(JsonV::Object(entries)) => Ok(Some(JsonV::Object(entries))),
            Some(_) => Err(()),
        },
    }
}

/// The entries of an object checked one after another.
pub open spec fn entries_check(
    entries: Seq<(Seq<char>, JsonV)>,
    schema: JsonV,
    cx: SchemaContextV,
    inner: nat,
    nodes: usize,
    refs: Set<Seq<char>>,
) -> Check
    decreases inner, 2nat, entries.len(),
{
    if entries.len() == 0 {
        Check::Valid(nodes)
    } else {
        match entries_check(entries.drop_last(), schema, cx, inner, nodes, refs) {
            Check::Valid(n) => match entry_schema(schema, entries.last().0) {
                Err(()) => Check::Invalid,
                Ok(s) => optional_check(entries.last().1, s, cx, inner, n, refs),
            },
            other => other,
        }
    }
}

/// A value checked against the keywords about objects.
pub open spec fn object_check(
    instance: JsonV,
    schema: JsonV,
    cx: SchemaContextV,
    inner: nat,
    nodes: usize,
    refs: Set<Seq<char>>,
) -> Check
    decreases inner, 3nat, 0nat,
{
    match instance {
        JsonV::Object(entries) => if !size_fits(schema, "minProperties"@, "maxProperties"@, entries.len()) {
            Check::Invalid
        } else if schema.get("required"@) is Some && !required_rule(instance, schema.get("required"@).unwrap()) {
            Check::Invalid
        } else if schema.get("properties"@) is Some && !(schema.get("properties"@).unwrap() is Object) {
            Check::Invalid
        } else {
            match entries_check(entries, schema, cx, inner, nodes, refs) {
                Check::Valid(n) => match schema.get("dependentRequired"@) {
                    Some(dependencies) => if dependent_rule(instance, dependencies) {
                        Check::Valid(n)
                    } else {
                        Check::Invalid
                    },
                    None => Check::Valid(n),
                },
                other => other,
            }
        },
        _ => Check::Valid(nodes),
    }
}

/// The items of an array checked one after another.
pub open spec fn items_check(
    items: Seq<JsonV>,
    schema: JsonV,
    cx: SchemaContextV,
    inner: nat,
    nodes: usize,
    refs: Set<Seq<char>>,
) -> Check
    decreases inner, 1nat, items.len(),
{
    if items.len() == 0 {
        Check::Valid(nodes)
    } else {
        match items_check(items.drop_last(), schema, cx, inner, nodes, refs) {
            Check::Valid(n) => schema_check(items.last(), schema, cx, inner, n, refs),
            other => other,
        }
    }
}

/// A value checked against the keywords about arrays.
pub open spec fn array_check(
    instance: JsonV,
    schema: JsonV,
    cx: SchemaContextV,
    inner: nat,
    nodes: usize,
    refs: Set<Seq<char>>,
) -> Check
    decreases inner, 2nat, 0nat,
{
    match instance {
        JsonV::Array(items) => if !array_rules(items, schema) {
            Check::Invalid
        } else {
            match schema.get("items"@) {
                None => Check::Valid(nodes),
                Some(JsonV::Array(_)) => Check::Invalid,
                Some(item_schema) => items_check(items, item_schema, cx, inner, nodes, refs),
            }
        },
        _ => Check::Valid(nodes),
    }
}

/// A value checked against the keywords about texts and numbers.
pub open spec fn leaf_check(instance: JsonV, schema: JsonV, nodes: usize, tests: Seq<QuotientTest>) -> Check {
    match instance {
        JsonV::Str(text) => if text_rules(text, schema) {
            Check::Valid(nodes)
        } else {
            Check::Invalid
        },
        JsonV::Number(n) => number_check(float_bits(n), schema, nodes, tests),
        _ => Check::Valid(nodes),
    }
}

pub open spec fn context_of(root: &Json, tests: &Vec<QuotientTest>) -> SchemaContextV {
    SchemaContextV { root: root@, tests: tests@ }
}

fn check_ref(
    instance: &Json,
    schema: &Json,
    root: &Json,
    tests: &Vec<QuotientTest>,
    inner: usize,
    nodes: usize,
    refs: &Vec<String>,
) -> (check: Check)
    ensures
        check == ref_check(instance@, schema@, context_of(root, tests), inner as nat, nodes, id_set(refs@)),
    decreases inner, 2nat, 0nat,
{
    match schema.get("$ref") {
        None => Check::Valid(nodes),
        Some(value) => match value.as_str() {
            None => Check::Invalid,
            Some(reference) => match resolve_local_ref(root, reference) {
                None => Check::Invalid,
                Some(target) => if contains_text(refs, reference) {
                    Check::Invalid
                } else {
                    let mut inside = copy_list(refs);
                    let name = reference.to_owned();
                    proof {
                        id_set_push(inside@, name);
                        assert(id_set(inside@) == id_set(refs@));
                    }
                    inside.push(name);
                    validate_schema_instance(instance, target, root, tests, inner, nodes, &inside)
                },
            },
        },
    }
}

fn copy_list(list: &Vec<String>) -> (copy: Vec<String>)
    ensures
        texts(copy@) == texts(list@),
{
    let mut copy: Vec<String> = Vec::new();
    let mut i: usize = 0;
    while i < list.len()
        invariant
            i <= list@.len(),
            texts(copy@) == texts(list@).take(i as int),
        decreases list@.len() - i,
    {
        assert(texts(list@).take(i + 1) =~= texts(list@).take(i as int).push(texts(list@)[i as int]));
        copy.push(list[i].clone());
        i = i + 1;
    }
    assert(texts(list@).take(i as int) =~= texts(list@));
    copy
}

fn count_branches(
    instance: &Json,
    branches: &Vec<Json>,
    root: &Json,
    tests: &Vec<QuotientTest>,
    inner: usize,
    nodes: usize,
    refs: &Vec<String>,
) -> (count: Result<usize, (u64, u64)>)
    ensures
        match count {
            Ok(n) => branch_count(instance@, list_view(branches@), context_of(root, tests), inner as nat, nodes, id_set(refs@))
                == Ok::<nat, (u64, u64)>(n as nat),
            Err(open) => branch_count(
                instance@,
                list_view(branches@),
                context_of(root, tests),
                inner as nat,
                nodes,
                id_set(refs@),
            ) == Err::<nat, (u64, u64)>(open),
        },
    decreases inner, 1nat, branches@.len(),
{
    let ghost all = list_view(branches@);
    let ghost cx = context_of(root, tests);
    let mut count: usize = 0;
    let mut i: usize = 0;
    while i < branches.len()
        invariant
            i <= branches@.len(),
            count <= i,
            all == list_view(branches@),
            cx == context_of(root, tests),
            branch_count(instance@, all.take(i as int), cx, inner as nat, nodes, id_set(refs@)) == Ok::<nat, (u64, u64)>(
                count as nat,
            ),
        decreases branches@.len() - i,
    {
        assert(all.take(i + 1).drop_last() =~= all.take(i as int));
        match validate_schema_instance(instance, &branches[i], root, tests, inner, nodes, refs) {
            Check::Valid(_) => {
                count = count + 1;
            },
            Check::Invalid => {},
            Check::NeedsQuotient(a, b) => {
                proof {
                    branch_count_stays_open(instance@, all, cx, inner as nat, nodes, id_set(refs@), i + 1);
                }
                return Err((a, b));
            },
        }
        i = i + 1;
    }
    assert(all.take(i as int) =~= all);
    Ok(count)
}

proof fn branch_count_stays_open(
    instance: JsonV,
    branches: Seq<JsonV>,
    cx: SchemaContextV,
    inner: nat,
    nodes: usize,
    refs: Set<Seq<char>>,
    i: int,
)
    requires
        0 <= i <= branches.len(),
        branch_count(instance, branches.take(i), cx, inner, nodes, refs) is Err,
    ensures
        branch_count(instance, branches, cx, inner, nodes, refs) == branch_count(
            instance,
            branches.take(i),
            cx,
            inner,
            nodes,
            refs,
        ),
    decreases branches.len() - i,
{
    if i < branches.len() {
        assert(branches.take(i + 1).drop_last() =~= branches.take(i));
        branch_count_stays_open(instance, branches, cx, inner, nodes, refs, i + 1);
    } else {
        assert(branches.take(i) =~= branches);
    }
}

fn check_group(
    instance: &Json,
    schema: &Json,
    key: &str,
    quorum: Quorum,
    root: &Json,
    tests: &Vec<QuotientTest>,
    inner: usize,
    nodes: usize,
    refs: &Vec<String>,
) -> (check: Check)
    ensures
        check == group_check(
            instance@,
            schema@,
            key@,
            quorum,
            context_of(root, tests),
            inner as nat,
            nodes,
            id_set(refs@),
        ),
    decreases inner, 2nat, 0nat,
{
    match schema.get(key) {
        None => Check::Valid(nodes),
        Some(value) => match value.as_array() {
            None => Check::Invalid,
            Some(branches) => {
                if branches.len() == 0 {
                    return Check::Invalid;
                }
                match count_branches(instance, branches, root, tests, inner, nodes, refs) {
                    Err((a, b)) => Check::NeedsQuotient(a, b),
                    Ok(count) => {
                        let met = match quorum {
                            Quorum::All => count == branches.len(),
                            Quorum::Any => count >= 1,
                            Quorum::One => count == 1,
                        };
                        if met {
                            Check::Valid(nodes)
                        } else {
                            Check::Invalid
                        }
                    },
                }
            },
        },
    }
}

fn check_logic(
    instance: &Json,
    schema: &Json,
    root: &Json,
    tests: &Vec<QuotientTest>,
    inner: usize,
    nodes: usize,
    refs: &Vec<String>,
) -> (check: Check)
    ensures
        check == logic_check(instance@, schema@, context_of(root, tests), inner as nat, nodes, id_set(refs@)),
    decreases inner, 3nat, 0nat,
{
    match check_group(instance, schema, "allOf", Quorum::All, root, tests, inner, nodes, refs) {
        Check::Valid(_) => {},
        other => {
            return other;
        },
    }
    match check_group(instance, schema, "anyOf", Quorum::Any, root, tests, inner, nodes, refs) {
        Check::Valid(_) => {},
        other => {
            return other;
        },
    }
    match check_group(instance, schema, "oneOf", Quorum::One, root, tests, inner, nodes, refs) {
        Check::Valid(_) => {},
        other => {
            return other;
        },
    }
    match schema.get("not") {
        None => Check::Valid(nodes),
        Some(negated) => match validate_schema_instance(instance, negated, root, tests, inner, nodes, refs) {
            Check::Valid(_) => Check::Invalid,
            Check::Invalid => Check::Valid(nodes),
            other => other,
        },
    }
}

fn check_optional(
    instance: &Json,
    schema: Option<&Json>,
    root: &Json,
    tests: &Vec<QuotientTest>,
    inner: usize,
    nodes: usize,
    refs: &Vec<String>,
) -> (check: Check)
    ensures
        check == optional_check(instance@, opt_tree(schema), context_of(root, tests), inner as nat, nodes, id_set(refs@)),
    decreases inner, 1nat, 0nat,
{
    match schema {
        None => Check::Valid(nodes),
        Some(s) => validate_schema_instance(instance, s, root, tests, inner, nodes, refs),
    }
}

fn check_if(
    instance: &Json,
    schema: &Json,
    root: &Json,
    tests: &Vec<QuotientTest>,
    inner: usize,
    nodes: usize,
    refs: &Vec<String>,
) -> (check: Check)
    ensures
        check == if_check(instance@, schema@, context_of(root, tests), inner as nat, nodes, id_set(refs@)),
    decreases inner, 2nat, 0nat,
{
    match schema.get("if") {
        None => if schema.get("then").is_some() || schema.get("else").is_some() {
            Check::Invalid
        } else {
            Check::Valid(nodes)
        },
        Some(condition) => match validate_schema_instance(instance, condition, root, tests, inner, nodes, refs) {
            Check::Valid(_) => check_optional(instance, schema.get("then"), root, tests, inner, nodes, refs),
            Check::Invalid => check_optional(instance, schema.get("else"), root, tests, inner, nodes, refs),
            other => other,
        },
    }
}

fn schema_of_entry<'a>(schema: &'a Json, name: &str) -> (found: Result<Option<&'a Json>, ()>)
    ensures
        match found {
            Ok(s) => entry_schema(schema@, name@) == Ok::<Option<JsonV>, ()>(opt_tree(s)),
            Err(()) => entry_schema(schema@, name@) is Err,
        },
{
    let property = match schema.get("properties") {
        Some(properties) => properties.get(name),
        None => None,
    };
    match property {
        Some(s) => Ok(Some(s)),
        None => match schema.get("additionalProperties") {
            None => Ok(None),
            Some(value) => match value {
                Json::Bool(allowed) => if *allowed {
                    Ok(None)
                } else {
                    Err(())
                },
                Json::Object(_) => Ok(Some(value)),
                _ => Err(()),
            },
        },
    }
}

proof fn entries_check_stays(
    entries: Seq<(Seq<char>, JsonV)>,
    schema: JsonV,
    cx: SchemaContextV,
    inner: nat,
    nodes: usize,
    refs: Set<Seq<char>>,
    i: int,
)
    requires
        0 <= i <= entries.len(),
        !(entries_check(entries.take(i), schema, cx, inner, nodes, refs) is Valid),
    ensures
        entries_check(entries, schema, cx, inner, nodes, refs) == entries_check(
            entries.take(i),
            schema,
            cx,
            inner,
            nodes,
            refs,
        ),
    decreases entries.len() - i,
{
    if i < entries.len() {
        assert(entries.take(i + 1).drop_last() =~= entries.take(i));
        entries_check_stays(entries, schema, cx, inner, nodes, refs, i + 1);
    } else {
        assert(entries.take(i) =~= entries);
    }
}

fn check_entries(
    entries: &Vec<(String, Json)>,
    schema: &Json,
    root: &Json,
    tests: &Vec<QuotientTest>,
    inner: usize,
    nodes: usize,
    refs: &Vec<String>,
) -> (check: Check)
    ensures
        check == entries_check(
            entries_view(entries@),
            schema@,
            context_of(root, tests),
            inner as nat,
            nodes,
            id_set(refs@),
        ),
    decreases inner, 2nat, entries@.len(),
{
    let ghost all = entries_view(entries@);
    let ghost cx = context_of(root, tests);
    let mut visited: usize = nodes;
    let mut i: usize = 0;
    while i < entries.len()
        invariant
            i <= entries@.len(),
            all == entries_view(entries@),
            cx == context_of(root, tests),
            entries_check(all.take(i as int), schema@, cx, inner as nat, nodes, id_set(refs@)) == Check::Valid(visited),
        decreases entries@.len() - i,
    {
        assert(all.take(i + 1).drop_last() =~= all.take(i as int));
        let one = match schema_of_entry(schema, entries[i].0.as_str()) {
            Err(()) => Check::Invalid,
            Ok(s) => check_optional(&entries[i].1, s, root, tests, inner, visited, refs),
        };
        match one {
            Check::Valid(n) => {
                visited = n;
            },
            other => {
                proof {
                    entries_check_stays(all, schema@, cx, inner as nat, nodes, id_set(refs@), i + 1);
                }
                return other;
            },
        }
        i = i + 1;
    }
    assert(all.take(i as int) =~= all);
    Check::Valid(visited)
}

fn check_object(
    instance: &Json,
    schema: &Json,
    root: &Json,
    tests: &Vec<QuotientTest>,
    inner: usize,
    nodes: usize,
    refs: &Vec<String>,
) -> (check: Check)
    ensures
        check == object_check(instance@, schema@, context_of(root, tests), inner as nat, nodes, id_set(refs@)),
    decreases inner, 3nat, 0nat,
{
    let entries = match instance.as_object() {
        Some(entries) => entries,
        None => {
            return Check::Valid(nodes);
        },
    };
    if !fits(schema, "minProperties", "maxProperties", entries.len()) {
        return Check::Invalid;
    }
    if let Some(required) = schema.get("required") {
        if !obeys_required(instance, required) {
            return Check::Invalid;
        }
    }
    if let Some(properties) = schema.get("properties") {
        if !properties.is_object() {
            return Check::Invalid;
        }
    }
    match check_entries(entries, schema, root, tests, inner, nodes, refs) {
        Check::Valid(n) => match schema.get("dependentRequired") {
            Some(dependencies) => if obeys_dependent(instance, dependencies) {
                Check::Valid(n)
            } else {
                Check::Invalid
            },
            None => Check::Valid(n),
        },
        other => other,
    }
}

proof fn items_check_stays(
    items: Seq<JsonV>,
    schema: JsonV,
    cx: SchemaContextV,
    inner: nat,
    nodes: usize,
    refs: Set<Seq<char>>,
    i: int,
)
    requires
        0 <= i <= items.len(),
        !(items_check(items.take(i), schema, cx, inner, nodes, refs) is Valid),
    ensures
        items_check(items, schema, cx, inner, nodes, refs) == items_check(items.take(i), schema, cx, inner, nodes, refs),
    decreases items.len() - i,
{
    if i < items.len() {
        assert(items.take(i + 1).drop_last() =~= items.take(i));
        items_check_stays(items, schema, cx, inner, nodes, refs, i + 1);
    } else {
        assert(items.take(i) =~= items);
    }
}

fn check_items(
    items: &Vec<Json>,
    schema: &Json,
    root: &Json,
    tests: &Vec<QuotientTest>,
    inner: usize,
    nodes: usize,
    refs: &Vec<String>,
) -> (check: Check)
    ensures
        check == items_check(list_view(items@), schema@, context_of(root, tests), inner as nat, nodes, id_set(refs@)),
    decreases inner, 1nat, items@.len(),
{
    let ghost all = list_view(items@);
    let ghost cx = context_of(root, tests);
    let mut visited: usize = nodes;
    let mut i: usize = 0;
    while i < items.len()
        invariant
            i <= items@.len(),
            all == list_view(items@),
            cx == context_of(root, tests),
            items_check(all.take(i as int), schema@, cx, inner as nat, nodes, id_set(refs@)) == Check::Valid(visited),
        decreases items@.len() - i,
    {
        assert(all.take(i + 1).drop_last() =~= all.take(i as int));
        match validate_schema_instance(&items[i], schema, root, tests, inner, visited, refs) {
            Check::Valid(n) => {
                visited = n;
            },
            other => {
                proof {
                    items_check_stays(all, schema@, cx, inner as nat, nodes, id_set(refs@), i + 1);
                }
                return other;
            },
        }
        i = i + 1;
    }
    assert(all.take(i as int) =~= all);
    Check::Valid(visited)
}

fn check_array(
    instance: &Json,
    schema: &Json,
    root: &Json,
    tests: &Vec<QuotientTest>,
    inner: usize,
    nodes: usize,
    refs: &Vec<String>,
) -> (check: Check)
    ensures
        check == array_check(instance@, schema@, context_of(root, tests), inner as nat, nodes, id_set(refs@)),
    decreases inner, 2nat, 0nat,
{
    let items = match instance.as_array() {
        Some(items) => items,
        None => {
            return Check::Valid(nodes);
        },
    };
    if !obeys_array_rules(items, schema) {
        return Check::Invalid;
    }
    match schema.get("items") {
        None => Check::Valid(nodes),
        Some(item_schema) => if item_schema.as_array().is_some() {
            Check::Invalid
        } else {
            check_items(items, item_schema, root, tests, inner, nodes, refs)
        },
    }
}

fn check_leaf(instance: &Json, schema: &Json, nodes: usize, tests: &Vec<QuotientTest>) -> (check: Check)
    ensures
        check == leaf_check(instance@, schema@, nodes, tests@),
{
    match instance {
        Json::Str(text) => if obeys_text_rules(text.as_str(), schema) {
            Check::Valid(nodes)
        } else {
            Check::Invalid
        },
        Json::Number(n) => check_number(n.float(), schema, nodes, tests),
        _ => Check::Valid(nodes),
    }
}

/// Checks a value against a schema.
pub fn validate_schema_instance(
    instance: &Json,
    schema: &Json,
    root: &Json,
    tests: &Vec<QuotientTest>,
    left: usize,
    nodes: usize,
    refs: &Vec<String>,
) -> (check: Check)
    ensures
        check == schema_check(instance@, schema@, context_of(root, tests), left as nat, nodes, id_set(refs@)),
    decreases left, 0nat, 0nat,
{
    if left == 0 || nodes >= MAX_SCHEMA_NODES {
        return Check::Invalid;
    }
    let entered: usize = nodes + 1;
    let inner: usize = left - 1;
    match schema {
        Json::Bool(allowed) => {
            return if *allowed {
                Check::Valid(entered)
            } else {
                Check::Invalid
            };
        },
        Json::Object(_) => {},
        _ => {
            return Check::Invalid;
        },
    }
    if !only_supported(schema) {
        return Check::Invalid;
    }
    let n1: usize = match check_ref(instance, schema, root, tests, inner, entered, refs) {
        Check::Valid(n) => n,
        other => {
            return other;
        },
    };
    if !obeys_plain_rules(instance, schema) {
        return Check::Invalid;
    }
    match check_logic(instance, schema, root, tests, inner, n1, refs) {
        Check::Valid(_) => {},
        other => {
            return other;
        },
    }
    let n2: usize = match check_if(instance, schema, root, tests, inner, n1, refs) {
        Check::Valid(n) => n,
        other => {
            return other;
        },
    };
    let n3: usize = match check_object(instance, schema, root, tests, inner, n2, refs) {
        Check::Valid(n) => n,
        other => {
            return other;
        },
    };
    let n4: usize = match check_array(instance, schema, root, tests, inner, n3, refs) {
        Check::Valid(n) => n,
        other => {
            return other;
        },
    };
    check_leaf(instance, schema, n4, tests)
}

/// The check of a tool call's arguments against the tool's input schema.
pub open spec fn arguments_check(arguments: JsonV, schema: JsonV, tests: Seq<QuotientTest>) -> Check {
    schema_check(
        arguments,
        schema,
        SchemaContextV { root: schema, tests },
        (MAX_SCHEMA_DEPTH + 1) as nat,
        0,
        Set::empty(),
    )
}

/// Checks the arguments of a tool call against the tool's input schema.
pub fn tool_arguments_match_schema(arguments: &Json, schema: &Json, tests: &Vec<QuotientTest>) -> (check: Check)
    ensures
        check == arguments_check(arguments@, schema@, tests@),
{
    let refs: Vec<String> = Vec::new();
    assert(id_set(refs@) =~= Set::empty());
    validate_schema_instance(arguments, schema, schema, tests, MAX_SCHEMA_DEPTH + 1, 0, &refs)
}

} // verus!
