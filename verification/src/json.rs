//! JSON values as the gateway handles them.
//!
//! `Json` is an ordinary Rust value; `JsonV` is the mathematical tree it stands for. Objects keep
//! the order in which their entries were written, as the text form does.
pub use crate::json_model::{Json, JsonFloat, JsonNumber, JsonV, NumberV};
use crate::json_fields::{held_fields, written_fields};
use crate::json_model::{
    collected, entries_view, entry_is_smaller, float_bits, float_is_zero, float_place, group_json_views, item_is_smaller, json_eq, json_parse, json_parse_bytes,
    json_pretty, json_text, key_index, key_index_is, list_view, nearest_float, number_eq, readable, rendered, settled, settled_entries, typed_block, value_json,
};
use crate::text::same;
use vstd::prelude::*;

verus! {

broadcast use group_json_views;

/// One level of a `serde_json::Value`.
pub enum ValueParts {
    Null,
    Bool(bool),
    PosInt(u64),
    NegInt(i64),
    Float(u64, serde_json::Value),
    Str(String),
    Array(Vec<serde_json::Value>),
    Object(Vec<(String, serde_json::Value)>),
}

impl View for ValueParts {
    type V = JsonV;

    open spec fn view(&self) -> JsonV {
        match *self {
            ValueParts::Null => JsonV::Null,
            ValueParts::Bool(b) => JsonV::Bool(b),
            ValueParts::PosInt(n) => JsonV::Number(NumberV::PosInt(n)),
            ValueParts::NegInt(n) => JsonV::Number(NumberV::NegInt(n)),
            ValueParts::Float(bits, _) => JsonV::Number(NumberV::Float(bits)),
            ValueParts::Str(s) => JsonV::Str(s@),
            ValueParts::Array(items) => JsonV::Array(items@.map_values(|v: serde_json::Value| value_json(v))),
            ValueParts::Object(entries) => JsonV::Object(
                entries@.map_values(|e: (String, serde_json::Value)| (e.0@, value_json(e.1))),
            ),
        }
    }
}

/// `serde_json::Value` taken apart: the variant and its fields. A number is an unsigned or a
/// negative integer where it is one, and otherwise a float, which is finite; the value itself
/// comes back with a float's bits. An object's entries come in the map's order.
#[verifier::external_body]
fn open_value(value: serde_json::Value) -> (parts: ValueParts)
    ensures
        parts@ == value_json(value),
        parts matches ValueParts::Float(_, raw) ==> raw == value,
{
    match value {
        serde_json::Value::Null => ValueParts::Null,
        serde_json::Value::Bool(b) => ValueParts::Bool(b),
        serde_json::Value::String(s) => ValueParts::Str(s),
        serde_json::Value::Array(items) => ValueParts::Array(items),
        serde_json::Value::Object(entries) => ValueParts::Object(entries.into_iter().collect()),
        serde_json::Value::Number(n) => match (n.as_u64(), n.as_i64()) {
            (Some(u), _) => ValueParts::PosInt(u),
            (None, Some(i)) => ValueParts::NegInt(i),
            (None, None) => ValueParts::Float(n.as_f64().map(|x| x.to_bits()).unwrap_or_default(), serde_json::Value::Number(n)),
        },
    }
}

/// `serde_json::Value` put together from one level of parts. A float is the value it came from.
/// `serde_json::Map` is filled entry by entry: a key that is there already keeps its place and
/// takes the new value.
#[verifier::external_body]
fn close_value(parts: ValueParts) -> (value: serde_json::Value)
    requires
        parts matches ValueParts::NegInt(n) ==> n < 0,
        parts matches ValueParts::Float(bits, raw) ==> value_json(raw) == JsonV::Number(NumberV::Float(bits)),
    ensures
        value_json(value) == (match parts@ {
            JsonV::Object(entries) => JsonV::Object(collected(entries)),
            other => other,
        }),
{
    match parts {
        ValueParts::Null => serde_json::Value::Null,
        ValueParts::Bool(b) => serde_json::Value::Bool(b),
        ValueParts::PosInt(n) => serde_json::Value::from(n),
        ValueParts::NegInt(n) => serde_json::Value::from(n),
        ValueParts::Float(_, raw) => raw,
        ValueParts::Str(s) => serde_json::Value::String(s),
        ValueParts::Array(items) => serde_json::Value::Array(items),
        ValueParts::Object(entries) => serde_json::Value::Object(entries.into_iter().collect()),
    }
}

/// `serde_json::Value::clone` gives a value that holds the same tree.
#[verifier::external_body]
fn copy_value(value: &serde_json::Value) -> (copy: serde_json::Value)
    ensures
        value_json(copy) == value_json(*value),
{
    value.clone()
}

/// `serde_json::to_string` of a value. A tree without floats, nested at most 127 deep, without a
/// key twice in one object, is what `serde_json::from_str` reads back from that text. The text has one
/// colon outside strings for each entry of an object, as deep as that object is.
#[verifier::external_body]
fn value_text(value: &serde_json::Value) -> (text: String)
    ensures
        text@ == json_text(value_json(*value)),
        forall|levels: nat| #[trigger] written_fields(text@, levels) == held_fields(value_json(*value), levels),
        readable(value_json(*value), 127) ==> json_parse(text@) == Some(value_json(*value)),
{
    serde_json::to_string(value).unwrap_or_default()
}

/// `serde_json::to_vec_pretty` of a value.
#[verifier::external_body]
fn value_pretty(value: &serde_json::Value) -> (bytes: Vec<u8>)
    ensures
        bytes@ == json_pretty(value_json(*value)),
{
    serde_json::to_vec_pretty(value).unwrap_or_default()
}

/// `serde_json::from_str` into a `serde_json::Value`; its errors are told apart no further.
#[verifier::external_body]
fn parse_value(text: &str) -> (value: Option<serde_json::Value>)
    ensures
        match value {
            Some(v) => json_parse(text@) == Some(value_json(v)),
            None => json_parse(text@) is None,
        },
{
    serde_json::from_str(text).ok()
}

/// `serde_json::from_slice` into a `serde_json::Value`, or what `serde_json::Error` says.
#[verifier::external_body]
fn parse_slice(bytes: &[u8]) -> (value: Result<serde_json::Value, String>)
    ensures
        match (value, json_parse_bytes(bytes@)) {
            (Ok(v), Ok(meant)) => value_json(v) == meant,
            (Err(e), Err(reason)) => e@ == reason,
            _ => false,
        },
{
    serde_json::from_slice(bytes).map_err(|e| e.to_string())
}

/// `serde_json::Number::as_f64` of an integer: the bits of the nearest binary64 value.
#[verifier::external_body]
fn integer_float(n: i128) -> (bits: u64)
    requires
        i64::MIN <= n <= u64::MAX,
    ensures
        bits == nearest_float(n as int),
{
    serde_json::Number::from_i128(n).and_then(|v| v.as_f64()).map(|x| x.to_bits()).unwrap_or_default()
}

/// Whether the binary64 value of some bits is smaller than another.
pub fn float_less(a: u64, b: u64) -> (less: bool)
    ensures
        less == (float_place(a) < float_place(b)),
{
    let top: u64 = 0x8000_0000_0000_0000;
    if a < top {
        b < top && a < b
    } else if b < top {
        a > top || b > 0
    } else {
        a > b
    }
}

impl JsonNumber {
    /// The binary64 bits of the number.
    pub fn float(&self) -> (bits: u64)
        ensures
            bits == float_bits(self@),
    {
        match self {
            JsonNumber::PosInt(n) => integer_float(*n as i128),
            JsonNumber::NegInt(n) => integer_float(*n as i128),
            JsonNumber::Float(x) => x.bits(),
        }
    }

    /// A copy of the number.
    pub fn copy(&self) -> (n: JsonNumber)
        ensures
            n@ == self@,
    {
        match self {
            JsonNumber::PosInt(n) => JsonNumber::PosInt(*n),
            JsonNumber::NegInt(n) => JsonNumber::NegInt(*n),
            JsonNumber::Float(x) => JsonNumber::Float(JsonFloat::new(x.bits(), copy_value(x.raw()))),
        }
    }

    /// Whether two numbers are the same.
    pub fn equals(&self, other: &JsonNumber) -> (equal: bool)
        ensures
            equal == number_eq(self@, other@),
    {
        match (self, other) {
            (JsonNumber::PosInt(a), JsonNumber::PosInt(b)) => *a == *b,
            (JsonNumber::NegInt(a), JsonNumber::NegInt(b)) => *a == *b,
            (JsonNumber::Float(a), JsonNumber::Float(b)) => a.bits() == b.bits() || (is_zero_bits(a.bits())
                && is_zero_bits(b.bits())),
            _ => false,
        }
    }
}

fn is_zero_bits(bits: u64) -> (yes: bool)
    ensures
        yes == float_is_zero(bits),
{
    bits == 0 || bits == 0x8000_0000_0000_0000
}

impl Json {
    /// A string value.
    pub fn text(s: &str) -> (tree: Json)
        ensures
            tree@ == JsonV::Str(s@),
    {
        Json::Str(s.to_owned())
    }

    /// An unsigned integer.
    pub fn unsigned(n: u64) -> (tree: Json)
        ensures
            tree@ == JsonV::Number(NumberV::PosInt(n)),
    {
        Json::Number(JsonNumber::PosInt(n))
    }

    /// An array of the given items.
    pub fn array(items: Vec<Json>) -> (tree: Json)
        ensures
            tree@ == JsonV::Array(list_view(items@)),
    {
        Json::Array(items)
    }

    /// An object without entries.
    pub fn object() -> (tree: Json)
        ensures
            tree@ == JsonV::object(),
    {
        let entries: Vec<(String, Json)> = Vec::new();
        assert(entries_view(entries@) =~= Seq::empty());
        Json::Object(entries)
    }

    /// The object with one more entry at its end.
    pub fn and(self, key: &str, value: Json) -> (tree: Json)
        requires
            self@ is Object,
        ensures
            tree@ == self@.and(key@, value@),
    {
        match self {
            Json::Object(entries) => {
                let mut entries = entries;
                entries.push((key.to_owned(), value));
                assert(entries_view(entries@) =~= self@->Object_0.push((key@, value@)));
                Json::Object(entries)
            },
            other => other,
        }
    }

    /// The place of the first entry with a key, or the number of entries.
    fn find(entries: &Vec<(String, Json)>, key: &str) -> (at: usize)
        ensures
            at == key_index(entries_view(entries@), key@),
            at <= entries@.len(),
    {
        let ghost es = entries_view(entries@);
        let mut i: usize = 0;
        while i < entries.len()
            invariant
                i <= entries@.len(),
                es == entries_view(entries@),
                forall|k: int| 0 <= k < i ==> (#[trigger] es[k]).0 != key@,
            decreases entries@.len() - i,
        {
            if same(entries[i].0.as_str(), key) {
                proof {
                    key_index_is(es, key@, i as int);
                }
                return i;
            }
            assert(es[i as int].0 != key@);
            i = i + 1;
        }
        proof {
            key_index_is(es, key@, i as int);
        }
        i
    }

    /// The value of a key, `None` for a missing key and for anything but an object.
    pub fn get(&self, key: &str) -> (value: Option<&Json>)
        ensures
            match value {
                Some(v) => self@.get(key@) == Some(v@),
                None => self@.get(key@) is None,
            },
    {
        match self {
            Json::Object(entries) => {
                let at = Json::find(entries, key);
                if at < entries.len() {
                    Some(&entries[at].1)
                } else {
                    None
                }
            },
            _ => None,
        }
    }

    /// The value of a key for changing it in place.
    pub fn get_mut(&mut self, key: &str) -> (value: Option<&mut Json>)
        ensures
            match value {
                Some(v) => old(self)@.get(key@) == Some(v@) && final(self)@ == old(self)@.with(key@, final(v)@),
                None => old(self)@.get(key@) is None && final(self)@ == old(self)@,
            },
    {
        match self {
            Json::Object(entries) => {
                let at = Json::find(entries, key);
                if at < entries.len() {
                    Some(&mut entries[at].1)
                } else {
                    None
                }
            },
            _ => None,
        }
    }

    /// Gives a key of an object a value. Anything but an object stays as it is.
    pub fn set(&mut self, key: &str, value: Json)
        ensures
            final(self)@ == old(self)@.with(key@, value@),
    {
        match self {
            Json::Object(entries) => {
                let at = Json::find(entries, key);
                if at < entries.len() {
                    entries[at].1 = value;
                } else {
                    entries.push((key.to_owned(), value));
                }
            },
            _ => {},
        }
    }

    /// Takes a key out of an object; the last entry moves to its place.
    pub fn unset(&mut self, key: &str) -> (value: Option<Json>)
        ensures
            final(self)@ == old(self)@.without(key@),
            match value {
                Some(v) => old(self)@.get(key@) == Some(v@),
                None => old(self)@.get(key@) is None,
            },
    {
        match self {
            Json::Object(entries) => {
                let ghost es = entries_view(entries@);
                let at = Json::find(entries, key);
                if at < entries.len() {
                    let (_, value) = entries.swap_remove(at);
                    assert(entries_view(entries@) =~= es.update(at as int, es.last()).drop_last());
                    Some(value)
                } else {
                    None
                }
            },
            _ => None,
        }
    }

    /// The text of a string.
    pub fn as_str(&self) -> (s: Option<&str>)
        ensures
            match s {
                Some(t) => self@.text() == Some(t@),
                None => self@.text() is None,
            },
    {
        match self {
            Json::Str(s) => Some(s.as_str()),
            _ => None,
        }
    }

    /// The items of an array.
    pub fn as_array(&self) -> (items: Option<&Vec<Json>>)
        ensures
            match items {
                Some(v) => self@ == JsonV::Array(list_view(v@)),
                None => self@.items() is None,
            },
    {
        match self {
            Json::Array(items) => Some(items),
            _ => None,
        }
    }

    /// The entries of an object.
    pub fn as_object(&self) -> (entries: Option<&Vec<(String, Json)>>)
        ensures
            match entries {
                Some(v) => self@ == JsonV::Object(entries_view(v@)),
                None => !(self@ is Object),
            },
    {
        match self {
            Json::Object(entries) => Some(entries),
            _ => None,
        }
    }

    /// The items of an array for changing them in place.
    pub fn as_array_mut(&mut self) -> (items: Option<&mut Vec<Json>>)
        ensures
            match items {
                Some(v) => old(self)@ == JsonV::Array(list_view(v@)) && final(self)@ == JsonV::Array(list_view(final(v)@)),
                None => old(self)@.items() is None && final(self)@ == old(self)@,
            },
    {
        match self {
            Json::Array(items) => Some(items),
            _ => None,
        }
    }

    /// An unsigned integer.
    pub fn as_u64(&self) -> (n: Option<u64>)
        ensures
            n == self@.unsigned(),
    {
        match self {
            Json::Number(JsonNumber::PosInt(n)) => Some(*n),
            _ => None,
        }
    }

    pub fn is_object(&self) -> (yes: bool)
        ensures
            yes == (self@ is Object),
    {
        match self {
            Json::Object(_) => true,
            _ => false,
        }
    }

    /// Whether this is an object without entries.
    pub fn is_empty_object(&self) -> (yes: bool)
        ensures
            yes == (self@ == JsonV::object()),
    {
        match self {
            Json::Object(entries) => {
                assert(entries_view(entries@).len() == entries@.len());
                assert(entries@.len() == 0 ==> entries_view(entries@) =~= Seq::<(Seq<char>, JsonV)>::empty());
                assert(self@->Object_0 == entries_view(entries@));
                entries.len() == 0
            },
            _ => false,
        }
    }

    pub fn is_null(&self) -> (yes: bool)
        ensures
            yes == (self@ is Null),
    {
        match self {
            Json::Null => true,
            _ => false,
        }
    }

    /// The text under a key.
    pub fn str_at(&self, key: &str) -> (s: Option<&str>)
        ensures
            match s {
                Some(t) => self@.text_at(key@) == Some(t@),
                None => self@.text_at(key@) is None,
            },
    {
        match self.get(key) {
            Some(v) => v.as_str(),
            None => None,
        }
    }

    /// Whether a key holds a string with the given text.
    pub fn has_text(&self, key: &str, s: &str) -> (yes: bool)
        ensures
            yes == (self@.text_at(key@) == Some(s@)),
    {
        match self.str_at(key) {
            Some(t) => same(t, s),
            None => false,
        }
    }

    /// The items of the array under a key.
    pub fn array_at(&self, key: &str) -> (items: Option<&Vec<Json>>)
        ensures
            match items {
                Some(v) => self@.get(key@) == Some(JsonV::Array(list_view(v@))),
                None => self@.items_at(key@) is None,
            },
    {
        match self.get(key) {
            Some(v) => v.as_array(),
            None => None,
        }
    }

    /// The unsigned integer under a key.
    pub fn u64_at(&self, key: &str) -> (n: Option<u64>)
        ensures
            n == self@.unsigned_at(key@),
    {
        match self.get(key) {
            Some(v) => v.as_u64(),
            None => None,
        }
    }

    /// An object with one text, `{key: s}` after `{"type": kind}`.
    pub fn typed(kind: &str, key: &str, s: &str) -> (tree: Json)
        ensures
            tree@ == typed_block(kind@, key@, s@),
    {
        Json::object().and("type", Json::text(kind)).and(key, Json::text(s))
    }

    /// A copy of the value.
    pub fn copy(&self) -> (tree: Json)
        ensures
            tree@ == self@,
        decreases self,
    {
        match self {
            Json::Null => Json::Null,
            Json::Bool(b) => Json::Bool(*b),
            Json::Number(n) => Json::Number(n.copy()),
            Json::Str(s) => Json::Str(s.clone()),
            Json::Array(items) => {
                let mut out: Vec<Json> = Vec::new();
                let mut i: usize = 0;
                while i < items.len()
                    invariant
                        i <= items@.len(),
                        self == Json::Array(*items),
                        list_view(out@) =~= list_view(items@).take(i as int),
                    decreases items@.len() - i,
                {
                    proof {
                        item_is_smaller(*items, i as int);
                    }
                    out.push(items[i].copy());
                    i = i + 1;
                }
                assert(list_view(items@).take(i as int) =~= list_view(items@));
                Json::Array(out)
            },
            Json::Object(entries) => {
                let mut out: Vec<(String, Json)> = Vec::new();
                let mut i: usize = 0;
                while i < entries.len()
                    invariant
                        i <= entries@.len(),
                        self == Json::Object(*entries),
                        entries_view(out@) =~= entries_view(entries@).take(i as int),
                    decreases entries@.len() - i,
                {
                    proof {
                        entry_is_smaller(*entries, i as int);
                    }
                    out.push((entries[i].0.clone(), entries[i].1.copy()));
                    i = i + 1;
                }
                assert(entries_view(entries@).take(i as int) =~= entries_view(entries@));
                Json::Object(out)
            },
        }
    }

    /// Whether two values are equal: arrays item by item, objects by key without regard to order.
    pub fn equals(&self, other: &Json) -> (equal: bool)
        ensures
            equal == json_eq(self@, other@),
        decreases self,
    {
        match (self, other) {
            (Json::Null, Json::Null) => true,
            (Json::Bool(a), Json::Bool(b)) => *a == *b,
            (Json::Str(a), Json::Str(b)) => same(a.as_str(), b.as_str()),
            (Json::Number(a), Json::Number(b)) => a.equals(b),
            (Json::Array(a), Json::Array(b)) => {
                if a.len() != b.len() {
                    return false;
                }
                let mut i: usize = 0;
                while i < a.len()
                    invariant
                        i <= a@.len(),
                        a@.len() == b@.len(),
                        self == Json::Array(*a),
                        other == Json::Array(*b),
                        forall|k: int| 0 <= k < i ==> json_eq(#[trigger] list_view(a@)[k], list_view(b@)[k]),
                    decreases a@.len() - i,
                {
                    proof {
                        item_is_smaller(*a, i as int);
                    }
                    if !a[i].equals(&b[i]) {
                        assert(!json_eq(list_view(a@)[i as int], list_view(b@)[i as int]));
                        return false;
                    }
                    i = i + 1;
                }
                true
            },
            (Json::Object(a), Json::Object(b)) => {
                if a.len() != b.len() {
                    return false;
                }
                let mut i: usize = 0;
                while i < a.len()
                    invariant
                        i <= a@.len(),
                        a@.len() == b@.len(),
                        self == Json::Object(*a),
                        other == Json::Object(*b),
                        forall|k: int|
                            0 <= k < i ==> (match other@.get((#[trigger] entries_view(a@)[k]).0) {
                                Some(v) => json_eq(entries_view(a@)[k].1, v),
                                None => false,
                            }),
                    decreases a@.len() - i,
                {
                    proof {
                        entry_is_smaller(*a, i as int);
                    }
                    let ghost entry = entries_view(a@)[i as int];
                    match other.get(a[i].0.as_str()) {
                        Some(v) => {
                            if !a[i].1.equals(v) {
                                assert(!json_eq(self@, other@));
                                return false;
                            }
                        },
                        None => {
                            assert(!json_eq(self@, other@));
                            return false;
                        },
                    }
                    i = i + 1;
                }
                true
            },
            _ => false,
        }
    }

    /// Reads a text, `None` where it is not JSON.
    pub fn parse(text: &str) -> (tree: Option<Json>)
        ensures
            match tree {
                Some(t) => json_parse(text@) == Some(t@),
                None => json_parse(text@) is None,
            },
    {
        match parse_value(text) {
            Some(value) => Some(from_value(value)),
            None => None,
        }
    }

    /// Reads bytes, or tells why they are not JSON.
    pub fn parse_bytes(bytes: &[u8]) -> (out: Result<Json, String>)
        ensures
            match (out, json_parse_bytes(bytes@)) {
                (Ok(tree), Ok(meant)) => tree@ == meant,
                (Err(e), Err(reason)) => e@ == reason,
                _ => false,
            },
    {
        match parse_slice(bytes) {
            Ok(value) => Ok(from_value(value)),
            Err(e) => Err(e),
        }
    }

    /// The compact text. A tree without floats, nested at most 127 deep, reads back as itself.
    pub fn render(&self) -> (text: String)
        ensures
            text@ == rendered(self@),
            forall|levels: nat| #[trigger] written_fields(text@, levels) == held_fields(settled(self@), levels),
            readable(settled(self@), 127) ==> json_parse(text@) == Some(settled(self@)),
    {
        let value = to_value(self);
        value_text(&value)
    }

    /// The text over several lines, as bytes.
    pub fn render_pretty(&self) -> (bytes: Vec<u8>)
        ensures
            bytes@ == json_pretty(settled(self@)),
    {
        let value = to_value(self);
        value_pretty(&value)
    }
}

impl Clone for Json {
    fn clone(&self) -> (tree: Json)
        ensures
            tree@ == self@,
    {
        self.copy()
    }
}

impl PartialEq for Json {
    fn eq(&self, other: &Json) -> (equal: bool) {
        self.equals(other)
    }
}

impl vstd::std_specs::cmp::PartialEqSpecImpl for Json {
    open spec fn obeys_eq_spec() -> bool {
        true
    }

    open spec fn eq_spec(&self, other: &Json) -> bool {
        json_eq(self@, other@)
    }
}

fn from_value(value: serde_json::Value) -> (tree: Json)
    ensures
        tree@ == value_json(value),
    decreases value_json(value),
{
    match open_value(value) {
        ValueParts::Null => Json::Null,
        ValueParts::Bool(b) => Json::Bool(b),
        ValueParts::PosInt(n) => Json::Number(JsonNumber::PosInt(n)),
        ValueParts::NegInt(n) => Json::Number(JsonNumber::NegInt(n)),
        ValueParts::Float(bits, raw) => Json::Number(JsonNumber::Float(JsonFloat::new(bits, raw))),
        ValueParts::Str(s) => Json::Str(s),
        ValueParts::Array(values) => {
            let ghost all = values@;
            let mut items: Vec<Json> = Vec::new();
            for next in it: values
                invariant
                    it.seq() == all,
                    items@.len() == it.index(),
                    forall|i: int| 0 <= i < items@.len() ==> (#[trigger] items@[i])@ == value_json(all[i]),
                    value_json(value) == JsonV::Array(all.map_values(|v: serde_json::Value| value_json(v))),
            {
                assert(next == all[items@.len() as int]);
                assert(value_json(value)->Array_0[items@.len() as int] == value_json(next));
                assert(decreases_to!(value_json(value) => value_json(value)->Array_0[items@.len() as int]));
                
                items.push(from_value(next));
            }
            assert(list_view(items@) =~= all.map_values(|v: serde_json::Value| value_json(v)));
            Json::Array(items)
        },
        ValueParts::Object(values) => {
            let ghost all = values@;
            let mut entries: Vec<(String, Json)> = Vec::new();
            for next in it: values
                invariant
                    it.seq() == all,
                    entries@.len() == it.index(),
                    forall|i: int| 0 <= i < entries@.len() ==> (#[trigger] entries@[i]).0@ == all[i].0@ && entries@[i].1@ == value_json(all[i].1),
                    value_json(value) == JsonV::Object(all.map_values(|e: (String, serde_json::Value)| (e.0@, value_json(e.1)))),
            {
                assert(next == all[entries@.len() as int]);
                assert(value_json(value)->Object_0[entries@.len() as int] == (next.0@, value_json(next.1)));
                assert(decreases_to!(value_json(value) => value_json(value)->Object_0[entries@.len() as int].1));
                entries.push((next.0, from_value(next.1)));
            }
            assert(entries_view(entries@) =~= all.map_values(|e: (String, serde_json::Value)| (e.0@, value_json(e.1))));
            Json::Object(entries)
        },
    }
}

fn to_value(tree: &Json) -> (value: serde_json::Value)
    ensures
        value_json(value) == settled(tree@),
    decreases tree,
{
    match tree {
        Json::Null => close_value(ValueParts::Null),
        Json::Bool(b) => close_value(ValueParts::Bool(*b)),
        Json::Number(JsonNumber::PosInt(n)) => close_value(ValueParts::PosInt(*n)),
        Json::Number(JsonNumber::NegInt(n)) => if *n < 0 {
            close_value(ValueParts::NegInt(*n))
        } else {
            close_value(ValueParts::PosInt(*n as u64))
        },
        Json::Number(JsonNumber::Float(x)) => copy_value(x.raw()),
        Json::Str(s) => close_value(ValueParts::Str(s.clone())),
        Json::Array(items) => {
            let mut values: Vec<serde_json::Value> = Vec::new();
            let mut i: usize = 0;
            while i < items.len()
                invariant
                    i <= items@.len(),
                    values@.len() == i,
                    tree == Json::Array(*items),
                    forall|k: int| 0 <= k < i ==> value_json(#[trigger] values@[k]) == settled(items@[k]@),
                decreases items@.len() - i,
            {
                proof {
                    item_is_smaller(*items, i as int);
                }
                values.push(to_value(&items[i]));
                i = i + 1;
            }
            let parts = ValueParts::Array(values);
            assert(parts@->Array_0 =~= settled(tree@)->Array_0);
            close_value(parts)
        },
        Json::Object(entries) => {
            let ghost es = tree@->Object_0;
            let mut values: Vec<(String, serde_json::Value)> = Vec::new();
            let mut i: usize = 0;
            while i < entries.len()
                invariant
                    i <= entries@.len(),
                    values@.len() == i,
                    tree == Json::Object(*entries),
                    es == tree@->Object_0,
                    settled_entries(es.take(i as int)).len() == i,
                    forall|k: int|
                        0 <= k < i ==> settled_entries(es.take(i as int))[k] == ((#[trigger] values@[k]).0@, value_json(values@[k].1)),
                decreases entries@.len() - i,
            {
                proof {
                    entry_is_smaller(*entries, i as int);
                }
                values.push((entries[i].0.clone(), to_value(&entries[i].1)));
                assert(es.take(i + 1).drop_last() =~= es.take(i as int));
                i = i + 1;
            }
            let parts = ValueParts::Object(values);
            assert(es.take(es.len() as int) =~= es);
            assert(parts@->Object_0 =~= settled_entries(es));
            close_value(parts)
        },
    }
}

} // verus!
