//! The mathematical model of JSON values: trees, their equality, and what their objects hold.
use vstd::prelude::*;

verus! {

/// A JSON number: an integer that fits in 64 bits, or a finite binary64 value given by its bits.
#[verifier::ext_equal]
pub enum NumberV {
    PosInt(u64),
    NegInt(i64),
    Float(u64),
}

/// A JSON tree.
#[verifier::ext_equal]
pub enum JsonV {
    Null,
    Bool(bool),
    Number(NumberV),
    Str(Seq<char>),
    Array(Seq<JsonV>),
    Object(Seq<(Seq<char>, JsonV)>),
}

/// `serde_json::Value`: what it holds is told by `value_json` alone.
#[verifier::external_type_specification]
#[verifier::external_body]
pub struct ExValue(serde_json::Value);

/// The bits of the binary64 value nearest to an integer, as `serde_json::Number::as_f64` gives it.
pub uninterp spec fn nearest_float(n: int) -> u64;

/// The tree that a `serde_json::Value` holds.
pub uninterp spec fn value_json(value: serde_json::Value) -> JsonV;

/// The text of a tree as `serde_json::to_string` writes it.
pub uninterp spec fn json_text(tree: JsonV) -> Seq<char>;

/// The bytes of a tree as `serde_json::to_vec_pretty` writes them.
pub uninterp spec fn json_pretty(tree: JsonV) -> Seq<u8>;

/// What `serde_json::from_slice` reads from bytes, or the error that it reports.
pub uninterp spec fn json_parse_bytes(bytes: Seq<u8>) -> Result<JsonV, Seq<char>>;

/// What `serde_json::from_str` reads from a text, `None` where it reports an error.
pub uninterp spec fn json_parse(text: Seq<char>) -> Option<JsonV>;

/// The place of the first entry with a key, or the number of entries.
pub open spec fn key_index(entries: Seq<(Seq<char>, JsonV)>, key: Seq<char>) -> int
    decreases entries.len(),
{
    if entries.len() == 0 || entries[0].0 == key {
        0
    } else {
        1 + key_index(entries.drop_first(), key)
    }
}

/// Entries after a key was given a value: the entry keeps its place, a new one goes last.
pub open spec fn with_entry(entries: Seq<(Seq<char>, JsonV)>, key: Seq<char>, value: JsonV) -> Seq<(Seq<char>, JsonV)> {
    let at = key_index(entries, key);
    if at < entries.len() {
        entries.update(at, (entries[at].0, value))
    } else {
        entries.push((key, value))
    }
}

/// Entries as a map holds them when they are put in one by one.
pub open spec fn collected(entries: Seq<(Seq<char>, JsonV)>) -> Seq<(Seq<char>, JsonV)>
    decreases entries.len(),
{
    if entries.len() == 0 {
        entries
    } else {
        with_entry(collected(entries.drop_last()), entries.last().0, entries.last().1)
    }
}

/// Whether a text of this tree can be read back: no floats, no key twice in one object, integers
/// in their one form, and arrays and objects nested no deeper than `depth`.
pub open spec fn readable(tree: JsonV, depth: nat) -> bool
    decreases tree,
{
    match tree {
        JsonV::Null => true,
        JsonV::Bool(_) => true,
        JsonV::Str(_) => true,
        JsonV::Number(NumberV::PosInt(_)) => true,
        JsonV::Number(NumberV::NegInt(n)) => n < 0,
        JsonV::Number(NumberV::Float(_)) => false,
        JsonV::Array(items) => depth > 0 && forall|i: int|
            0 <= i < items.len() ==> readable(#[trigger] items[i], (depth - 1) as nat),
        JsonV::Object(entries) => {
            &&& depth > 0
            &&& forall|i: int| 0 <= i < entries.len() ==> readable((#[trigger] entries[i]).1, (depth - 1) as nat)
            &&& forall|i: int, j: int| 0 <= i < j < entries.len() ==> (#[trigger] entries[i]).0 != (#[trigger] entries[j]).0
        },
    }
}

/// A non-integer number, kept together with the value it was read from.
#[derive(Debug)]
pub struct JsonFloat {
    bits: u64,
    raw: serde_json::Value,
}

impl JsonFloat {
    #[verifier::type_invariant]
    spec fn holds(self) -> bool {
        value_json(self.raw) == JsonV::Number(NumberV::Float(self.bits))
    }

    /// The number's binary64 bits.
    pub closed spec fn bits_spec(self) -> u64 {
        self.bits
    }

    /// A number with the value that holds it.
    pub fn new(bits: u64, raw: serde_json::Value) -> (x: JsonFloat)
        requires
            value_json(raw) == JsonV::Number(NumberV::Float(bits)),
        ensures
            x.bits_spec() == bits,
    {
        JsonFloat { bits, raw }
    }

    /// The number's binary64 bits.
    pub fn bits(&self) -> (bits: u64)
        ensures
            bits == self.bits_spec(),
    {
        self.bits
    }

    /// The value that holds the number.
    pub fn raw(&self) -> (raw: &serde_json::Value)
        ensures
            value_json(*raw) == JsonV::Number(NumberV::Float(self.bits_spec())),
    {
        proof {
            use_type_invariant(self);
        }
        &self.raw
    }
}

#[derive(Debug)]
pub enum JsonNumber {
    PosInt(u64),
    NegInt(i64),
    Float(JsonFloat),
}

impl View for JsonNumber {
    type V = NumberV;

    open spec fn view(&self) -> NumberV {
        match *self {
            JsonNumber::PosInt(n) => NumberV::PosInt(n),
            JsonNumber::NegInt(n) => NumberV::NegInt(n),
            JsonNumber::Float(x) => NumberV::Float(x.bits_spec()),
        }
    }
}

#[derive(Debug)]
pub enum Json {
    Null,
    Bool(bool),
    Number(JsonNumber),
    Str(String),
    Array(Vec<Json>),
    Object(Vec<(String, Json)>),
}

/// The tree that a value stands for.
pub open spec fn tree_of(value: Json) -> JsonV
    decreases value,
{
    match value {
        Json::Null => JsonV::Null,
        Json::Bool(b) => JsonV::Bool(b),
        Json::Number(n) => JsonV::Number(n@),
        Json::Str(s) => JsonV::Str(s@),
        Json::Array(items) => JsonV::Array(
            Seq::new(items@.len(), |i: int| if 0 <= i < items@.len() { tree_of(items@[i]) } else { arbitrary() }),
        ),
        Json::Object(entries) => JsonV::Object(
            Seq::new(
                entries@.len(),
                |i: int|
                    if 0 <= i < entries@.len() {
                        (entries@[i].0@, tree_of(entries@[i].1))
                    } else {
                        arbitrary()
                    },
            ),
        ),
    }
}

impl View for Json {
    type V = JsonV;

    open spec fn view(&self) -> JsonV {
        tree_of(*self)
    }
}

/// The trees of a list of values.
pub open spec fn list_view(items: Seq<Json>) -> Seq<JsonV> {
    items.map_values(|item: Json| item@)
}

/// The entries of an object as keys and trees.
pub open spec fn entries_view(entries: Seq<(String, Json)>) -> Seq<(Seq<char>, JsonV)> {
    entries.map_values(|entry: (String, Json)| (entry.0@, entry.1@))
}

pub broadcast proof fn view_of_array(items: Vec<Json>)
    ensures
        (#[trigger] Json::Array(items)@) == JsonV::Array(list_view(items@)),
{
    assert(Json::Array(items)@->Array_0 =~= list_view(items@));
}

pub broadcast proof fn view_of_object(entries: Vec<(String, Json)>)
    ensures
        (#[trigger] Json::Object(entries)@) == JsonV::Object(entries_view(entries@)),
{
    assert(Json::Object(entries)@->Object_0 =~= entries_view(entries@));
}

pub broadcast proof fn entries_view_update(entries: Seq<(String, Json)>, i: int, entry: (String, Json))
    requires
        0 <= i < entries.len(),
    ensures
        (#[trigger] entries_view(entries.update(i, entry))) == entries_view(entries).update(i, (entry.0@, entry.1@)),
{
    assert(entries_view(entries.update(i, entry)) =~= entries_view(entries).update(i, (entry.0@, entry.1@)));
}

pub broadcast proof fn entries_view_push(entries: Seq<(String, Json)>, entry: (String, Json))
    ensures
        (#[trigger] entries_view(entries.push(entry))) == entries_view(entries).push((entry.0@, entry.1@)),
{
    assert(entries_view(entries.push(entry)) =~= entries_view(entries).push((entry.0@, entry.1@)));
}

pub broadcast proof fn list_view_update(items: Seq<Json>, i: int, item: Json)
    requires
        0 <= i < items.len(),
    ensures
        (#[trigger] list_view(items.update(i, item))) == list_view(items).update(i, item@),
{
    assert(list_view(items.update(i, item)) =~= list_view(items).update(i, item@));
}

pub broadcast proof fn list_view_push(items: Seq<Json>, item: Json)
    ensures
        (#[trigger] list_view(items.push(item))) == list_view(items).push(item@),
{
    assert(list_view(items.push(item)) =~= list_view(items).push(item@));
}

pub broadcast proof fn list_view_index(items: Seq<Json>, i: int)
    requires
        0 <= i < items.len(),
    ensures
        (#[trigger] list_view(items)[i]) == items[i]@,
{
}

pub broadcast proof fn list_view_len(items: Seq<Json>)
    ensures
        (#[trigger] list_view(items)).len() == items.len(),
{
}

pub broadcast proof fn entries_view_len(entries: Seq<(String, Json)>)
    ensures
        (#[trigger] entries_view(entries)).len() == entries.len(),
{
}

pub broadcast proof fn list_view_empty()
    ensures
        #[trigger] list_view(Seq::<Json>::empty()) == Seq::<JsonV>::empty(),
{
    assert(list_view(Seq::<Json>::empty()) =~= Seq::<JsonV>::empty());
}

pub broadcast group group_json_views {
    entries_view_update,
    entries_view_push,
    list_view_update,
    list_view_push,
    list_view_index,
    list_view_len,
    entries_view_len,
    list_view_empty,
    view_of_array,
    view_of_object,
}

/// What the key index finds: the first entry with the key, or that there is none.
pub proof fn key_index_finds(entries: Seq<(Seq<char>, JsonV)>, key: Seq<char>)
    ensures
        0 <= key_index(entries, key) <= entries.len(),
        key_index(entries, key) < entries.len() ==> entries[key_index(entries, key)].0 == key,
        forall|i: int| 0 <= i < key_index(entries, key) ==> (#[trigger] entries[i]).0 != key,
    decreases entries.len(),
{
    if entries.len() > 0 && entries[0].0 != key {
        key_index_finds(entries.drop_first(), key);
        assert forall|i: int| 0 <= i < key_index(entries, key) implies (#[trigger] entries[i]).0 != key by {
            if i > 0 {
                assert(entries[i] == entries.drop_first()[i - 1]);
            }
        }
    }
}

/// The first place with a key is the key index.
pub proof fn key_index_is(entries: Seq<(Seq<char>, JsonV)>, key: Seq<char>, at: int)
    requires
        0 <= at <= entries.len(),
        at < entries.len() ==> entries[at].0 == key,
        forall|i: int| 0 <= i < at ==> (#[trigger] entries[i]).0 != key,
    ensures
        key_index(entries, key) == at,
{
    key_index_finds(entries, key);
}

/// Giving a key the value it has changes nothing.
pub proof fn with_same_value(tree: JsonV, key: Seq<char>)
    ensures
        match tree.get(key) {
            Some(value) => tree.with(key, value) == tree,
            None => true,
        },
{
    if let JsonV::Object(entries) = tree {
        key_index_finds(entries, key);
        let at = key_index(entries, key);
        if at < entries.len() {
            assert(entries.update(at, (entries[at].0, entries[at].1)) =~= entries);
        }
    }
}

/// A key that was given a value has it, and every other key keeps its own.
pub proof fn with_gives(tree: JsonV, key: Seq<char>, value: JsonV)
    requires
        tree is Object,
    ensures
        tree.with(key, value) is Object,
        tree.with(key, value).get(key) == Some(value),
        forall|other: Seq<char>| other != key ==> #[trigger] tree.with(key, value).get(other) == tree.get(other),
{
    let entries = tree->Object_0;
    let after = with_entry(entries, key, value);
    key_index_finds(entries, key);
    let at = key_index(entries, key);
    key_index_is(after, key, at);
    assert forall|other: Seq<char>| other != key implies #[trigger] tree.with(key, value).get(other) == tree.get(other) by {
        key_index_finds(entries, other);
        let k = key_index(entries, other);
        if k < entries.len() {
            assert forall|i: int| 0 <= i < k implies (#[trigger] after[i]).0 != other by {
                assert(entries[i].0 != other);
            }
            key_index_is(after, other, k);
        } else {
            assert forall|i: int| 0 <= i < after.len() implies (#[trigger] after[i]).0 != other by {
                if i < entries.len() {
                    assert(entries[i].0 != other);
                }
            }
            key_index_is(after, other, after.len() as int);
        }
    }
}

/// The value of a key in an object of one more entry.
pub proof fn and_gives(tree: JsonV, key: Seq<char>, value: JsonV, wanted: Seq<char>)
    requires
        tree is Object,
    ensures
        tree.and(key, value) is Object,
        tree.and(key, value).get(wanted) == (match tree.get(wanted) {
            Some(v) => Some(v),
            None => if key == wanted {
                Some(value)
            } else {
                None
            },
        }),
{
    let entries = tree->Object_0;
    let after = entries.push((key, value));
    key_index_finds(entries, wanted);
    let k = key_index(entries, wanted);
    assert forall|i: int| 0 <= i < k implies (#[trigger] after[i]).0 != wanted by {
        assert(entries[i].0 != wanted);
    }
    if k < entries.len() {
        assert(after[k] == entries[k]);
        key_index_is(after, wanted, k);
    } else if key == wanted {
        key_index_is(after, wanted, k);
    } else {
        key_index_is(after, wanted, after.len() as int);
    }
}

/// An item of an array is smaller than the array.
pub proof fn item_is_smaller(items: Vec<Json>, i: int)
    requires
        0 <= i < items@.len(),
    ensures
        decreases_to!(Json::Array(items) => items@[i]),
{
    let tree = Json::Array(items);
    assert(decreases_to!(tree => tree->Array_0));
    assert(decreases_to!(items => items@));
    assert(decreases_to!(items@ => items@[i]));
}

/// An entry's value is smaller than the object.
pub proof fn entry_is_smaller(entries: Vec<(String, Json)>, i: int)
    requires
        0 <= i < entries@.len(),
    ensures
        decreases_to!(Json::Object(entries) => entries@[i].1),
{
    let tree = Json::Object(entries);
    assert(decreases_to!(tree => tree->Object_0));
    assert(decreases_to!(entries => entries@));
    assert(decreases_to!(entries@ => entries@[i]));
    assert(decreases_to!(entries@[i] => entries@[i].1));
}

impl JsonV {
    /// The value of a key, `None` for a missing key and for anything but an object.
    pub open spec fn get(self, key: Seq<char>) -> Option<JsonV> {
        match self {
            JsonV::Object(entries) => {
                let at = key_index(entries, key);
                if at < entries.len() {
                    Some(entries[at].1)
                } else {
                    None
                }
            },
            _ => None,
        }
    }

    /// The text of a string.
    pub open spec fn text(self) -> Option<Seq<char>> {
        match self {
            JsonV::Str(s) => Some(s),
            _ => None,
        }
    }

    /// The items of an array.
    pub open spec fn items(self) -> Option<Seq<JsonV>> {
        match self {
            JsonV::Array(items) => Some(items),
            _ => None,
        }
    }

    /// An unsigned integer.
    pub open spec fn unsigned(self) -> Option<u64> {
        match self {
            JsonV::Number(NumberV::PosInt(n)) => Some(n),
            _ => None,
        }
    }

    /// The text under a key.
    pub open spec fn text_at(self, key: Seq<char>) -> Option<Seq<char>> {
        match self.get(key) {
            Some(v) => v.text(),
            None => None,
        }
    }

    /// The items of the array under a key.
    pub open spec fn items_at(self, key: Seq<char>) -> Option<Seq<JsonV>> {
        match self.get(key) {
            Some(v) => v.items(),
            None => None,
        }
    }

    /// The unsigned integer under a key.
    pub open spec fn unsigned_at(self, key: Seq<char>) -> Option<u64> {
        match self.get(key) {
            Some(v) => v.unsigned(),
            None => None,
        }
    }

    /// The value after a key of an object was given a value; anything else is unchanged.
    pub open spec fn with(self, key: Seq<char>, value: JsonV) -> JsonV {
        match self {
            JsonV::Object(entries) => JsonV::Object(with_entry(entries, key, value)),
            _ => self,
        }
    }

    /// The object without entries.
    pub open spec fn object() -> JsonV {
        JsonV::Object(Seq::empty())
    }

    /// The object with one more entry at its end.
    pub open spec fn and(self, key: Seq<char>, value: JsonV) -> JsonV {
        match self {
            JsonV::Object(entries) => JsonV::Object(entries.push((key, value))),
            _ => self,
        }
    }

    /// The value after a key was taken out of an object: the last entry moves to its place.
    pub open spec fn without(self, key: Seq<char>) -> JsonV {
        match self {
            JsonV::Object(entries) => {
                let at = key_index(entries, key);
                if at < entries.len() {
                    JsonV::Object(entries.update(at, entries.last()).drop_last())
                } else {
                    self
                }
            },
            _ => self,
        }
    }
}

/// Whether two numbers are the same: integers by value, floats by value (the two zeros are equal).
pub open spec fn number_eq(a: NumberV, b: NumberV) -> bool {
    match (a, b) {
        (NumberV::Float(x), NumberV::Float(y)) => x == y || (float_is_zero(x) && float_is_zero(y)),
        _ => a == b,
    }
}

/// Whether binary64 bits are those of one of the two zeros.
pub open spec fn float_is_zero(bits: u64) -> bool {
    bits == 0 || bits == 0x8000_0000_0000_0000
}

/// The binary64 bits of a number.
pub open spec fn float_bits(n: NumberV) -> u64 {
    match n {
        NumberV::PosInt(v) => nearest_float(v as int),
        NumberV::NegInt(v) => nearest_float(v as int),
        NumberV::Float(bits) => bits,
    }
}

/// A place on the number line for the bits of a finite binary64 value: smaller values have smaller
/// places, and the two zeros share theirs.
pub open spec fn float_place(bits: u64) -> int {
    if bits < 0x8000_0000_0000_0000 {
        bits as int
    } else {
        0x8000_0000_0000_0000 - bits
    }
}

/// Equality of trees: arrays item by item, objects by key without regard to order.
pub open spec fn json_eq(a: JsonV, b: JsonV) -> bool
    decreases a,
{
    match (a, b) {
        (JsonV::Number(x), JsonV::Number(y)) => number_eq(x, y),
        (JsonV::Array(x), JsonV::Array(y)) => x.len() == y.len() && forall|i: int|
            0 <= i < x.len() ==> json_eq(#[trigger] x[i], y[i]),
        (JsonV::Object(x), JsonV::Object(y)) => x.len() == y.len() && forall|i: int|
            0 <= i < x.len() ==> match b.get((#[trigger] x[i]).0) {
                Some(v) => json_eq(x[i].1, v),
                None => false,
            },
        (JsonV::Number(_), _) => false,
        (JsonV::Array(_), _) => false,
        (JsonV::Object(_), _) => false,
        _ => a == b,
    }
}

/// The tree whose objects were filled entry by entry.
pub open spec fn settled(tree: JsonV) -> JsonV
    decreases tree,
{
    match tree {
        JsonV::Array(items) => JsonV::Array(
            Seq::new(items.len(), |i: int| if 0 <= i < items.len() { settled(items[i]) } else { arbitrary() }),
        ),
        JsonV::Object(entries) => JsonV::Object(collected(settled_entries(entries))),
        JsonV::Number(NumberV::NegInt(n)) => if n < 0 {
            tree
        } else {
            JsonV::Number(NumberV::PosInt(n as u64))
        },
        _ => tree,
    }
}

/// Entries with settled values.
pub open spec fn settled_entries(entries: Seq<(Seq<char>, JsonV)>) -> Seq<(Seq<char>, JsonV)>
    decreases entries,
{
    if entries.len() == 0 {
        entries
    } else {
        settled_entries(entries.drop_last()).push((entries.last().0, settled(entries.last().1)))
    }
}

/// The object `{"type": kind, key: s}`.
pub open spec fn typed_block(kind: Seq<char>, key: Seq<char>, s: Seq<char>) -> JsonV {
    JsonV::object().and("type"@, JsonV::Str(kind)).and(key, JsonV::Str(s))
}

/// The block `{"type": "text", "text": s}`.
pub open spec fn text_block(s: Seq<char>) -> JsonV {
    typed_block("text"@, "text"@, s)
}

/// The compact text of a tree.
pub open spec fn rendered(tree: JsonV) -> Seq<char> {
    json_text(settled(tree))
}

} // verus!
