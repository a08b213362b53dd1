//! One form for JSON values that differ in the order of their keys alone.
use crate::json::{Json, JsonV};
use crate::json_model::{entries_view, entry_is_smaller, group_json_views, item_is_smaller, list_view};
use crate::text::same;
use vstd::prelude::*;
use vstd::utf8::{encode_utf8, encode_utf8_decode_utf8};

verus! {

broadcast use group_json_views;

/// Whether bytes come before others in the order of a dictionary.
pub open spec fn bytes_before(a: Seq<u8>, b: Seq<u8>) -> bool
    decreases a.len(),
{
    if b.len() == 0 {
        false
    } else if a.len() == 0 {
        true
    } else if a[0] != b[0] {
        a[0] < b[0]
    } else {
        bytes_before(a.drop_first(), b.drop_first())
    }
}

/// Whether a text comes before another, byte by byte.
pub open spec fn text_before(a: Seq<char>, b: Seq<char>) -> bool {
    bytes_before(encode_utf8(a), encode_utf8(b))
}

fn comes_before(a: &str, b: &str) -> (yes: bool)
    ensures
        yes == text_before(a@, b@),
{
    let x = a.as_bytes_vec();
    let y = b.as_bytes_vec();
    let mut i: usize = 0;
    assert(x@.skip(0) =~= x@);
    assert(y@.skip(0) =~= y@);
    while i < x.len() && i < y.len() && x[i] == y[i]
        invariant
            i <= x@.len(),
            i <= y@.len(),
            bytes_before(x@, y@) == bytes_before(x@.skip(i as int), y@.skip(i as int)),
        decreases x@.len() - i,
    {
        assert(x@.skip(i as int).drop_first() =~= x@.skip(i + 1));
        assert(y@.skip(i as int).drop_first() =~= y@.skip(i + 1));
        i = i + 1;
    }
    if i == y.len() {
        false
    } else if i == x.len() {
        true
    } else {
        x[i] < y[i]
    }
}

/// Sorted entries with one more, in its place; an entry of the same key gives way.
pub open spec fn placed(sorted: Seq<(Seq<char>, JsonV)>, key: Seq<char>, value: JsonV) -> Seq<(Seq<char>, JsonV)>
    decreases sorted.len(),
{
    if sorted.len() == 0 {
        seq![(key, value)]
    } else if sorted.last().0 == key {
        sorted.drop_last().push((key, value))
    } else if text_before(sorted.last().0, key) {
        sorted.push((key, value))
    } else {
        placed(sorted.drop_last(), key, value).push(sorted.last())
    }
}

/// A value with the keys of every object in order.
pub open spec fn canonical(tree: JsonV) -> JsonV
    decreases tree,
{
    match tree {
        JsonV::Array(items) => JsonV::Array(
            Seq::new(items.len(), |i: int| if 0 <= i < items.len() { canonical(items[i]) } else { arbitrary() }),
        ),
        JsonV::Object(entries) => JsonV::Object(canonical_entries(entries)),
        _ => tree,
    }
}

pub open spec fn canonical_entries(entries: Seq<(Seq<char>, JsonV)>) -> Seq<(Seq<char>, JsonV)>
    decreases entries,
{
    if entries.len() == 0 {
        Seq::empty()
    } else {
        placed(canonical_entries(entries.drop_last()), entries.last().0, canonical(entries.last().1))
    }
}

proof fn placed_at(sorted: Seq<(Seq<char>, JsonV)>, key: Seq<char>, value: JsonV, i: int)
    requires
        0 <= i <= sorted.len(),
        forall|j: int| i <= j < sorted.len() ==> (#[trigger] sorted[j]).0 != key && !text_before(sorted[j].0, key),
        i > 0 ==> sorted[i - 1].0 == key || text_before(sorted[i - 1].0, key),
    ensures
        placed(sorted, key, value) == (if i > 0 && sorted[i - 1].0 == key {
            sorted.update(i - 1, (key, value))
        } else {
            sorted.insert(i, (key, value))
        }),
    decreases sorted.len(),
{
    let p = placed(sorted, key, value);
    if i < sorted.len() {
        assert(sorted.last() == sorted[sorted.len() - 1]);
        let shorter = sorted.drop_last();
        assert forall|j: int| i <= j < shorter.len() implies (#[trigger] shorter[j]).0 != key && !text_before(
            shorter[j].0,
            key,
        ) by {
            assert(shorter[j] == sorted[j]);
        }
        placed_at(shorter, key, value, i);
        if i > 0 && sorted[i - 1].0 == key {
            assert(p =~= sorted.update(i - 1, (key, value)));
        } else {
            assert(p =~= sorted.insert(i, (key, value)));
        }
    } else if i > 0 && sorted[i - 1].0 == key {
        assert(p =~= sorted.update(i - 1, (key, value)));
    } else {
        assert(p =~= sorted.insert(i, (key, value)));
    }
}

fn place(sorted: &mut Vec<(String, Json)>, key: &str, value: Json)
    ensures
        entries_view(final(sorted)@) == placed(entries_view(old(sorted)@), key@, value@),
{
    let ghost all = entries_view(sorted@);
    let mut i: usize = sorted.len();
    while i > 0 && !same(sorted[i - 1].0.as_str(), key) && !comes_before(sorted[i - 1].0.as_str(), key)
        invariant
            i <= sorted@.len(),
            all == entries_view(sorted@),
            forall|j: int| i <= j < all.len() ==> (#[trigger] all[j]).0 != key@ && !text_before(all[j].0, key@),
        decreases i,
    {
        assert(all[i - 1].0 == sorted@[i - 1].0@);
        i = i - 1;
    }
    assert(i > 0 ==> all[i - 1].0 == sorted@[i - 1].0@);
    proof {
        placed_at(all, key@, value@, i as int);
    }
    if i > 0 && same(sorted[i - 1].0.as_str(), key) {
        sorted.set(i - 1, (key.to_owned(), value));
        assert(entries_view(sorted@) =~= all.update(i - 1, (key@, value@)));
    } else {
        sorted.insert(i, (key.to_owned(), value));
        assert(entries_view(sorted@) =~= all.insert(i as int, (key@, value@)));
    }
}

/// Puts the keys of every object in order.
pub fn canonicalize(value: &Json) -> (out: Json)
    ensures
        out@ == canonical(value@),
    decreases value,
{
    match value {
        Json::Array(items) => {
            let ghost all = canonical(value@)->Array_0;
            let mut out: Vec<Json> = Vec::new();
            let mut i: usize = 0;
            while i < items.len()
                invariant
                    i <= items@.len(),
                    value == Json::Array(*items),
                    canonical(value@) == JsonV::Array(all),
                    all.len() == items@.len(),
                    list_view(out@) == all.take(i as int),
                decreases items@.len() - i,
            {
                proof {
                    item_is_smaller(*items, i as int);
                }
                out.push(canonicalize(&items[i]));
                assert(all[i as int] == canonical(list_view(items@)[i as int]));
                assert(all.take(i + 1) =~= all.take(i as int).push(all[i as int]));
                i = i + 1;
            }
            assert(all.take(i as int) =~= all);
            Json::Array(out)
        },
        Json::Object(entries) => {
            let ghost all = entries_view(entries@);
            let mut out: Vec<(String, Json)> = Vec::new();
            assert(entries_view(out@) =~= Seq::empty());
            let mut i: usize = 0;
            while i < entries.len()
                invariant
                    i <= entries@.len(),
                    value == Json::Object(*entries),
                    value@ == JsonV::Object(all),
                    all == entries_view(entries@),
                    entries_view(out@) == canonical_entries(all.take(i as int)),
                decreases entries@.len() - i,
            {
                proof {
                    entry_is_smaller(*entries, i as int);
                }
                assert(all.take(i + 1).drop_last() =~= all.take(i as int));
                assert(all[i as int] == (entries@[i as int].0@, entries@[i as int].1@));
                let sorted = canonicalize(&entries[i].1);
                place(&mut out, entries[i].0.as_str(), sorted);
                i = i + 1;
            }
            assert(all.take(i as int) =~= all);
            Json::Object(out)
        },
        _ => value.copy(),
    }
}

proof fn before_is_total(a: Seq<u8>, b: Seq<u8>)
    ensures
        a != b ==> bytes_before(a, b) || bytes_before(b, a),
        !(bytes_before(a, b) && bytes_before(b, a)),
        !bytes_before(a, a),
    decreases a.len(),
{
    if a.len() > 0 && b.len() > 0 {
        before_is_total(a.drop_first(), b.drop_first());
        if a[0] == b[0] && a.drop_first() == b.drop_first() {
            assert(a =~= seq![a[0]] + a.drop_first());
            assert(b =~= seq![b[0]] + b.drop_first());
        }
    } else if a.len() == 0 && b.len() == 0 {
        assert(a =~= b);
    }
    if a.len() > 0 {
        before_is_total(a.drop_first(), a.drop_first());
    }
}

proof fn before_is_transitive(a: Seq<u8>, b: Seq<u8>, c: Seq<u8>)
    requires
        bytes_before(a, b),
        bytes_before(b, c),
    ensures
        bytes_before(a, c),
    decreases a.len(),
{
    if a.len() > 0 && a[0] == b[0] && b[0] == c[0] {
        before_is_transitive(a.drop_first(), b.drop_first(), c.drop_first());
    }
}

proof fn text_order(a: Seq<char>, b: Seq<char>)
    ensures
        a != b ==> text_before(a, b) || text_before(b, a),
        !(text_before(a, b) && text_before(b, a)),
        !text_before(a, a),
{
    before_is_total(encode_utf8(a), encode_utf8(b));
    encode_utf8_decode_utf8(a);
    encode_utf8_decode_utf8(b);
}

/// Whether keys strictly increase.
pub open spec fn in_order(entries: Seq<(Seq<char>, JsonV)>) -> bool {
    forall|i: int, j: int| 0 <= i < j < entries.len() ==> text_before((#[trigger] entries[i]).0, (#[trigger] entries[j]).0)
}

/// Whether no key occurs twice.
pub open spec fn distinct_keys(entries: Seq<(Seq<char>, JsonV)>) -> bool {
    forall|i: int, j: int| 0 <= i < j < entries.len() ==> (#[trigger] entries[i]).0 != (#[trigger] entries[j]).0
}

/// The place at which a key belongs into sorted entries.
spec fn place_of(sorted: Seq<(Seq<char>, JsonV)>, key: Seq<char>) -> int
    decreases sorted.len(),
{
    if sorted.len() == 0 || sorted.last().0 == key || text_before(sorted.last().0, key) {
        sorted.len() as int
    } else {
        place_of(sorted.drop_last(), key)
    }
}

proof fn place_of_fits(sorted: Seq<(Seq<char>, JsonV)>, key: Seq<char>)
    ensures
        0 <= place_of(sorted, key) <= sorted.len(),
        forall|j: int|
            place_of(sorted, key) <= j < sorted.len() ==> (#[trigger] sorted[j]).0 != key && !text_before(sorted[j].0, key),
        place_of(sorted, key) > 0 ==> sorted[place_of(sorted, key) - 1].0 == key || text_before(
            sorted[place_of(sorted, key) - 1].0,
            key,
        ),
    decreases sorted.len(),
{
    if !(sorted.len() == 0 || sorted.last().0 == key || text_before(sorted.last().0, key)) {
        let shorter = sorted.drop_last();
        place_of_fits(shorter, key);
        assert forall|j: int| place_of(sorted, key) <= j < sorted.len() implies (#[trigger] sorted[j]).0 != key
            && !text_before(sorted[j].0, key) by {
            if j < shorter.len() {
                assert(shorter[j] == sorted[j]);
            }
        }
    }
}

/// An entry put into its place keeps the order, and adds itself alone.
proof fn placed_keeps_order(sorted: Seq<(Seq<char>, JsonV)>, key: Seq<char>, value: JsonV)
    requires
        in_order(sorted),
        forall|i: int| 0 <= i < sorted.len() ==> (#[trigger] sorted[i]).0 != key,
    ensures
        in_order(placed(sorted, key, value)),
        placed(sorted, key, value).to_set() == sorted.to_set().insert((key, value)),
{
    let i = place_of(sorted, key);
    place_of_fits(sorted, key);
    placed_at(sorted, key, value, i);
    let p = placed(sorted, key, value);
    assert(p == sorted.insert(i, (key, value)));
    assert forall|a: int, b: int| 0 <= a < b < p.len() implies text_before((#[trigger] p[a]).0, (#[trigger] p[b]).0) by {
        if a < i && b < i {
            assert(p[a] == sorted[a] && p[b] == sorted[b]);
        } else if a < i && b == i {
            if a < i - 1 {
                assert(text_before(sorted[a].0, sorted[i - 1].0));
                before_is_transitive(encode_utf8(sorted[a].0), encode_utf8(sorted[i - 1].0), encode_utf8(key));
            }
        } else if a < i {
            assert(p[a] == sorted[a] && p[b] == sorted[b - 1]);
        } else if a == i {
            assert(p[b] == sorted[b - 1]);
            text_order(sorted[b - 1].0, key);
        } else {
            assert(p[a] == sorted[a - 1] && p[b] == sorted[b - 1]);
        }
    }
    assert forall|e: (Seq<char>, JsonV)|
        p.to_set().contains(e) == sorted.to_set().insert((key, value)).contains(e) by {
        if p.contains(e) {
            let k = choose|k: int| 0 <= k < p.len() && p[k] == e;
            if k < i {
                assert(sorted[k] == e);
            } else if k > i {
                assert(sorted[k - 1] == e);
            }
        }
        if sorted.contains(e) {
            let k = choose|k: int| 0 <= k < sorted.len() && sorted[k] == e;
            if k < i {
                assert(p[k] == e);
            } else {
                assert(p[k + 1] == e);
            }
        }
        if e == (key, value) {
            assert(p[i] == e);
        }
    }
    assert(p.to_set() =~= sorted.to_set().insert((key, value)));
}

/// Entries with canonical values.
pub open spec fn canonical_values(entries: Seq<(Seq<char>, JsonV)>) -> Seq<(Seq<char>, JsonV)> {
    Seq::new(entries.len(), |i: int| (entries[i].0, canonical(entries[i].1)))
}

/// The canonical form of an object has its keys in order, and the canonical values of all of them.
pub proof fn canonical_entries_are_in_order(entries: Seq<(Seq<char>, JsonV)>)
    requires
        distinct_keys(entries),
    ensures
        in_order(canonical_entries(entries)),
        canonical_entries(entries).to_set() == canonical_values(entries).to_set(),
    decreases entries.len(),
{
    if entries.len() > 0 {
        let shorter = entries.drop_last();
        let (key, value) = entries.last();
        assert forall|i: int, j: int| 0 <= i < j < shorter.len() implies (#[trigger] shorter[i]).0 != (
        #[trigger] shorter[j]).0 by {
            assert(entries[i] == shorter[i] && entries[j] == shorter[j]);
        }
        canonical_entries_are_in_order(shorter);
        let sorted = canonical_entries(shorter);
        assert forall|i: int| 0 <= i < sorted.len() implies (#[trigger] sorted[i]).0 != key by {
            assert(sorted.to_set().contains(sorted[i]));
            let values = canonical_values(shorter);
            assert(values.contains(sorted[i]));
            let k = choose|k: int| 0 <= k < values.len() && values[k] == sorted[i];
            assert(entries[k].0 != entries[entries.len() - 1].0);
        }
        placed_keeps_order(sorted, key, canonical(value));
        let before = canonical_values(shorter);
        let after = canonical_values(entries);
        assert(after =~= before.push((key, canonical(value))));
        assert(after.to_set() =~= before.to_set().insert((key, canonical(value)))) by {
            assert forall|e: (Seq<char>, JsonV)|
                after.to_set().contains(e) == before.to_set().insert((key, canonical(value))).contains(e) by {
                if before.contains(e) {
                    let k = choose|k: int| 0 <= k < before.len() && before[k] == e;
                    assert(after[k] == e);
                }
                if e == (key, canonical(value)) {
                    assert(after[after.len() - 1] == e);
                }
            }
        }
    } else {
        assert(canonical_entries(entries).to_set() =~= canonical_values(entries).to_set());
    }
}

proof fn ordered_sets_are_one(a: Seq<(Seq<char>, JsonV)>, b: Seq<(Seq<char>, JsonV)>)
    requires
        in_order(a),
        in_order(b),
        a.to_set() == b.to_set(),
    ensures
        a == b,
    decreases a.len(),
{
    if a.len() == 0 {
        if b.len() > 0 {
            assert(b.to_set().contains(b[0]));
            assert(a.contains(b[0]));
        }
        assert(a =~= b);
    } else {
        assert(a.to_set().contains(a.last()));
        assert(b.contains(a.last()));
        let i = choose|i: int| 0 <= i < b.len() && b[i] == a.last();
        assert(b.to_set().contains(b.last()));
        assert(a.contains(b.last()));
        let j = choose|j: int| 0 <= j < a.len() && a[j] == b.last();
        if i < b.len() - 1 {
            assert(text_before(b[i].0, b[b.len() - 1].0));
            text_order(a.last().0, b.last().0);
            if j < a.len() - 1 {
                assert(text_before(a[j].0, a[a.len() - 1].0));
            }
            assert(false);
        }
        assert(a.last() == b.last());
        let x = a.drop_last();
        let y = b.drop_last();
        assert forall|e: (Seq<char>, JsonV)| x.to_set().contains(e) == y.to_set().contains(e) by {
            if x.contains(e) {
                let k = choose|k: int| 0 <= k < x.len() && x[k] == e;
                assert(a[k] == e);
                assert(a.to_set().contains(e));
                assert(b.contains(e));
                let l = choose|l: int| 0 <= l < b.len() && b[l] == e;
                assert(text_before(a[k].0, a[a.len() - 1].0));
                text_order(a.last().0, a.last().0);
                assert(l < b.len() - 1);
                assert(y[l] == e);
            }
            if y.contains(e) {
                let k = choose|k: int| 0 <= k < y.len() && y[k] == e;
                assert(b[k] == e);
                assert(b.to_set().contains(e));
                assert(a.contains(e));
                let l = choose|l: int| 0 <= l < a.len() && a[l] == e;
                assert(text_before(b[k].0, b[b.len() - 1].0));
                text_order(b.last().0, b.last().0);
                assert(l < a.len() - 1);
                assert(x[l] == e);
            }
        }
        assert(x.to_set() =~= y.to_set());
        assert(in_order(x)) by {
            assert forall|p: int, q: int| 0 <= p < q < x.len() implies text_before((#[trigger] x[p]).0, (
            #[trigger] x[q]).0) by {
                assert(a[p] == x[p] && a[q] == x[q]);
            }
        }
        assert(in_order(y)) by {
            assert forall|p: int, q: int| 0 <= p < q < y.len() implies text_before((#[trigger] y[p]).0, (
            #[trigger] y[q]).0) by {
                assert(b[p] == y[p] && b[q] == y[q]);
            }
        }
        ordered_sets_are_one(x, y);
        assert(a =~= x.push(a.last()));
        assert(b =~= y.push(b.last()));
    }
}

/// The order in which an object's keys are written makes no difference: objects with the same keys
/// and values have one canonical form.
pub proof fn key_order_makes_no_difference(a: Seq<(Seq<char>, JsonV)>, b: Seq<(Seq<char>, JsonV)>)
    requires
        distinct_keys(a),
        distinct_keys(b),
        canonical_values(a).to_set() == canonical_values(b).to_set(),
    ensures
        canonical(JsonV::Object(a)) == canonical(JsonV::Object(b)),
{
    canonical_entries_are_in_order(a);
    canonical_entries_are_in_order(b);
    ordered_sets_are_one(canonical_entries(a), canonical_entries(b));
}

} // verus!
