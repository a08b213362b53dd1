//! Records in JSON: an object that names each field once, or an array of the fields in their order.
use crate::json_model::{entries_view, entry_is_smaller, group_json_views, item_is_smaller, list_view, Json, JsonV};
use crate::text::{chars_of, texts};
use vstd::prelude::*;

verus! {

broadcast use group_json_views;

/// A JSON text read up to some character: how deep in arrays and objects, whether inside a string and
/// behind a backslash there, and the colons outside strings so far that are at most so deep.
pub struct ColonsV {
    pub depth: nat,
    pub in_string: bool,
    pub escaped: bool,
    pub count: nat,
}

pub open spec fn colons_step(s: ColonsV, c: char, levels: nat) -> ColonsV {
    if s.in_string {
        if s.escaped {
            ColonsV { escaped: false, ..s }
        } else if c == '\\' {
            ColonsV { escaped: true, ..s }
        } else {
            ColonsV { in_string: c != '"', ..s }
        }
    } else if c == '"' {
        ColonsV { in_string: true, ..s }
    } else if c == '{' || c == '[' {
        ColonsV { depth: s.depth + 1, ..s }
    } else if c == '}' || c == ']' {
        ColonsV {
            depth: if s.depth > 0 {
                (s.depth - 1) as nat
            } else {
                0
            },
            ..s
        }
    } else if c == ':' && s.depth <= levels {
        ColonsV { count: s.count + 1, ..s }
    } else {
        s
    }
}

pub open spec fn colons(text: Seq<char>, levels: nat) -> ColonsV
    decreases text.len(),
{
    if text.len() == 0 {
        ColonsV { depth: 0, in_string: false, escaped: false, count: 0 }
    } else {
        colons_step(colons(text.drop_last(), levels), text.last(), levels)
    }
}

/// How many entries a JSON text writes in objects of its outer levels: a colon stands behind each key.
pub open spec fn written_fields(text: Seq<char>, levels: nat) -> nat {
    colons(text, levels).count
}

/// How many entries a tree has in objects of its outer levels.
pub open spec fn held_fields(tree: JsonV, levels: nat) -> nat
    decreases tree, 0nat,
{
    match tree {
        JsonV::Array(items) => if levels == 0 {
            0
        } else {
            held_in_items(items, (levels - 1) as nat)
        },
        JsonV::Object(entries) => if levels == 0 {
            0
        } else {
            entries.len() + held_in_entries(entries, (levels - 1) as nat)
        },
        _ => 0,
    }
}

pub open spec fn held_in_items(items: Seq<JsonV>, levels: nat) -> nat
    decreases items, items.len(),
{
    if items.len() == 0 {
        0
    } else {
        held_in_items(items.drop_last(), levels) + held_fields(items.last(), levels)
    }
}

pub open spec fn held_in_entries(entries: Seq<(Seq<char>, JsonV)>, levels: nat) -> nat
    decreases entries, entries.len(),
{
    if entries.len() == 0 {
        0
    } else {
        held_in_entries(entries.drop_last(), levels) + held_fields(entries.last().1, levels)
    }
}

/// Whether a text that was read as a tree names no key twice in an object of its outer levels. The
/// reader keeps one entry for each key, so a key that is named again is written and not held.
pub open spec fn names_fields_once(text: Seq<char>, tree: JsonV, levels: nat) -> bool {
    written_fields(text, levels) == held_fields(tree, levels)
}

/// Counts the colons outside strings that are at most so deep.
fn count_colons(text: &str, levels: usize) -> (count: usize)
    ensures
        count == written_fields(text@, levels as nat),
{
    let chars = chars_of(text);
    let ghost all = text@;
    let mut depth: usize = 0;
    let mut in_string = false;
    let mut escaped = false;
    let mut count: usize = 0;
    let mut i: usize = 0;
    while i < chars.len()
        invariant
            i <= chars@.len(),
            all == chars@,
            depth <= i,
            count <= i,
            colons(all.take(i as int), levels as nat) == (ColonsV {
                depth: depth as nat,
                in_string,
                escaped,
                count: count as nat,
            }),
        decreases chars@.len() - i,
    {
        assert(all.take(i + 1).drop_last() =~= all.take(i as int));
        let c: char = chars[i];
        if in_string {
            if escaped {
                escaped = false;
            } else if c == '\\' {
                escaped = true;
            } else if c == '"' {
                in_string = false;
            }
        } else if c == '"' {
            in_string = true;
        } else if c == '{' || c == '[' {
            depth = depth + 1;
        } else if c == '}' || c == ']' {
            if depth > 0 {
                depth = depth - 1;
            }
        } else if c == ':' && depth <= levels {
            count = count + 1;
        }
        i = i + 1;
    }
    assert(all.take(i as int) =~= all);
    count
}

proof fn fewer_items_hold_less(items: Seq<JsonV>, i: int, levels: nat)
    requires
        0 <= i <= items.len(),
    ensures
        held_in_items(items.take(i), levels) <= held_in_items(items, levels),
    decreases items.len() - i,
{
    if i < items.len() {
        assert(items.take(i + 1).drop_last() =~= items.take(i));
        fewer_items_hold_less(items, i + 1, levels);
    } else {
        assert(items.take(i) =~= items);
    }
}

proof fn fewer_entries_hold_less(entries: Seq<(Seq<char>, JsonV)>, i: int, levels: nat)
    requires
        0 <= i <= entries.len(),
    ensures
        held_in_entries(entries.take(i), levels) <= held_in_entries(entries, levels),
    decreases entries.len() - i,
{
    if i < entries.len() {
        assert(entries.take(i + 1).drop_last() =~= entries.take(i));
        fewer_entries_hold_less(entries, i + 1, levels);
    } else {
        assert(entries.take(i) =~= entries);
    }
}

/// What is left of a number when a tree's entries are taken off; nothing where it has more.
fn without_fields(tree: &Json, levels: usize, most: usize) -> (out: Option<usize>)
    ensures
        match out {
            Some(left) => left + held_fields(tree@, levels as nat) == most,
            None => held_fields(tree@, levels as nat) > most,
        },
    decreases tree,
{
    if levels == 0 {
        return Some(most);
    }
    match tree {
        Json::Array(items) => {
            let ghost all = list_view(items@);
            let mut left: usize = most;
            let mut i: usize = 0;
            while i < items.len()
                invariant
                    i <= items@.len(),
                    levels > 0,
                    tree == Json::Array(*items),
                    all == list_view(items@),
                    left + held_in_items(all.take(i as int), (levels - 1) as nat) == most,
                    held_fields(tree@, levels as nat) == held_in_items(all, (levels - 1) as nat),
                decreases items@.len() - i,
            {
                proof {
                    item_is_smaller(*items, i as int);
                    assert(all.take(i + 1).drop_last() =~= all.take(i as int));
                    fewer_items_hold_less(all, i + 1, (levels - 1) as nat);
                }
                match without_fields(&items[i], levels - 1, left) {
                    Some(fewer) => {
                        left = fewer;
                    },
                    None => {
                        return None;
                    },
                }
                i = i + 1;
            }
            assert(all.take(i as int) =~= all);
            Some(left)
        },
        Json::Object(entries) => {
            let ghost all = entries_view(entries@);
            if entries.len() > most {
                return None;
            }
            let mut left: usize = most - entries.len();
            let mut i: usize = 0;
            while i < entries.len()
                invariant
                    i <= entries@.len(),
                    levels > 0,
                    tree == Json::Object(*entries),
                    all == entries_view(entries@),
                    left + all.len() + held_in_entries(all.take(i as int), (levels - 1) as nat) == most,
                    held_fields(tree@, levels as nat) == all.len() + held_in_entries(all, (levels - 1) as nat),
                decreases entries@.len() - i,
            {
                proof {
                    entry_is_smaller(*entries, i as int);
                    assert(all.take(i + 1).drop_last() =~= all.take(i as int));
                    fewer_entries_hold_less(all, i + 1, (levels - 1) as nat);
                }
                match without_fields(&entries[i].1, levels - 1, left) {
                    Some(fewer) => {
                        left = fewer;
                    },
                    None => {
                        return None;
                    },
                }
                i = i + 1;
            }
            assert(all.take(i as int) =~= all);
            Some(left)
        },
        _ => Some(most),
    }
}

/// Whether a text that was read as a tree names no key twice in an object of its outer levels.
pub fn fields_are_named_once(text: &str, tree: &Json, levels: usize) -> (yes: bool)
    ensures
        yes == names_fields_once(text@, tree@, levels as nat),
{
    match without_fields(tree, levels, count_colons(text, levels)) {
        Some(left) => left == 0,
        None => false,
    }
}

/// A record that was written as an array of its fields, as an object of them. Anything but an array of
/// as many items as there are fields is left as it is.
pub open spec fn named(tree: JsonV, keys: Seq<Seq<char>>) -> JsonV {
    match tree {
        JsonV::Array(items) => if items.len() == keys.len() {
            JsonV::Object(Seq::new(keys.len(), |i: int| (keys[i], items[i])))
        } else {
            tree
        },
        _ => tree,
    }
}

/// Names the fields of a record that was written as an array.
pub fn name_fields(tree: &Json, keys: &Vec<String>) -> (out: Json)
    ensures
        out@ == named(tree@, texts(keys@)),
{
    if let Json::Array(items) = tree {
        if items.len() == keys.len() {
            let ghost meant = Seq::new(keys@.len(), |i: int| (texts(keys@)[i], list_view(items@)[i]));
            let mut entries: Vec<(String, Json)> = Vec::new();
            let mut i: usize = 0;
            while i < items.len()
                invariant
                    i <= items@.len(),
                    items@.len() == keys@.len(),
                    meant == Seq::new(keys@.len(), |i: int| (texts(keys@)[i], list_view(items@)[i])),
                    entries_view(entries@) =~= meant.take(i as int),
                decreases items@.len() - i,
            {
                entries.push((keys[i].clone(), items[i].copy()));
                i = i + 1;
            }
            assert(meant.take(i as int) =~= meant);
            return Json::Object(entries);
        }
    }
    tree.copy()
}

} // verus!
