//! JSON values to and from those of the JSON library and of the template
//! engine.

use vstd::prelude::*;

use super::json::{
    has_key, key_at, keys_distinct, lemma_entry_smaller, lemma_item_smaller, lemma_tree, trees,
    Json, JsonMap, JsonTree,
};
use super::outside::{
    as_i64, as_u64, bool_value, close_json, first_item, float_value, held_entries, held_tree,
    held_trees, int_value, is_list, list_value, make_bool, make_float, make_int, make_list,
    make_map, make_none, make_text, make_uint, map_value, none_value, number_i64, number_u64,
    open_json, text_keys, text_value, uint_value, JsonNode,
};

verus! {

/// The value of the JSON library as a value of this library.
pub fn from_json_value(value: serde_json::Value) -> (json: Json)
    ensures
        json@ == held_tree(value),
    decreases held_tree(value),
{
    broadcast use lemma_tree;

    let ghost tree = held_tree(value);
    match open_json(value) {
        JsonNode::Null => Json::Null,
        JsonNode::Bool(b) => Json::Bool(b),
        JsonNode::Number(n) => Json::Number(n),
        JsonNode::String(s) => Json::String(s),
        JsonNode::Array(values) => {
            let ghost list = values@;
            let mut items: Vec<Json> = Vec::new();
            for item in it: values
                invariant
                    it.seq() == list,
                    tree == held_tree(value),
                    tree == JsonTree::Array(held_trees(list)),
                    items.len() == it.index(),
                    forall|i: int|
                        0 <= i < items.len() ==> (#[trigger] items@[i])@ == held_tree(list[i]),
            {
                proof {
                    let k = it.index() as int;
                    let held = held_trees(list);
                    assert(held[k] == held_tree(item));
                    assert(decreases_to!(tree => tree->Array_0));
                }
                items.push(from_json_value(item));
            }
            assert(trees(items@) =~= held_trees(list));
            Json::Array(items)
        },
        JsonNode::Object(entries) => {
            let ghost list = entries@;
            let ghost held = held_entries(list);
            let mut map = JsonMap::new();
            for pair in it: entries
                invariant
                    it.seq() == list,
                    held == held_entries(list),
                    keys_distinct(held),
                    tree == held_tree(value),
                    tree == JsonTree::Object(held),
                    map@ == held.take(it.index() as int),
            {
                let ghost k = it.index() as int;
                proof {
                    assert(decreases_to!(tree => tree->Object_0));
                    assert(decreases_to!(held[k] => held[k].1));
                    if has_key(map@, pair.0@) {
                        let i = choose|i: int| key_at(map@, pair.0@, i);
                    }
                }
                map.insert(pair.0, from_json_value(pair.1));
            }
            assert(held.take(held.len() as int) =~= held);
            Json::Object(map)
        },
    }
}

/// A value of this library as one of the JSON library.
pub fn into_json_value(json: &Json) -> (value: serde_json::Value)
    ensures
        held_tree(value) == json@,
    decreases json@,
{
    broadcast use lemma_tree;

    match json {
        Json::Null => close_json(JsonNode::Null),
        Json::Bool(b) => close_json(JsonNode::Bool(*b)),
        Json::Number(n) => close_json(JsonNode::Number(n.clone())),
        Json::String(s) => close_json(JsonNode::String(s.clone())),
        Json::Array(items) => {
            let mut values: Vec<serde_json::Value> = Vec::new();
            let mut i: usize = 0;
            while i < items.len()
                invariant
                    i <= items.len(),
                    *json == Json::Array(*items),
                    values.len() == i,
                    forall|j: int| 0 <= j < i ==> held_tree(#[trigger] values@[j]) == items@[j]@,
                decreases items.len() - i,
            {
                proof {
                    lemma_item_smaller(*json, *items, i as int);
                }
                values.push(into_json_value(&items[i]));
                i += 1;
            }
            assert(held_trees(values@) =~= trees(items@));
            close_json(JsonNode::Array(values))
        },
        Json::Object(map) => {
            let mut entries: Vec<(String, serde_json::Value)> = Vec::new();
            let mut i: usize = 0;
            while i < map.len()
                invariant
                    i <= map@.len(),
                    *json == Json::Object(*map),
                    entries.len() == i,
                    forall|j: int|
                        0 <= j < i ==> (#[trigger] entries@[j]).0@ == map@[j].0 && held_tree(
                            entries@[j].1,
                        ) == map@[j].1,
                    i > 0 ==> keys_distinct(map@),
                decreases map@.len() - i,
            {
                proof {
                    lemma_entry_smaller(*json, *map, i as int);
                }
                let (key, item) = map.entry(i);
                entries.push((key.clone(), into_json_value(item)));
                i += 1;
            }
            assert(held_entries(entries@) =~= map@);
            close_json(JsonNode::Object(entries))
        },
    }
}

/// A JSON value as a template sees it: `null` is none; a number is an integer
/// if it can be, otherwise a float.
pub open spec fn value_of(tree: JsonTree) -> minijinja::Value
    decreases tree,
{
    match tree {
        JsonTree::Null => none_value(()),
        JsonTree::Bool(b) => bool_value(b),
        JsonTree::Number(n) => match number_i64(n) {
            Some(i) => int_value(i),
            None => match number_u64(n) {
                Some(u) => uint_value(u),
                None => match float_value(n) {
                    Some(value) => value,
                    None => none_value(()),
                },
            },
        },
        JsonTree::String(s) => text_value(s),
        JsonTree::Array(items) => list_value(values_of(items)),
        JsonTree::Object(entries) => map_value(entry_values_of(entries)),
    }
}

/// No key stands twice in any object of the value.
pub open spec fn is_sound(tree: JsonTree) -> bool
    decreases tree,
{
    match tree {
        JsonTree::Array(items) => forall|i: int|
            0 <= i < items.len() ==> is_sound(#[trigger] items[i]),
        JsonTree::Object(entries) => keys_distinct(entries) && forall|i: int|
            0 <= i < entries.len() ==> is_sound((#[trigger] entries[i]).1),
        _ => true,
    }
}

/// The value was made from JSON.
pub open spec fn is_plain(value: minijinja::Value) -> bool {
    exists|tree: JsonTree| value == #[trigger] value_of(tree)
}

/// The items as a template sees them.
pub open spec fn values_of(items: Seq<JsonTree>) -> Seq<minijinja::Value>
    decreases items,
{
    Seq::new(
        items.len(),
        |i: int|
            if 0 <= i < items.len() {
                value_of(items[i])
            } else {
                none_value(())
            },
    )
}

/// The entries as a template sees them.
pub open spec fn entry_values_of(entries: Seq<(Seq<char>, JsonTree)>) -> Seq<(
    Seq<char>,
    minijinja::Value,
)>
    decreases entries,
{
    Seq::new(
        entries.len(),
        |i: int|
            if 0 <= i < entries.len() {
                (entries[i].0, value_of(entries[i].1))
            } else {
                (seq![], none_value(()))
            },
    )
}

/// A template sees `null` as none, a boolean as a boolean, text as text, and an
/// integer as one, signed if it can be. It sees an array as the list of what it
/// sees of its items, and an object as the map of its keys to what it sees of
/// their values.
pub proof fn law_value_by_kind(
    b: bool,
    n: serde_json::Number,
    s: Seq<char>,
    items: Seq<JsonTree>,
    entries: Seq<(Seq<char>, JsonTree)>,
    i: int,
)
    ensures
        value_of(JsonTree::Null) == none_value(()),
        value_of(JsonTree::Bool(b)) == bool_value(b),
        value_of(JsonTree::String(s)) == text_value(s),
        number_i64(n) matches Some(v) ==> value_of(JsonTree::Number(n)) == int_value(v),
        number_i64(n) is None ==> (number_u64(n) matches Some(v) ==> value_of(JsonTree::Number(n))
            == uint_value(v)),
        number_i64(n) is None && number_u64(n) is None ==> (float_value(n) matches Some(v)
            ==> value_of(JsonTree::Number(n)) == v),
        value_of(JsonTree::Array(items)) == list_value(values_of(items)),
        values_of(items).len() == items.len(),
        0 <= i < items.len() ==> values_of(items)[i] == value_of(items[i]),
        value_of(JsonTree::Object(entries)) == map_value(entry_values_of(entries)),
        entry_values_of(entries).len() == entries.len(),
        0 <= i < entries.len() ==> entry_values_of(entries)[i].0 == entries[i].0
            && entry_values_of(entries)[i].1 == value_of(entries[i].1),
{
}

/// A JSON value as a template sees it. Arrays are lists with the same first item;
/// nothing else is a list. No key stands twice in any object.
pub fn json_to_minijinja_value(json: &Json) -> (value: minijinja::Value)
    ensures
        value == value_of(json@),
        is_sound(json@),
        is_list(value, 0) == (json@ is Array),
        json@ matches JsonTree::Array(items) ==> first_item(value, 0) == (if items.len() > 0 {
            Some(value_of(items[0]))
        } else {
            None
        }),
        json@ matches JsonTree::Array(items) ==> items.len() > 0 ==> is_list(value_of(items[0]), 0)
            == (items[0] is Array),
    decreases json@,
{
    broadcast use lemma_tree;

    match json {
        Json::Null => make_none(),
        Json::Bool(b) => make_bool(*b),
        Json::Number(n) => {
            if let Some(i) = as_i64(n) {
                make_int(i)
            } else if let Some(u) = as_u64(n) {
                make_uint(u)
            } else if let Some(value) = make_float(n) {
                value
            } else {
                make_none()
            }
        },
        Json::String(s) => make_text(s.as_str()),
        Json::Array(items) => {
            let mut values: Vec<minijinja::Value> = Vec::new();
            let mut i: usize = 0;
            while i < items.len()
                invariant
                    i <= items.len(),
                    *json == Json::Array(*items),
                    values.len() == i,
                    forall|j: int| 0 <= j < i ==> #[trigger] values@[j] == value_of(items@[j]@),
                    forall|j: int| 0 <= j < i ==> is_sound((#[trigger] items@[j])@),
                    i > 0 ==> is_list(values@[0], 0) == (items@[0]@ is Array),
                decreases items.len() - i,
            {
                proof {
                    lemma_item_smaller(*json, *items, i as int);
                }
                values.push(json_to_minijinja_value(&items[i]));
                i += 1;
            }
            assert(values@ =~= values_of(json@->Array_0));
            make_list(values)
        },
        Json::Object(map) => {
            let mut entries: Vec<(String, minijinja::Value)> = Vec::new();
            let mut i: usize = 0;
            while i < map.len()
                invariant
                    i <= map@.len(),
                    *json == Json::Object(*map),
                    entries.len() == i,
                    forall|j: int|
                        0 <= j < i ==> (#[trigger] entries@[j]).0@ == map@[j].0 && entries@[j].1
                            == value_of(map@[j].1),
                    forall|j: int| 0 <= j < i ==> is_sound((#[trigger] map@[j]).1),
                    i > 0 ==> keys_distinct(map@),
                decreases map@.len() - i,
            {
                proof {
                    lemma_entry_smaller(*json, *map, i as int);
                }
                let (key, item) = map.entry(i);
                entries.push((key.clone(), json_to_minijinja_value(item)));
                i += 1;
            }
            assert(text_keys(entries@) =~= entry_values_of(json@->Object_0));
            make_map(entries)
        },
    }
}

} // verus!
