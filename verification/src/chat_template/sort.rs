//! JSON values with the keys of their objects in order.

use vstd::prelude::*;

use super::json::{
    entry_trees, has_key, key_at, keys_distinct, lemma_entry_smaller, lemma_item_smaller,
    lemma_position, lemma_tree, lookup, position, Json, JsonMap, JsonTree,
};
use crate::text::{is_before, law_text_order, law_text_order_is_transitive, text_before};

verus! {

/// Keys ascend.
pub open spec fn ascending<V>(entries: Seq<(Seq<char>, V)>) -> bool {
    forall|i: int, j: int|
        #![trigger entries[i], entries[j]]
        0 <= i < j < entries.len() ==> text_before(entries[i].0, entries[j].0)
}

/// `after` is `before` with the keys of every object in order: the same array
/// items, and the same keys, each with its value in sorted form.
pub open spec fn sorted_form(before: JsonTree, after: JsonTree) -> bool
    decreases before, 0int,
{
    match before {
        JsonTree::Array(a) => {
            &&& after is Array
            &&& after->Array_0.len() == a.len()
            &&& forall|i: int|
                #![trigger a[i]]
                0 <= i < a.len() ==> sorted_form(a[i], after->Array_0[i])
        },
        JsonTree::Object(a) => {
            &&& after is Object
            &&& after->Object_0.len() == a.len()
            &&& ascending(after->Object_0)
            &&& forall|i: int|
                #![trigger a[i]]
                0 <= i < a.len() ==> keeps(after->Object_0, a[i].0, a[i].1)
            &&& forall|j: int|
                #![trigger after->Object_0[j]]
                0 <= j < after->Object_0.len() ==> has_key(a, after->Object_0[j].0)
        },
        _ => after == before,
    }
}

/// The key has the value, in sorted form.
pub open spec fn keeps(after: Seq<(Seq<char>, JsonTree)>, key: Seq<char>, value: JsonTree) -> bool
    decreases value, 1int,
{
    exists|j: int| #[trigger] key_at(after, key, j) && sorted_form(value, after[j].1)
}

/// Ascending keys are distinct.
proof fn lemma_ascending_distinct<V>(entries: Seq<(Seq<char>, V)>)
    requires
        ascending(entries),
    ensures
        keys_distinct(entries),
{
    assert forall|i: int, j: int|
        #![trigger entries[i], entries[j]]
        0 <= i < j < entries.len() implies entries[i].0 != entries[j].0 by {
        law_text_order(entries[i].0, entries[j].0);
    }
}

/// Puts an entry where its key belongs.
fn insert_entry(list: &mut Vec<(String, Json)>, key: String, value: Json) -> (at: usize)
    requires
        ascending(entry_trees(old(list)@)),
        !has_key(entry_trees(old(list)@), key@),
    ensures
        at <= old(list).len(),
        entry_trees(final(list)@) == entry_trees(old(list)@).insert(at as int, (key@, value@)),
        ascending(entry_trees(final(list)@)),
{
    let ghost before = entry_trees(list@);
    let mut p: usize = 0;
    while p < list.len() && is_before(list[p].0.as_str(), key.as_str())
        invariant
            before == entry_trees(list@),
            p <= list.len(),
            forall|i: int| 0 <= i < p ==> text_before((#[trigger] before[i]).0, key@),
        decreases list.len() - p,
    {
        p += 1;
    }
    let ghost pair = (key@, value@);
    proof {
        assert forall|i: int| p <= i < before.len() implies text_before(
            key@,
            (#[trigger] before[i]).0,
        ) by {
            assert(!key_at(before, key@, p as int));
            law_text_order(before[p as int].0, key@);
            if i > p {
                law_text_order_is_transitive(key@, before[p as int].0, before[i].0);
            }
        }
    }
    list.insert(p, (key, value));
    proof {
        let after = entry_trees(list@);
        assert(after =~= before.insert(p as int, pair));
    }
    p
}

/// The entries so far, with their values in sorted form, by key.
spec fn sorted_entries(
    before: Seq<(Seq<char>, JsonTree)>,
    after: Seq<(Seq<char>, JsonTree)>,
) -> bool {
    &&& after.len() == before.len()
    &&& ascending(after)
    &&& forall|i: int|
        #![trigger before[i]]
        0 <= i < before.len() ==> keeps(after, before[i].0, before[i].1)
    &&& forall|j: int| #![trigger after[j]] 0 <= j < after.len() ==> has_key(before, after[j].0)
}

proof fn lemma_sorted_push(
    before: Seq<(Seq<char>, JsonTree)>,
    after: Seq<(Seq<char>, JsonTree)>,
    key: Seq<char>,
    value: JsonTree,
    sorted: JsonTree,
    at: int,
)
    requires
        sorted_entries(before, after),
        sorted_form(value, sorted),
        0 <= at <= after.len(),
        ascending(after.insert(at, (key, sorted))),
    ensures
        sorted_entries(before.push((key, value)), after.insert(at, (key, sorted))),
{
    let b = before.push((key, value));
    let a = after.insert(at, (key, sorted));
    assert forall|i: int| #![trigger b[i]] 0 <= i < b.len() implies keeps(
        a,
        b[i].0,
        b[i].1,
    ) by {
        if i == before.len() {
            assert(key_at(a, b[i].0, at) && sorted_form(b[i].1, a[at].1));
        } else {
            let j = choose|j: int| #[trigger]
                key_at(after, before[i].0, j) && sorted_form(before[i].1, after[j].1);
            let j2 = if j < at {
                j
            } else {
                j + 1
            };
            assert(key_at(a, b[i].0, j2) && sorted_form(b[i].1, a[j2].1));
        }
    }
    assert forall|j: int| #![trigger a[j]] 0 <= j < a.len() implies has_key(b, a[j].0) by {
        if j == at {
            assert(key_at(b, a[j].0, before.len() as int));
        } else {
            let x = if j < at {
                j
            } else {
                j - 1
            };
            let i = choose|i: int| key_at(before, after[x].0, i);
            assert(key_at(b, a[j].0, i));
        }
    }
}

/// The value with the keys of every object in order.
fn sorted(value: Json) -> (r: Json)
    ensures
        sorted_form(value@, r@),
    decreases value@,
{
    broadcast use lemma_tree;

    let ghost whole = value;
    match value {
        Json::Array(values) => {
            let mut items: Vec<Json> = Vec::new();
            let ghost list = values;
            for item in it: values
                invariant
                    whole == value,
                    whole == Json::Array(list),
                    it.seq() == list@,
                    items.len() == it.index(),
                    forall|i: int|
                        0 <= i < items.len() ==> sorted_form(list@[i]@, (#[trigger] items@[i])@),
            {
                proof {
                    lemma_item_smaller(whole, list, it.index() as int);
                }
                items.push(sorted(item));
            }
            Json::Array(items)
        },
        Json::Object(map) => {
            let ghost object = map;
            let entries = map.into_entries();
            let ghost all = entry_trees(entries@);
            let ghost pairs = entries@;
            let mut list: Vec<(String, Json)> = Vec::new();
            for pair in it: entries
                invariant
                    whole == value,
                    whole == Json::Object(object),
                    it.seq() == pairs,
                    all == entry_trees(pairs),
                    all == object@,
                    keys_distinct(all),
                    sorted_entries(all.take(it.index() as int), entry_trees(list@)),
            {
                let ghost k = it.index() as int;
                let ghost done = all.take(k);
                let ghost before = entry_trees(list@);
                proof {
                    lemma_entry_smaller(whole, object, k);
                    if has_key(before, pair.0@) {
                        let j = choose|j: int| key_at(before, pair.0@, j);
                        let i = choose|i: int| key_at(done, before[j].0, i);
                    }
                }
                let ghost tree = pair.1@;
                let item = sorted(pair.1);
                let ghost key = pair.0@;
                let ghost sorted_tree = item@;
                let at: usize = insert_entry(&mut list, pair.0, item);
                proof {
                    lemma_sorted_push(done, before, key, tree, sorted_tree, at as int);
                    assert(done.push((key, tree)) =~= all.take(k + 1));
                }
            }
            assert(all.take(all.len() as int) =~= all);
            let ghost target = entry_trees(list@);
            let ghost kept = list@;
            proof {
                lemma_ascending_distinct(target);
            }
            let mut result = JsonMap::new();
            for pair in it: list
                invariant
                    it.seq() == kept,
                    target == entry_trees(kept),
                    keys_distinct(target),
                    result@ == target.take(it.index() as int),
            {
                let ghost k = it.index() as int;
                proof {
                    if has_key(result@, pair.0@) {
                        let i = choose|i: int| key_at(result@, pair.0@, i);
                        assert(target[i].0 != target[k].0);
                    }
                }
                result.insert(pair.0, pair.1);
            }
            assert(target.take(target.len() as int) =~= target);
            Json::Object(result)
        },
        other => other,
    }
}

/// Puts the keys of every object in order.
pub fn sort_json_value(value: &mut Json)
    ensures
        sorted_form(old(value)@, final(value)@),
{
    let mut taken = Json::Null;
    std::mem::swap(&mut taken, value);
    *value = sorted(taken);
}

/// In every object of the value, no key stands twice.
pub open spec fn distinct_tree(value: JsonTree) -> bool
    decreases value,
{
    match value {
        JsonTree::Array(items) => forall|i: int|
            #![trigger items[i]]
            0 <= i < items.len() ==> distinct_tree(items[i]),
        JsonTree::Object(entries) => {
            &&& keys_distinct(entries)
            &&& forall|i: int|
                #![trigger entries[i]]
                0 <= i < entries.len() ==> distinct_tree(entries[i].1)
        },
        _ => true,
    }
}

/// A place of a key in the sorted entries holds its value.
proof fn lemma_kept_at(
    before: Seq<(Seq<char>, JsonTree)>,
    after: Seq<(Seq<char>, JsonTree)>,
    p: int,
    i: int,
)
    requires
        ascending(after),
        0 <= p < before.len(),
        keeps(after, before[p].0, before[p].1),
        0 <= i < after.len(),
        after[i].0 == before[p].0,
    ensures
        sorted_form(before[p].1, after[i].1),
{
    let j = choose|j: int| #[trigger]
        key_at(after, before[p].0, j) && sorted_form(before[p].1, after[j].1);
    lemma_ascending_distinct(after);
    lemma_position(after, before[p].0, i);
    lemma_position(after, before[p].0, j);
}

proof fn lemma_same_keys<V>(a: Seq<(Seq<char>, V)>, b: Seq<(Seq<char>, V)>, i: int)
    requires
        ascending(a),
        ascending(b),
        forall|j: int| #![trigger a[j]] 0 <= j < a.len() ==> has_key(b, a[j].0),
        forall|j: int| #![trigger b[j]] 0 <= j < b.len() ==> has_key(a, b[j].0),
        0 <= i < a.len(),
        a.len() == b.len(),
    ensures
        a[i].0 == b[i].0,
    decreases i,
{
    assert forall|k: int| 0 <= k < i implies #[trigger] a[k].0 == b[k].0 by {
        lemma_same_keys(a, b, k);
    }
    let j = choose|j: int| key_at(b, a[i].0, j);
    let k = choose|k: int| key_at(a, b[i].0, k);
    law_text_order(a[i].0, b[i].0);
    if j < i {
        law_text_order(a[j].0, a[i].0);
    }
    if k < i {
        law_text_order(b[k].0, b[i].0);
    }
}

/// A value has only one sorted form.
pub proof fn law_sorted_form_is_unique(before: JsonTree, a: JsonTree, b: JsonTree)
    requires
        distinct_tree(before),
        sorted_form(before, a),
        sorted_form(before, b),
    ensures
        a == b,
    decreases before,
{
    match before {
        JsonTree::Array(items) => {
            let x = a->Array_0;
            let y = b->Array_0;
            assert forall|i: int| 0 <= i < x.len() implies #[trigger] x[i] == y[i] by {
                law_sorted_form_is_unique(items[i], x[i], y[i]);
            }
            assert(x =~= y);
        },
        JsonTree::Object(entries) => {
            let x = a->Object_0;
            let y = b->Object_0;
            lemma_key_sets(entries, x, y);
            lemma_key_sets(entries, y, x);
            assert forall|i: int| 0 <= i < x.len() implies #[trigger] x[i] == y[i] by {
                lemma_same_keys(x, y, i);
                let p = choose|p: int| key_at(entries, x[i].0, p);
                lemma_kept_at(entries, x, p, i);
                lemma_kept_at(entries, y, p, i);
                law_sorted_form_is_unique(entries[p].1, x[i].1, y[i].1);
            }
            assert(x =~= y);
        },
        _ => {},
    }
}

proof fn lemma_key_sets(
    entries: Seq<(Seq<char>, JsonTree)>,
    x: Seq<(Seq<char>, JsonTree)>,
    y: Seq<(Seq<char>, JsonTree)>,
)
    requires
        sorted_form(JsonTree::Object(entries), JsonTree::Object(x)),
        sorted_form(JsonTree::Object(entries), JsonTree::Object(y)),
    ensures
        forall|j: int| #![trigger x[j]] 0 <= j < x.len() ==> has_key(y, x[j].0),
{
    assert forall|j: int| #![trigger x[j]] 0 <= j < x.len() implies has_key(y, x[j].0) by {
        let p = choose|p: int| key_at(entries, x[j].0, p);
        assert(keeps(y, entries[p].0, entries[p].1));
        let q = choose|q: int| #[trigger]
            key_at(y, entries[p].0, q) && sorted_form(entries[p].1, y[q].1);
    }
}

/// Sorting keeps what a value holds. What is neither an array nor an object stays
/// as it is; the items of an array stay in their places; an object has the same
/// keys, now in order, and each has the value that it had, sorted.
pub proof fn law_sorting_keeps_values(before: JsonTree, after: JsonTree, key: Seq<char>)
    requires
        distinct_tree(before),
        sorted_form(before, after),
    ensures
        before is Array <==> after is Array,
        before is Object <==> after is Object,
        !(before is Array) && !(before is Object) ==> after == before,
        before matches JsonTree::Array(items) ==> after->Array_0.len() == items.len() && forall|
            i: int,
        |
            0 <= i < items.len() ==> sorted_form(#[trigger] items[i], after->Array_0[i]),
        before matches JsonTree::Object(entries) ==> {
            let sorted = after->Object_0;
            &&& sorted.len() == entries.len()
            &&& keys_distinct(sorted)
            &&& forall|i: int, j: int|
                #![trigger sorted[i], sorted[j]]
                0 <= i < j < sorted.len() ==> text_before(sorted[i].0, sorted[j].0)
            &&& lookup(entries, key) is Some <==> lookup(sorted, key) is Some
            &&& lookup(entries, key) is Some ==> sorted_form(
                lookup(entries, key)->0,
                lookup(sorted, key)->0,
            )
        },
{
    if let JsonTree::Object(entries) = before {
        let sorted = after->Object_0;
        lemma_ascending_distinct(sorted);
        if has_key(entries, key) {
            let p = position(entries, key);
            assert(key_at(entries, key, p));
            assert(keeps(sorted, entries[p].0, entries[p].1));
            let j = choose|j: int| #[trigger]
                key_at(sorted, entries[p].0, j) && sorted_form(entries[p].1, sorted[j].1);
            lemma_position(sorted, key, j);
        }
        if has_key(sorted, key) {
            let j = position(sorted, key);
            assert(key_at(sorted, key, j));
            assert(has_key(entries, sorted[j].0));
        }
    }
}

/// Sorting a sorted value changes nothing.
pub proof fn law_sorting_is_idempotent(before: JsonTree, after: JsonTree)
    requires
        sorted_form(before, after),
    ensures
        sorted_form(after, after),
    decreases before,
{
    match before {
        JsonTree::Array(items) => {
            let x = after->Array_0;
            assert forall|i: int| #![trigger x[i]] 0 <= i < x.len() implies sorted_form(
                x[i],
                x[i],
            ) by {
                law_sorting_is_idempotent(items[i], x[i]);
            }
        },
        JsonTree::Object(entries) => {
            let x = after->Object_0;
            assert forall|i: int| #![trigger x[i]] 0 <= i < x.len() implies keeps(
                x,
                x[i].0,
                x[i].1,
            ) && has_key(x, x[i].0) by {
                let p = choose|p: int| key_at(entries, x[i].0, p);
                lemma_kept_at(entries, x, p, i);
                law_sorting_is_idempotent(entries[p].1, x[i].1);
                assert(key_at(x, x[i].0, i) && sorted_form(x[i].1, x[i].1));
            }
        },
        _ => {},
    }
}

} // verus!
