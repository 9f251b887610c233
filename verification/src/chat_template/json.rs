//! JSON values, with objects that keep the order of insertion.

use vstd::prelude::*;

use crate::text::str_eq;

verus! {

/// `serde_json::Number`, which holds an integer or a float.
#[verifier::external_type_specification]
#[verifier::external_body]
pub struct ExNumber(serde_json::Number);

/// `Number::clone` gives the same number.
pub assume_specification[ <serde_json::Number as Clone>::clone ](
    number: &serde_json::Number,
) -> (copy: serde_json::Number)
    ensures
        copy == *number,
;

/// What a JSON value is: objects as their entries in order.
#[verifier::ext_equal]
pub enum JsonTree {
    /// `null`
    Null,
    /// `true` or `false`
    Bool(bool),
    /// A number.
    Number(serde_json::Number),
    /// A string.
    String(Seq<char>),
    /// An array.
    Array(Seq<JsonTree>),
    /// An object.
    Object(Seq<(Seq<char>, JsonTree)>),
}

/// A JSON value.
#[derive(Debug)]
pub enum Json {
    /// `null`
    Null,
    /// `true` or `false`
    Bool(bool),
    /// A number.
    Number(serde_json::Number),
    /// A string.
    String(String),
    /// An array.
    Array(Vec<Json>),
    /// An object.
    Object(JsonMap),
}

/// A JSON object. Its entries keep the order in which their keys were first
/// inserted; no key stands twice.
#[derive(Debug)]
pub struct JsonMap {
    entries: Vec<(String, Json)>,
}

spec fn tree_of(value: Json) -> JsonTree
    decreases value,
{
    match value {
        Json::Null => JsonTree::Null,
        Json::Bool(b) => JsonTree::Bool(b),
        Json::Number(n) => JsonTree::Number(n),
        Json::String(s) => JsonTree::String(s@),
        Json::Array(values) => JsonTree::Array(
            Seq::new(
                values.len() as nat,
                |i: int|
                    if 0 <= i < values@.len() {
                        tree_of(values@[i])
                    } else {
                        JsonTree::Null
                    },
            ),
        ),
        Json::Object(map) => JsonTree::Object(
            Seq::new(
                map.entries.len() as nat,
                |i: int|
                    if 0 <= i < map.entries@.len() {
                        (map.entries@[i].0@, tree_of(map.entries@[i].1))
                    } else {
                        (seq![], JsonTree::Null)
                    },
            ),
        ),
    }
}

impl View for Json {
    type V = JsonTree;

    closed spec fn view(&self) -> JsonTree {
        tree_of(*self)
    }
}

impl View for JsonMap {
    type V = Seq<(Seq<char>, JsonTree)>;

    closed spec fn view(&self) -> Seq<(Seq<char>, JsonTree)> {
        entry_trees(self.entries@)
    }
}

/// What the values are.
pub open spec fn trees(values: Seq<Json>) -> Seq<JsonTree> {
    Seq::new(values.len(), |i: int| values[i]@)
}

/// What the entries are.
pub open spec fn entry_trees(entries: Seq<(String, Json)>) -> Seq<(Seq<char>, JsonTree)> {
    Seq::new(entries.len(), |i: int| (entries[i].0@, entries[i].1@))
}

/// What a value is, by its kind.
pub broadcast proof fn lemma_tree(value: Json)
    ensures
        #[trigger] value@ == match value {
            Json::Null => JsonTree::Null,
            Json::Bool(b) => JsonTree::Bool(b),
            Json::Number(n) => JsonTree::Number(n),
            Json::String(s) => JsonTree::String(s@),
            Json::Array(values) => JsonTree::Array(trees(values@)),
            Json::Object(map) => JsonTree::Object(map@),
        },
{
    match value {
        Json::Array(values) => {
            assert(value@->Array_0 =~= trees(values@));
        },
        Json::Object(map) => {
            assert(value@->Object_0 =~= map@);
        },
        _ => {},
    }
}

/// No key stands twice.
pub open spec fn keys_distinct<V>(entries: Seq<(Seq<char>, V)>) -> bool {
    forall|i: int, j: int|
        #![trigger entries[i], entries[j]]
        0 <= i < j < entries.len() ==> entries[i].0 != entries[j].0
}

/// The key stands at `i`.
pub open spec fn key_at<V>(entries: Seq<(Seq<char>, V)>, key: Seq<char>, i: int) -> bool {
    0 <= i < entries.len() && entries[i].0 == key
}

/// The key stands somewhere.
pub open spec fn has_key<V>(entries: Seq<(Seq<char>, V)>, key: Seq<char>) -> bool {
    exists|i: int| key_at(entries, key, i)
}

/// Where the key stands.
pub open spec fn position<V>(entries: Seq<(Seq<char>, V)>, key: Seq<char>) -> int {
    choose|i: int| key_at(entries, key, i)
}

/// The value of a key.
pub open spec fn lookup<V>(entries: Seq<(Seq<char>, V)>, key: Seq<char>) -> Option<V> {
    if has_key(entries, key) {
        Some(entries[position(entries, key)].1)
    } else {
        None
    }
}

/// The entries with the key's value set: in its place if the key is there, at
/// the end otherwise.
pub open spec fn inserted<V>(
    entries: Seq<(Seq<char>, V)>,
    key: Seq<char>,
    value: V,
) -> Seq<(Seq<char>, V)> {
    if has_key(entries, key) {
        entries.update(position(entries, key), (key, value))
    } else {
        entries.push((key, value))
    }
}

/// The entries without the key: the last entry takes its place.
pub open spec fn removed<V>(entries: Seq<(Seq<char>, V)>, key: Seq<char>) -> Seq<(
    Seq<char>,
    V,
)> {
    if has_key(entries, key) {
        entries.update(position(entries, key), entries.last()).drop_last()
    } else {
        entries
    }
}

/// The entries with those of `more` inserted, one after the other.
pub open spec fn extended<V>(
    entries: Seq<(Seq<char>, V)>,
    more: Seq<(Seq<char>, V)>,
) -> Seq<(Seq<char>, V)>
    decreases more.len(),
{
    if more.len() == 0 {
        entries
    } else {
        inserted(extended(entries, more.drop_last()), more.last().0, more.last().1)
    }
}

/// Where keys are distinct, a key's place is the only one.
pub proof fn lemma_position<V>(entries: Seq<(Seq<char>, V)>, key: Seq<char>, i: int)
    requires
        keys_distinct(entries),
        key_at(entries, key, i),
    ensures
        has_key(entries, key),
        position(entries, key) == i,
{
    let j = position(entries, key);
    assert(key_at(entries, key, j));
}

/// Inserting keeps keys distinct.
pub proof fn lemma_inserted_distinct<V>(
    entries: Seq<(Seq<char>, V)>,
    key: Seq<char>,
    value: V,
)
    requires
        keys_distinct(entries),
    ensures
        keys_distinct(inserted(entries, key, value)),
{
    let after = inserted(entries, key, value);
    assert forall|i: int, j: int|
        #![trigger after[i], after[j]]
        0 <= i < j < after.len() implies after[i].0 != after[j].0 by {
        if !has_key(entries, key) {
            assert(!key_at(entries, key, i));
        }
    }
}

/// Removing keeps keys distinct.
pub proof fn lemma_removed_distinct<V>(entries: Seq<(Seq<char>, V)>, key: Seq<char>)
    requires
        keys_distinct(entries),
    ensures
        keys_distinct(removed(entries, key)),
        !has_key(removed(entries, key), key),
{
    if has_key(entries, key) {
        let p = position(entries, key);
        let n = entries.len() - 1;
        let after = removed(entries, key);
        if has_key(after, key) {
            let q = choose|q: int| key_at(after, key, q);
            let x = if q == p {
                n
            } else {
                q
            };
            lemma_position(entries, key, x);
        }
    }
}

/// After a key was inserted, it has its new value, and every other key has the
/// value that it had.
pub proof fn law_lookup_after_insert<V>(
    entries: Seq<(Seq<char>, V)>,
    key: Seq<char>,
    value: V,
    other: Seq<char>,
)
    requires
        keys_distinct(entries),
    ensures
        keys_distinct(inserted(entries, key, value)),
        lookup(inserted(entries, key, value), other) == if other == key {
            Some(value)
        } else {
            lookup(entries, other)
        },
{
    let after = inserted(entries, key, value);
    lemma_inserted_distinct(entries, key, value);
    if other == key {
        let p = if has_key(entries, key) {
            position(entries, key)
        } else {
            entries.len() as int
        };
        assert(key_at(after, key, p));
        lemma_position(after, key, p);
    } else if has_key(entries, other) {
        let p = position(entries, other);
        assert(key_at(entries, other, p));
        assert(key_at(after, other, p));
        lemma_position(after, other, p);
    } else if has_key(after, other) {
        let p = position(after, other);
        assert(key_at(after, other, p));
        assert(key_at(entries, other, p));
    }
}

/// After a key was removed, it has no value, and every other key has the value
/// that it had.
pub proof fn law_lookup_after_remove<V>(
    entries: Seq<(Seq<char>, V)>,
    key: Seq<char>,
    other: Seq<char>,
)
    requires
        keys_distinct(entries),
    ensures
        keys_distinct(removed(entries, key)),
        lookup(removed(entries, key), other) == if other == key {
            None
        } else {
            lookup(entries, other)
        },
{
    let after = removed(entries, key);
    lemma_removed_distinct(entries, key);
    if other != key && has_key(entries, key) {
        let p = position(entries, key);
        let n = entries.len() - 1;
        assert(key_at(entries, key, p));
        if has_key(entries, other) {
            let q = position(entries, other);
            assert(key_at(entries, other, q));
            let x = if q == n {
                p
            } else {
                q
            };
            assert(key_at(after, other, x));
            lemma_position(after, other, x);
        } else if has_key(after, other) {
            let q = position(after, other);
            assert(key_at(after, other, q));
            assert(key_at(
                entries,
                other,
                if q == p {
                    n
                } else {
                    q
                },
            ));
        }
    }
}

/// An entry's value is what its key has, where keys are distinct; a key that
/// stands nowhere has none.
pub proof fn law_lookup_of_entries<V>(entries: Seq<(Seq<char>, V)>, key: Seq<char>, i: int)
    requires
        keys_distinct(entries),
    ensures
        0 <= i < entries.len() ==> lookup(entries, entries[i].0) == Some(entries[i].1),
        lookup(entries, key) is None <==> forall|j: int|
            0 <= j < entries.len() ==> (#[trigger] entries[j]).0 != key,
        has_key(entries, key) <==> exists|j: int|
            0 <= j < entries.len() && (#[trigger] entries[j]).0 == key,
{
    if 0 <= i < entries.len() {
        lemma_position(entries, entries[i].0, i);
    }
    if has_key(entries, key) {
        let p = position(entries, key);
        assert(key_at(entries, key, p));
        assert(entries[p].0 == key);
    }
    assert forall|j: int| 0 <= j < entries.len() && (#[trigger] entries[j]).0 == key implies has_key(
        entries,
        key,
    ) by {
        assert(key_at(entries, key, j));
    }
}

/// A key that is there keeps its place when it is inserted again; a new one comes
/// last. All other entries stay where they are.
pub proof fn law_insert_keeps_order<V>(
    entries: Seq<(Seq<char>, V)>,
    key: Seq<char>,
    value: V,
    i: int,
)
    requires
        keys_distinct(entries),
        0 <= i < entries.len(),
    ensures
        inserted(entries, key, value).len() == if has_key(entries, key) {
            entries.len()
        } else {
            entries.len() + 1
        },
        entries[i].0 != key ==> inserted(entries, key, value)[i] == entries[i],
        entries[i].0 == key ==> inserted(entries, key, value)[i] == (key, value),
        !has_key(entries, key) ==> inserted(entries, key, value).last() == (key, value),
{
    if has_key(entries, key) {
        assert(key_at(entries, key, position(entries, key)));
    }
    if entries[i].0 == key {
        assert(key_at(entries, key, i));
        lemma_position(entries, key, i);
    }
}

/// The last entry takes the place of one that is removed; all other entries stay
/// where they are. A key that is not there is not removed.
pub proof fn law_removal_moves_the_last<V>(entries: Seq<(Seq<char>, V)>, key: Seq<char>, i: int)
    requires
        keys_distinct(entries),
        0 <= i < entries.len(),
    ensures
        !has_key(entries, key) ==> removed(entries, key) == entries,
        has_key(entries, key) ==> removed(entries, key).len() == entries.len() - 1,
        entries[i].0 == key && i < entries.len() - 1 ==> removed(entries, key)[i] == entries.last(),
        entries[i].0 != key && i < entries.len() - 1 ==> removed(entries, key)[i] == entries[i],
{
    if has_key(entries, key) {
        assert(key_at(entries, key, position(entries, key)));
    }
    if entries[i].0 == key {
        assert(key_at(entries, key, i));
        lemma_position(entries, key, i);
    }
}

/// What stands last with a key is the value of an entry with it behind which no
/// other has it.
pub proof fn law_last_value<V>(entries: Seq<(Seq<char>, V)>, key: Seq<char>, i: int)
    ensures
        0 <= i < entries.len() && entries[i].0 == key && (forall|j: int|
            i < j < entries.len() ==> (#[trigger] entries[j]).0 != key) ==> last_value(entries, key)
            == Some(entries[i].1),
        last_value(entries, key) is None <==> forall|j: int|
            0 <= j < entries.len() ==> (#[trigger] entries[j]).0 != key,
    decreases entries.len(),
{
    if entries.len() > 0 {
        let shorter = entries.drop_last();
        law_last_value(shorter, key, i);
        assert(forall|j: int| 0 <= j < shorter.len() ==> #[trigger] shorter[j] == entries[j]);
        assert(entries[entries.len() - 1] == entries.last());
        if entries.last().0 != key {
            assert forall|j: int|
                0 <= j < entries.len() && last_value(shorter, key) is None implies (
            #[trigger] entries[j]).0 != key by {
                if j < shorter.len() {
                    assert(shorter[j].0 != key);
                }
            }
        }
    }
}

/// The value that stands last with a key.
pub open spec fn last_value<V>(entries: Seq<(Seq<char>, V)>, key: Seq<char>) -> Option<V>
    decreases entries.len(),
{
    if entries.len() == 0 {
        None
    } else if entries.last().0 == key {
        Some(entries.last().1)
    } else {
        last_value(entries.drop_last(), key)
    }
}

/// After more entries were inserted, a key has the value that stands last with
/// it among them; a key that is not among them has the value that it had.
pub proof fn law_lookup_after_extend<V>(
    entries: Seq<(Seq<char>, V)>,
    more: Seq<(Seq<char>, V)>,
    key: Seq<char>,
)
    requires
        keys_distinct(entries),
    ensures
        keys_distinct(extended(entries, more)),
        lookup(extended(entries, more), key) == match last_value(more, key) {
            Some(value) => Some(value),
            None => lookup(entries, key),
        },
    decreases more.len(),
{
    if more.len() > 0 {
        law_lookup_after_extend(entries, more.drop_last(), key);
        law_lookup_after_insert(
            extended(entries, more.drop_last()),
            more.last().0,
            more.last().1,
            key,
        );
    }
}

/// What stands last with a key in two lists, one after the other.
pub proof fn lemma_last_value_add<V>(
    first: Seq<(Seq<char>, V)>,
    second: Seq<(Seq<char>, V)>,
    key: Seq<char>,
)
    ensures
        last_value(first + second, key) == match last_value(second, key) {
            Some(value) => Some(value),
            None => last_value(first, key),
        },
    decreases second.len(),
{
    if second.len() > 0 {
        lemma_last_value_add(first, second.drop_last(), key);
        assert((first + second).drop_last() =~= first + second.drop_last());
    } else {
        assert(first + second =~= first);
    }
}

impl JsonMap {
    #[verifier::type_invariant]
    spec fn well_formed(self) -> bool {
        keys_distinct(self@)
    }

    /// An object without entries.
    pub fn new() -> (map: Self)
        ensures
            map@ == Seq::<(Seq<char>, JsonTree)>::empty(),
    {
        let map = JsonMap { entries: Vec::new() };
        map
    }

    /// The number of entries. Keys are distinct.
    pub fn len(&self) -> (n: usize)
        ensures
            n == self@.len(),
            keys_distinct(self@),
    {
        proof {
            use_type_invariant(self);
        }
        self.entries.len()
    }

    /// The entry at `i`. Keys are distinct.
    pub fn entry(&self, i: usize) -> (entry: (&String, &Json))
        requires
            i < self@.len(),
        ensures
            entry.0@ == self@[i as int].0,
            entry.1@ == self@[i as int].1,
            keys_distinct(self@),
    {
        proof {
            use_type_invariant(self);
        }
        let pair = &self.entries[i];
        (&pair.0, &pair.1)
    }

    /// The entries, in order. Keys are distinct.
    pub fn into_entries(self) -> (entries: Vec<(String, Json)>)
        ensures
            entry_trees(entries@) == self@,
            keys_distinct(self@),
    {
        proof {
            use_type_invariant(&self);
        }
        self.entries
    }

    /// The place of a key.
    fn find(&self, key: &str) -> (at: Option<usize>)
        ensures
            match at {
                Some(i) => key_at(self@, key@, i as int) && position(self@, key@) == i && has_key(
                    self@,
                    key@,
                ),
                None => !has_key(self@, key@),
            },
    {
        let mut i: usize = 0;
        while i < self.entries.len()
            invariant
                i <= self.entries.len(),
                forall|j: int| 0 <= j < i ==> !#[trigger] key_at(self@, key@, j),
            decreases self.entries.len() - i,
        {
            if str_eq(self.entries[i].0.as_str(), key) {
                proof {
                    use_type_invariant(self);
                    lemma_position(self@, key@, i as int);
                }
                return Some(i);
            }
            i += 1;
        }
        None
    }

    /// The value of a key. Keys are distinct.
    pub fn get(&self, key: &str) -> (value: Option<&Json>)
        ensures
            keys_distinct(self@),
            match value {
                Some(v) => lookup(self@, key@) == Some(v@),
                None => lookup(self@, key@) is None,
            },
    {
        proof {
            use_type_invariant(self);
        }
        match self.find(key) {
            Some(i) => Some(&self.entries[i].1),
            None => None,
        }
    }

    /// Whether the key is there.
    pub fn contains_key(&self, key: &str) -> (r: bool)
        ensures
            r == has_key(self@, key@),
    {
        match self.find(key) {
            Some(_) => true,
            None => false,
        }
    }

    /// Sets the value of a key.
    pub fn insert(&mut self, key: String, value: Json)
        ensures
            final(self)@ == inserted(old(self)@, key@, value@),
    {
        let at = self.find(key.as_str());
        let mut entries: Vec<(String, Json)> = Vec::new();
        let ghost before = self@;
        proof {
            use_type_invariant(&*self);
            lemma_inserted_distinct(before, key@, value@);
        }
        std::mem::swap(&mut entries, &mut self.entries);
        let ghost pair = (key, value);
        match at {
            Some(i) => {
                entries.set(i, (key, value));
            },
            None => {
                entries.push((key, value));
            },
        }
        assert(entry_trees(entries@) =~= inserted(before, pair.0@, pair.1@));
        self.entries = entries;
    }

    /// Removes a key and gives its value; the last entry takes its place.
    pub fn remove(&mut self, key: &str) -> (value: Option<Json>)
        ensures
            final(self)@ == removed(old(self)@, key@),
            match value {
                Some(v) => lookup(old(self)@, key@) == Some(v@),
                None => lookup(old(self)@, key@) is None,
            },
    {
        let at = self.find(key);
        let mut entries: Vec<(String, Json)> = Vec::new();
        let ghost before = self@;
        proof {
            use_type_invariant(&*self);
            lemma_removed_distinct(before, key@);
        }
        match at {
            Some(i) => {
                std::mem::swap(&mut entries, &mut self.entries);
                let pair = entries.swap_remove(i);
                assert(entry_trees(entries@) =~= removed(before, key@));
                self.entries = entries;
                Some(pair.1)
            },
            None => None,
        }
    }

    /// Inserts the entries of `more`, one after the other.
    pub fn extend(&mut self, more: JsonMap)
        ensures
            final(self)@ == extended(old(self)@, more@),
    {
        let ghost before = self@;
        let ghost all = more@;
        let entries = more.entries;
        let ghost list = entries@;
        for pair in it: entries
            invariant
                it.seq() == list,
                all == entry_trees(list),
                self@ == extended(before, all.take(it.index() as int)),
        {
            let ghost k = it.index() as int;
            proof {
                assert(all.take(k + 1).drop_last() =~= all.take(k));
            }
            self.insert(pair.0, pair.1);
        }
        assert(all.take(all.len() as int) =~= all);
    }
}

/// The items of an array are smaller than it.
pub proof fn lemma_item_smaller(value: Json, values: Vec<Json>, i: int)
    requires
        value == Json::Array(values),
        0 <= i < values.len(),
    ensures
        decreases_to!(value@ => values@[i]@),
{
    broadcast use lemma_tree;

    let items = trees(values@);
    assert(items[i] == values@[i]@);
    assert(decreases_to!(value@ => value@->Array_0));
}

/// The values of an object are smaller than it.
pub proof fn lemma_entry_smaller(value: Json, map: JsonMap, i: int)
    requires
        value == Json::Object(map),
        0 <= i < map@.len(),
    ensures
        decreases_to!(value@ => map@[i].1),
{
    broadcast use lemma_tree;

    assert(decreases_to!(value@ => value@->Object_0));
}

/// A copy of the value.
fn copied(value: &Json) -> (copy: Json)
    ensures
        copy@ == value@,
    decreases value@,
{
    broadcast use lemma_tree;

    match value {
        Json::Null => Json::Null,
        Json::Bool(b) => Json::Bool(*b),
        Json::Number(n) => Json::Number(n.clone()),
        Json::String(s) => Json::String(s.clone()),
        Json::Array(values) => {
            let mut copies: Vec<Json> = Vec::new();
            let mut i: usize = 0;
            while i < values.len()
                invariant
                    i <= values.len(),
                    *value == Json::Array(*values),
                    copies.len() == i,
                    forall|j: int| 0 <= j < i ==> (#[trigger] copies@[j])@ == values@[j]@,
                decreases values.len() - i,
            {
                proof {
                    lemma_item_smaller(*value, *values, i as int);
                }
                copies.push(copied(&values[i]));
                i += 1;
            }
            assert(trees(copies@) =~= trees(values@));
            Json::Array(copies)
        },
        Json::Object(map) => {
            let mut entries: Vec<(String, Json)> = Vec::new();
            let mut i: usize = 0;
            while i < map.entries.len()
                invariant
                    i <= map.entries.len(),
                    *value == Json::Object(*map),
                    entries.len() == i,
                    forall|j: int|
                        0 <= j < i ==> (#[trigger] entries@[j]).0@ == map.entries@[j].0@
                            && entries@[j].1@ == map.entries@[j].1@,
                decreases map.entries.len() - i,
            {
                let pair = &map.entries[i];
                proof {
                    lemma_entry_smaller(*value, *map, i as int);
                }
                entries.push((pair.0.clone(), copied(&pair.1)));
                i += 1;
            }
            proof {
                use_type_invariant(map);
                assert(entry_trees(entries@) =~= map@);
            }
            Json::Object(JsonMap { entries })
        },
    }
}

impl Clone for Json {
    fn clone(&self) -> (copy: Self)
        ensures
            copy@ == self@,
    {
        copied(self)
    }
}

impl Clone for JsonMap {
    fn clone(&self) -> (copy: Self)
        ensures
            copy@ == self@,
    {
        let mut entries: Vec<(String, Json)> = Vec::new();
        let mut i: usize = 0;
        while i < self.entries.len()
            invariant
                i <= self.entries.len(),
                entries.len() == i,
                forall|j: int|
                    0 <= j < i ==> (#[trigger] entries@[j]).0@ == self.entries@[j].0@
                        && entries@[j].1@ == self.entries@[j].1@,
            decreases self.entries.len() - i,
        {
            let pair = &self.entries[i];
            entries.push((pair.0.clone(), copied(&pair.1)));
            i += 1;
        }
        proof {
            use_type_invariant(self);
            assert(entry_trees(entries@) =~= self@);
        }
        JsonMap { entries }
    }
}

} // verus!
