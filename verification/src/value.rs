//! The untyped container: string keys with string values, in the order in
//! which the keys were first inserted.

use crate::structured::{StructuredValue, Tree};
use indexmap::IndexMap;
use vstd::prelude::*;

verus! {

/// `indexmap::IndexMap`, a hash map that keeps its pairs in the order in
/// which their keys were inserted. Nothing is known of what is inside but
/// through [`map_entries`].
#[verifier::external_type_specification]
#[verifier::external_body]
#[verifier::reject_recursive_types(K)]
#[verifier::reject_recursive_types(V)]
#[verifier::reject_recursive_types(S)]
pub struct ExIndexMap<K, V, S>(IndexMap<K, V, S>);

/// The pairs that an `IndexMap` of strings holds, in the map's own order:
/// the pair at index `i` is the `i`-th of the sequence.
pub uninterp spec fn map_entries(m: &IndexMap<String, String>) -> Seq<(Seq<char>, Seq<char>)>;

/// The index of the first pair of `entries` whose key is `key`.
pub open spec fn index_of_key(entries: Seq<(Seq<char>, Seq<char>)>, key: Seq<char>) -> Option<int>
    decreases entries.len(),
{
    if entries.len() == 0 {
        None
    } else if index_of_key(entries.drop_last(), key) is Some {
        index_of_key(entries.drop_last(), key)
    } else if entries.last().0 == key {
        Some(entries.len() - 1)
    } else {
        None
    }
}

/// The value that `entries` holds for `key`.
pub open spec fn lookup(entries: Seq<(Seq<char>, Seq<char>)>, key: Seq<char>) -> Option<Seq<char>> {
    match index_of_key(entries, key) {
        Some(i) => Some(entries[i].1),
        None => None,
    }
}

/// `entries` after `key` was given `value`: a key that is there keeps its
/// place and has its value replaced, a new key goes last.
pub open spec fn inserted(
    entries: Seq<(Seq<char>, Seq<char>)>,
    key: Seq<char>,
    value: Seq<char>,
) -> Seq<(Seq<char>, Seq<char>)> {
    match index_of_key(entries, key) {
        Some(i) => entries.update(i, (key, value)),
        None => entries.push((key, value)),
    }
}

/// Whether no key occurs twice in `entries`.
pub open spec fn distinct_keys(entries: Seq<(Seq<char>, Seq<char>)>) -> bool {
    forall|i: int, j: int| 0 <= i < j < entries.len() ==> entries[i].0 != entries[j].0
}

/// `IndexMap::new` makes a map without pairs.
#[verifier::external_body]
fn map_new() -> (m: IndexMap<String, String>)
    ensures
        map_entries(&m) == Seq::<(Seq<char>, Seq<char>)>::empty(),
{
    IndexMap::new()
}

/// `IndexMap::len` is the number of pairs in the map.
#[verifier::external_body]
fn map_len(m: &IndexMap<String, String>) -> (n: usize)
    ensures
        n == map_entries(m).len(),
{
    m.len()
}

/// `IndexMap::insert` replaces the value of a key that the map holds, leaving
/// the key in its place and returning the value it had; a key that the map
/// does not hold goes last, with `None` returned.
#[verifier::external_body]
fn map_insert(m: &mut IndexMap<String, String>, key: String, value: String) -> (previous: Option<
    String,
>)
    ensures
        map_entries(final(m)) == inserted(map_entries(old(m)), key@, value@),
        match previous {
            Some(p) => lookup(map_entries(old(m)), key@) == Some(p@),
            None => lookup(map_entries(old(m)), key@) is None,
        },
{
    m.insert(key, value)
}

/// `IndexMap::get` returns the value stored for a key, `None` where the map
/// does not hold the key.
#[verifier::external_body]
fn map_get<'a>(m: &'a IndexMap<String, String>, key: &str) -> (r: Option<&'a String>)
    ensures
        match r {
            Some(v) => lookup(map_entries(m), key@) == Some(v@),
            None => lookup(map_entries(m), key@) is None,
        },
{
    m.get(key)
}

/// `IndexMap::get_index` returns the pair at an index below the map's
/// length, `None` for any other index.
#[verifier::external_body]
fn map_get_index<'a>(m: &'a IndexMap<String, String>, index: usize) -> (r: Option<
    (&'a String, &'a String),
>)
    ensures
        match r {
            Some((k, v)) => index < map_entries(m).len() && map_entries(m)[index as int] == (
                k@,
                v@,
            ),
            None => index >= map_entries(m).len(),
        },
{
    m.get_index(index)
}

/// `IndexMap::clone` makes a map with the same pairs in the same order.
#[verifier::external_body]
fn map_clone(m: &IndexMap<String, String>) -> (r: IndexMap<String, String>)
    ensures
        map_entries(&r) == map_entries(m),
{
    m.clone()
}

/// The first index of a key is the only one where keys are distinct, and a
/// key that has no index is nowhere in the sequence.
pub proof fn lemma_index_of_key(entries: Seq<(Seq<char>, Seq<char>)>, key: Seq<char>)
    ensures
        match index_of_key(entries, key) {
            Some(i) => 0 <= i < entries.len() && entries[i].0 == key && forall|j: int|
                0 <= j < i ==> entries[j].0 != key,
            None => forall|j: int| 0 <= j < entries.len() ==> entries[j].0 != key,
        },
    decreases entries.len(),
{
    if entries.len() > 0 {
        let front = entries.drop_last();
        lemma_index_of_key(front, key);
        assert(forall|j: int| 0 <= j < front.len() ==> front[j] == entries[j]);
        match index_of_key(front, key) {
            Some(i) => {
                assert(front[i].0 == key);
            },
            None => {
                assert forall|j: int| 0 <= j < entries.len() - 1 implies entries[j].0 != key by {
                    assert(front[j].0 != key);
                }
            },
        }
    }
}

/// Giving a key a value keeps the keys distinct, makes the value the one that
/// is found for the key, and leaves what is found for every other key.
pub proof fn lemma_inserted(
    entries: Seq<(Seq<char>, Seq<char>)>,
    key: Seq<char>,
    value: Seq<char>,
    other: Seq<char>,
)
    requires
        distinct_keys(entries),
    ensures
        distinct_keys(inserted(entries, key, value)),
        lookup(inserted(entries, key, value), key) == Some(value),
        other != key ==> lookup(inserted(entries, key, value), other) == lookup(entries, other),
{
    let after = inserted(entries, key, value);
    lemma_index_of_key(entries, key);
    lemma_index_of_key(entries, other);
    lemma_index_of_key(after, key);
    lemma_index_of_key(after, other);
    match index_of_key(entries, key) {
        Some(i) => {
            assert(after[i].0 == key);
        },
        None => {
            assert(after[entries.len() as int].0 == key);
        },
    }
    if other != key {
        match index_of_key(entries, other) {
            Some(k) => {
                assert(after[k] == entries[k]);
            },
            None => {},
        }
    }
}

/// Flexible representation of environment variables: string keys with string
/// values. No key occurs twice, and the pairs stay in the order in which
/// their keys were first inserted.
#[derive(Debug, PartialEq, Eq)]
pub struct Value {
    map: IndexMap<String, String>,
}

impl View for Value {
    type V = Seq<(Seq<char>, Seq<char>)>;

    /// The pairs of the container, first inserted first.
    closed spec fn view(&self) -> Seq<(Seq<char>, Seq<char>)> {
        map_entries(&self.map)
    }
}

impl Default for Value {
    /// An empty [`Value`].
    fn default() -> (r: Value)
        ensures
            r@ == Seq::<(Seq<char>, Seq<char>)>::empty(),
            r.wf(),
    {
        Value::new()
    }
}

impl Clone for Value {
    fn clone(&self) -> (r: Value)
        ensures
            r@ == self@,
    {
        Value { map: map_clone(&self.map) }
    }
}

impl Value {
    /// Whether no key occurs twice. Every container that this library
    /// makes is well formed, and [`Value::insert`] keeps it so.
    pub open spec fn wf(&self) -> bool {
        distinct_keys(self@)
    }

    /// Create an empty [`Value`].
    pub fn new() -> (r: Value)
        ensures
            r@ == Seq::<(Seq<char>, Seq<char>)>::empty(),
            r.wf(),
    {
        Value { map: map_new() }
    }

    /// The number of pairs.
    pub fn len(&self) -> (n: usize)
        ensures
            n == self@.len(),
    {
        map_len(&self.map)
    }

    /// Whether the container holds no pair.
    pub fn is_empty(&self) -> (r: bool)
        ensures
            r == (self@.len() == 0),
    {
        map_len(&self.map) == 0
    }

    /// Gives `key` the value `value` and returns the value that the key had.
    /// A key that is there keeps its place; a new key goes last.
    pub fn insert(&mut self, key: String, value: String) -> (previous: Option<String>)
        ensures
            final(self)@ == inserted(old(self)@, key@, value@),
            old(self).wf() ==> final(self).wf(),
            match previous {
                Some(p) => lookup(old(self)@, key@) == Some(p@),
                None => lookup(old(self)@, key@) is None,
            },
    {
        proof {
            if self.wf() {
                lemma_inserted(self@, key@, value@, key@);
            }
        }
        map_insert(&mut self.map, key, value)
    }

    /// The value stored for `key`.
    pub fn get(&self, key: &str) -> (r: Option<&String>)
        ensures
            match r {
                Some(v) => lookup(self@, key@) == Some(v@),
                None => lookup(self@, key@) is None,
            },
    {
        map_get(&self.map, key)
    }

    /// Whether a value is stored for `key`.
    pub fn contains_key(&self, key: &str) -> (r: bool)
        ensures
            r == lookup(self@, key@) is Some,
    {
        map_get(&self.map, key).is_some()
    }

    /// The pair at `index`, counting from the first inserted.
    pub fn get_index(&self, index: usize) -> (r: Option<(&String, &String)>)
        ensures
            match r {
                Some((k, v)) => index < self@.len() && self@[index as int] == (k@, v@),
                None => index >= self@.len(),
            },
    {
        map_get_index(&self.map, index)
    }

    /// The container that holds `pairs`, inserted one after the other: of two
    /// pairs with one key the later gives the value, the earlier the place.
    pub fn from_iter(pairs: Vec<(String, String)>) -> (r: Value)
        ensures
            r@ == collected(pair_views(pairs@)),
            r.wf(),
    {
        let mut value = Value::new();
        let mut i: usize = 0;
        while i < pairs.len()
            invariant
                i <= pairs.len(),
                value.wf(),
                value@ == collected(pair_views(pairs@).take(i as int)),
            decreases pairs.len() - i,
        {
            let ghost views = pair_views(pairs@);
            assert(views.take(i + 1).drop_last() =~= views.take(i as int));
            value.insert(pairs[i].0.clone(), pairs[i].1.clone());
            i += 1;
        }
        assert(pair_views(pairs@).take(i as int) =~= pair_views(pairs@));
        value
    }

    /// The pairs, first inserted first.
    pub fn pairs(&self) -> (r: Vec<(String, String)>)
        ensures
            pair_views(r@) == self@,
    {
        let mut pairs: Vec<(String, String)> = Vec::new();
        let n: usize = self.len();
        let mut i: usize = 0;
        while i < n
            invariant
                n == self@.len(),
                i <= n,
                pairs.len() == i,
                forall|j: int| 0 <= j < i ==> ((#[trigger] pairs@[j]).0@, pairs@[j].1@) == self@[j],
            decreases n - i,
        {
            match self.get_index(i) {
                Some((k, v)) => {
                    pairs.push((k.clone(), v.clone()));
                },
                None => {},
            }
            i += 1;
        }
        assert(pair_views(pairs@) =~= self@);
        pairs
    }

    /// The compound that has one string field for each pair, in order.
    pub fn to_structured(&self) -> (r: StructuredValue)
        ensures
            r@ == entries_tree(self@),
    {
        let mut fields: Vec<(String, StructuredValue)> = Vec::new();
        let n: usize = self.len();
        let mut i: usize = 0;
        while i < n
            invariant
                n == self@.len(),
                i <= n,
                fields.len() == i,
                forall|j: int|
                    0 <= j < i ==> (#[trigger] fields@[j]).0@ == self@[j].0 && (
                    fields@[j].1 matches StructuredValue::Str(s) && s@ == self@[j].1),
            decreases n - i,
        {
            match self.get_index(i) {
                Some((k, v)) => {
                    fields.push((k.clone(), StructuredValue::Str(v.clone())));
                },
                None => {},
            }
            i += 1;
        }
        let r = StructuredValue::Compound(fields);
        proof {
            let made = r@->Compound_0;
            let wanted = entries_tree(self@)->Compound_0;
            assert(made.len() == wanted.len());
            assert forall|j: int| 0 <= j < made.len() implies made[j] == wanted[j] by {
                assert(fields@[j].0@ == self@[j].0);
                assert(made[j] == (fields@[j].0@, fields@[j].1@));
            }
            assert(made =~= wanted);
        }
        r
    }
}

/// Pairs of strings as pairs of texts.
pub open spec fn pair_views(pairs: Seq<(String, String)>) -> Seq<(Seq<char>, Seq<char>)> {
    pairs.map_values(|p: (String, String)| (p.0@, p.1@))
}

/// What a container holds after `pairs` were inserted into an empty one, in
/// order.
pub open spec fn collected(pairs: Seq<(Seq<char>, Seq<char>)>) -> Seq<(Seq<char>, Seq<char>)>
    decreases pairs.len(),
{
    if pairs.len() == 0 {
        Seq::empty()
    } else {
        inserted(collected(pairs.drop_last()), pairs.last().0, pairs.last().1)
    }
}

/// The compound that has one string field for each of `entries`, in order.
pub open spec fn entries_tree(entries: Seq<(Seq<char>, Seq<char>)>) -> Tree {
    Tree::Compound(entries.map_values(|entry: (Seq<char>, Seq<char>)| (entry.0, Tree::Str(entry.1))))
}

} // verus!
