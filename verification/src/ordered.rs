//! The insertion-ordered maps of the configuration store (`indexmap::IndexMap`
//! with `String` keys), declared for Verus. What a map holds is named as a
//! sequence of key/value pairs in the map's order; each operation that the
//! library performs on a map states what it does to that sequence.
use indexmap::IndexMap;
use vstd::prelude::*;

use crate::model::{Config, Entry, WorktreeOverrides};

verus! {

/// `indexmap::IndexMap`, declared so that the store can hold it; what a map
/// holds is named below.
#[verifier::external_type_specification]
#[verifier::external_body]
#[verifier::reject_recursive_types(K)]
#[verifier::reject_recursive_types(V)]
#[verifier::reject_recursive_types(S)]
pub struct ExIndexMap<K, V, S>(IndexMap<K, V, S>);

/// The key/value pairs of an entry map, in the map's order.
pub uninterp spec fn entry_items(m: IndexMap<String, Entry>) -> Seq<(Seq<char>, Entry)>;

/// The key/value pairs of a worktree map, in the map's order.
pub uninterp spec fn worktree_items(m: IndexMap<String, WorktreeOverrides>) -> Seq<
    (Seq<char>, WorktreeOverrides),
>;

/// The key/value pairs of a config map, in the map's order.
pub uninterp spec fn config_items(m: IndexMap<String, Config>) -> Seq<(Seq<char>, Config)>;

/// The position of the first pair whose key is `key`, or -1.
pub open spec fn index_of_key<V>(items: Seq<(Seq<char>, V)>, key: Seq<char>) -> int
    decreases items.len(),
{
    if items.len() == 0 {
        -1
    } else {
        let i = index_of_key(items.drop_last(), key);
        if i >= 0 {
            i
        } else if items.last().0 == key {
            items.len() - 1
        } else {
            -1
        }
    }
}

/// The keys, in order.
pub open spec fn keys_of<V>(items: Seq<(Seq<char>, V)>) -> Seq<Seq<char>> {
    items.map_values(|p: (Seq<char>, V)| p.0)
}

/// Whether some pair has key `key`.
pub open spec fn has_key<V>(items: Seq<(Seq<char>, V)>, key: Seq<char>) -> bool {
    index_of_key(items, key) >= 0
}

/// The value stored for `key`.
pub open spec fn lookup<V>(items: Seq<(Seq<char>, V)>, key: Seq<char>) -> Option<V> {
    let i = index_of_key(items, key);
    if i >= 0 {
        Some(items[i].1)
    } else {
        None
    }
}

/// The pairs after `IndexMap::insert`: an existing key keeps its place and
/// takes the new value; a new key goes last.
pub open spec fn inserted<V>(items: Seq<(Seq<char>, V)>, key: Seq<char>, value: V) -> Seq<
    (Seq<char>, V),
> {
    let i = index_of_key(items, key);
    if i >= 0 {
        items.update(i, (items[i].0, value))
    } else {
        items.push((key, value))
    }
}

/// The pairs after `IndexMap::shift_remove`: the pair of `key` is removed and
/// the rest keep their order.
pub open spec fn removed<V>(items: Seq<(Seq<char>, V)>, key: Seq<char>) -> Seq<(Seq<char>, V)> {
    let i = index_of_key(items, key);
    if i >= 0 {
        items.remove(i)
    } else {
        items
    }
}

pub proof fn lemma_index_of_key<V>(items: Seq<(Seq<char>, V)>, key: Seq<char>)
    ensures
        -1 <= index_of_key(items, key) < items.len(),
        index_of_key(items, key) >= 0 ==> items[index_of_key(items, key)].0 == key,
        index_of_key(items, key) >= 0 ==> forall|j: int|
            0 <= j < index_of_key(items, key) ==> items[j].0 != key,
        index_of_key(items, key) < 0 ==> forall|j: int| 0 <= j < items.len() ==> items[j].0 != key,
    decreases items.len(),
{
    if items.len() > 0 {
        let init = items.drop_last();
        lemma_index_of_key(init, key);
        assert forall|j: int| 0 <= j < init.len() implies init[j] == items[j] by {}
    }
}

/// The first pair with key `key` is at position `i`.
pub proof fn lemma_index_of_key_at<V>(items: Seq<(Seq<char>, V)>, key: Seq<char>, i: int)
    requires
        0 <= i < items.len(),
        items[i].0 == key,
        forall|j: int| 0 <= j < i ==> items[j].0 != key,
    ensures
        index_of_key(items, key) == i,
{
    lemma_index_of_key(items, key);
}

/// Inserting under a key that is present replaces its value in place, and
/// the key stays where it was.
pub proof fn lemma_inserted_present<V>(items: Seq<(Seq<char>, V)>, key: Seq<char>, value: V)
    requires
        has_key(items, key),
    ensures
        inserted(items, key, value) == items.update(
            index_of_key(items, key),
            (items[index_of_key(items, key)].0, value),
        ),
        index_of_key(inserted(items, key, value), key) == index_of_key(items, key),
        has_key(inserted(items, key, value), key),
        lookup(inserted(items, key, value), key) == Some(value),
{
    lemma_index_of_key(items, key);
    let i = index_of_key(items, key);
    let r = inserted(items, key, value);
    assert forall|j: int| 0 <= j < i implies r[j].0 != key by {
        assert(r[j] == items[j]);
    }
    lemma_index_of_key_at(r, key, i);
}

/// Inserting under a key that is absent appends the pair.
pub proof fn lemma_inserted_absent<V>(items: Seq<(Seq<char>, V)>, key: Seq<char>, value: V)
    requires
        !has_key(items, key),
    ensures
        inserted(items, key, value) == items.push((key, value)),
        index_of_key(inserted(items, key, value), key) == items.len(),
        lookup(inserted(items, key, value), key) == Some(value),
{
    lemma_index_of_key(items, key);
    let r = items.push((key, value));
    assert forall|j: int| 0 <= j < items.len() implies r[j].0 != key by {
        assert(r[j] == items[j]);
    }
    lemma_index_of_key_at(r, key, items.len() as int);
}

/// `IndexMap::new` for entry maps: an empty map.
#[verifier::external_body]
pub(crate) fn entry_map_new() -> (m: IndexMap<String, Entry>)
    ensures
        entry_items(m) == Seq::<(Seq<char>, Entry)>::empty(),
{
    IndexMap::new()
}

/// `IndexMap::len` for entry maps: the number of pairs.
#[verifier::external_body]
pub(crate) fn entry_map_len(m: &IndexMap<String, Entry>) -> (n: usize)
    ensures
        n == entry_items(*m).len(),
{
    m.len()
}

/// `IndexMap::get_index` for entry maps: the pair at position `i`.
#[verifier::external_body]
pub(crate) fn entry_map_get_index(m: &IndexMap<String, Entry>, i: usize) -> (r: Option<(&String, &Entry)>)
    ensures
        r is Some <==> i < entry_items(*m).len(),
        r matches Some(p) ==> p.0@ == entry_items(*m)[i as int].0 && *p.1 == entry_items(
            *m,
        )[i as int].1 && index_of_key(entry_items(*m), p.0@) == i,
{
    m.get_index(i)
}

/// `IndexMap::get` for entry maps: the value stored for `key`.
#[verifier::external_body]
pub(crate) fn entry_map_get<'a>(m: &'a IndexMap<String, Entry>, key: &str) -> (r: Option<&'a Entry>)
    ensures
        r is Some <==> has_key(entry_items(*m), key@),
        r matches Some(v) ==> Some(*v) == lookup(entry_items(*m), key@),
{
    m.get(key)
}

/// `IndexMap::insert` for entry maps; gives back the value it replaced.
#[verifier::external_body]
pub(crate) fn entry_map_insert(m: &mut IndexMap<String, Entry>, key: String, value: Entry) -> (r: Option<
    Entry,
>)
    ensures
        entry_items(*final(m)) == inserted(entry_items(*old(m)), key@, value),
        r == lookup(entry_items(*old(m)), key@),
{
    m.insert(key, value)
}

/// `IndexMap::shift_remove` for entry maps; gives back the value removed.
#[verifier::external_body]
pub(crate) fn entry_map_shift_remove(m: &mut IndexMap<String, Entry>, key: &str) -> (r: Option<Entry>)
    ensures
        entry_items(*final(m)) == removed(entry_items(*old(m)), key@),
        r == lookup(entry_items(*old(m)), key@),
{
    m.shift_remove(key)
}

/// `IndexMap::new` for worktree maps: an empty map.
#[verifier::external_body]
pub(crate) fn worktree_map_new() -> (m: IndexMap<String, WorktreeOverrides>)
    ensures
        worktree_items(m) == Seq::<(Seq<char>, WorktreeOverrides)>::empty(),
{
    IndexMap::new()
}

/// `IndexMap::len` for worktree maps: the number of pairs.
#[verifier::external_body]
pub(crate) fn worktree_map_len(m: &IndexMap<String, WorktreeOverrides>) -> (n: usize)
    ensures
        n == worktree_items(*m).len(),
{
    m.len()
}

/// `IndexMap::get` for worktree maps: the value stored for `key`.
#[verifier::external_body]
pub(crate) fn worktree_map_get<'a>(m: &'a IndexMap<String, WorktreeOverrides>, key: &str) -> (r: Option<
    &'a WorktreeOverrides,
>)
    ensures
        r is Some <==> has_key(worktree_items(*m), key@),
        r matches Some(v) ==> Some(*v) == lookup(worktree_items(*m), key@),
{
    m.get(key)
}

/// `IndexMap::new` for config maps: an empty map.
#[verifier::external_body]
pub(crate) fn config_map_new() -> (m: IndexMap<String, Config>)
    ensures
        config_items(m) == Seq::<(Seq<char>, Config)>::empty(),
{
    IndexMap::new()
}

/// `IndexMap::len` for config maps: the number of pairs.
#[verifier::external_body]
pub(crate) fn config_map_len(m: &IndexMap<String, Config>) -> (n: usize)
    ensures
        n == config_items(*m).len(),
{
    m.len()
}

/// `IndexMap::get_index` for config maps: the pair at position `i`.
#[verifier::external_body]
pub(crate) fn config_map_get_index(m: &IndexMap<String, Config>, i: usize) -> (r: Option<
    (&String, &Config),
>)
    ensures
        r is Some <==> i < config_items(*m).len(),
        r matches Some(p) ==> p.0@ == config_items(*m)[i as int].0 && *p.1 == config_items(
            *m,
        )[i as int].1 && index_of_key(config_items(*m), p.0@) == i,
{
    m.get_index(i)
}

/// `IntoIterator` for config maps: the pairs, in order, taken out of the map.
#[verifier::external_body]
pub(crate) fn config_map_into_pairs(m: IndexMap<String, Config>) -> (r: Vec<(String, Config)>)
    ensures
        r@.len() == config_items(m).len(),
        forall|i: int|
            0 <= i < r@.len() ==> (#[trigger] r@[i]).0@ == config_items(m)[i].0 && r@[i].1
                == config_items(m)[i].1,
{
    m.into_iter().collect()
}

/// `IndexMap::get` for config maps: the value stored for `key`.
#[verifier::external_body]
pub(crate) fn config_map_get<'a>(m: &'a IndexMap<String, Config>, key: &str) -> (r: Option<&'a Config>)
    ensures
        r is Some <==> has_key(config_items(*m), key@),
        r matches Some(v) ==> Some(*v) == lookup(config_items(*m), key@),
{
    m.get(key)
}

/// `IndexMap::insert` for config maps; gives back the value it replaced.
#[verifier::external_body]
pub(crate) fn config_map_insert(m: &mut IndexMap<String, Config>, key: String, value: Config) -> (r: Option<
    Config,
>)
    ensures
        config_items(*final(m)) == inserted(config_items(*old(m)), key@, value),
        r == lookup(config_items(*old(m)), key@),
{
    m.insert(key, value)
}

/// `IndexMap::shift_remove` for config maps; gives back the value removed.
#[verifier::external_body]
pub(crate) fn config_map_shift_remove(m: &mut IndexMap<String, Config>, key: &str) -> (r: Option<Config>)
    ensures
        config_items(*final(m)) == removed(config_items(*old(m)), key@),
        r == lookup(config_items(*old(m)), key@),
{
    m.shift_remove(key)
}

} // verus!
