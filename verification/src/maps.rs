//! The insertion-ordered maps of `indexmap` that hold the definitions, and
//! what their contents are.
use vstd::prelude::*;
use indexmap::IndexMap;
use crate::definition_handler::function::{Function, FunctionView};

verus! {

#[verifier::external_type_specification]
#[verifier::external_body]
#[verifier::reject_recursive_types(K)]
#[verifier::reject_recursive_types(V)]
#[verifier::reject_recursive_types(S)]
pub struct ExIndexMap<K, V, S>(IndexMap<K, V, S>);

/// The entries of a variable map, in their order: each name with the bits
/// of its value.
pub uninterp spec fn var_entries(m: IndexMap<String, u64>) -> Seq<(Seq<char>, u64)>;

/// The entries of a function map, in their order: each name with the text
/// of its function.
pub uninterp spec fn func_entries(m: IndexMap<String, Function>) -> Seq<(Seq<char>, FunctionView)>;

/// Some entry has key `k`.
pub open spec fn has_key<V>(e: Seq<(Seq<char>, V)>, k: Seq<char>) -> bool {
    exists|i: int| 0 <= i < e.len() && #[trigger] e[i].0 == k
}

/// No two entries share a key.
pub open spec fn distinct_keys<V>(e: Seq<(Seq<char>, V)>) -> bool {
    forall|i: int, j: int| 0 <= i < e.len() && 0 <= j < e.len() && i != j ==> #[trigger] e[i].0 != #[trigger] e[j].0
}

/// The position of key `k` (meaningful where `has_key(e, k)`).
pub open spec fn key_pos<V>(e: Seq<(Seq<char>, V)>, k: Seq<char>) -> int {
    choose|i: int| 0 <= i < e.len() && #[trigger] e[i].0 == k
}

/// The value under key `k`, if any.
pub open spec fn lookup<V>(e: Seq<(Seq<char>, V)>, k: Seq<char>) -> Option<V> {
    if has_key(e, k) {
        Some(e[key_pos(e, k)].1)
    } else {
        None
    }
}

/// `IndexMap::insert`: an existing key keeps its place and takes the new
/// value; a new key goes last.
pub open spec fn entries_insert<V>(e: Seq<(Seq<char>, V)>, k: Seq<char>, v: V) -> Seq<(Seq<char>, V)> {
    if has_key(e, k) {
        e.update(key_pos(e, k), (k, v))
    } else {
        e.push((k, v))
    }
}

/// `IndexMap::shift_remove`: the entry goes and the others keep their order.
pub open spec fn entries_remove<V>(e: Seq<(Seq<char>, V)>, k: Seq<char>) -> Seq<(Seq<char>, V)> {
    if has_key(e, k) {
        e.remove(key_pos(e, k))
    } else {
        e
    }
}

/// The set of keys.
pub open spec fn key_set<V>(e: Seq<(Seq<char>, V)>) -> Set<Seq<char>> {
    Set::new(|k: Seq<char>| has_key(e, k))
}

/// An entry whose key occurs is where `key_pos` says, and only there.
pub proof fn lemma_key_pos<V>(e: Seq<(Seq<char>, V)>, k: Seq<char>, i: int)
    requires
        distinct_keys(e),
        0 <= i < e.len(),
        e[i].0 == k,
    ensures
        key_pos(e, k) == i,
        lookup(e, k) == Some(e[i].1),
{
    let j = key_pos(e, k);
    assert(e[j].0 == k);
}

/// After `entries_remove`, the key is gone and the others stay distinct.
pub proof fn lemma_remove<V>(e: Seq<(Seq<char>, V)>, k: Seq<char>)
    requires
        distinct_keys(e),
    ensures
        !has_key(entries_remove(e, k), k),
        distinct_keys(entries_remove(e, k)),
{
    if has_key(e, k) {
        let p = key_pos(e, k);
        let r = e.remove(p);
        assert forall|i: int| 0 <= i < r.len() implies #[trigger] r[i].0 != k by {
            if i < p {
                assert(r[i] == e[i]);
            } else {
                assert(r[i] == e[i + 1]);
            }
        }
        assert forall|i: int, j: int| 0 <= i < r.len() && 0 <= j < r.len() && i != j implies #[trigger] r[i].0 != #[trigger] r[j].0 by {
            let a = if i < p { i } else { i + 1 };
            let b = if j < p { j } else { j + 1 };
            assert(r[i] == e[a]);
            assert(r[j] == e[b]);
        }
    }
}

/// A key that is not there goes last with its value.
pub proof fn lemma_insert_new<V>(e: Seq<(Seq<char>, V)>, k: Seq<char>, v: V)
    requires
        distinct_keys(e),
        !has_key(e, k),
    ensures
        entries_insert(e, k, v) == e.push((k, v)),
        distinct_keys(entries_insert(e, k, v)),
        lookup(entries_insert(e, k, v), k) == Some(v),
{
    let r = e.push((k, v));
    assert forall|i: int, j: int| 0 <= i < r.len() && 0 <= j < r.len() && i != j implies #[trigger] r[i].0 != #[trigger] r[j].0 by {
        if i < e.len() && j < e.len() {
            assert(r[i] == e[i] && r[j] == e[j]);
        } else if i < e.len() {
            assert(r[i] == e[i]);
        } else {
            assert(r[j] == e[j]);
        }
    }
    lemma_key_pos(r, k, e.len() as int);
}

/// Calls `IndexMap::new`: the map is empty.
#[verifier::external_body]
pub(crate) fn var_map_new() -> (m: IndexMap<String, u64>)
    ensures
        var_entries(m) == Seq::<(Seq<char>, u64)>::empty(),
{
    IndexMap::new()
}

/// Calls `IndexMap::insert`: as `entries_insert`, and the keys stay distinct.
#[verifier::external_body]
pub(crate) fn var_insert(m: &mut IndexMap<String, u64>, k: String, v: u64)
    ensures
        var_entries(*final(m)) == entries_insert(var_entries(*old(m)), k@, v),
        distinct_keys(var_entries(*final(m))),
{
    m.insert(k, v);
}

/// Calls `IndexMap::shift_remove`: as `entries_remove`; the removed value
/// is returned.
#[verifier::external_body]
pub(crate) fn var_shift_remove(m: &mut IndexMap<String, u64>, k: &str) -> (r: Option<u64>)
    ensures
        var_entries(*final(m)) == entries_remove(var_entries(*old(m)), k@),
        r == lookup(var_entries(*old(m)), k@),
        distinct_keys(var_entries(*final(m))),
{
    m.shift_remove(k)
}

/// Calls `IndexMap::contains_key`.
#[verifier::external_body]
pub(crate) fn var_contains(m: &IndexMap<String, u64>, k: &str) -> (r: bool)
    ensures
        r == has_key(var_entries(*m), k@),
{
    m.contains_key(k)
}

/// Calls `IndexMap::new`: the map is empty.
#[verifier::external_body]
pub(crate) fn func_map_new() -> (m: IndexMap<String, Function>)
    ensures
        func_entries(m) == Seq::<(Seq<char>, FunctionView)>::empty(),
{
    IndexMap::new()
}

/// Calls `IndexMap::insert`: as `entries_insert`, and the keys stay distinct.
#[verifier::external_body]
pub(crate) fn func_insert(m: &mut IndexMap<String, Function>, k: String, f: Function)
    ensures
        func_entries(*final(m)) == entries_insert(func_entries(*old(m)), k@, f@),
        distinct_keys(func_entries(*final(m))),
{
    m.insert(k, f);
}

/// Calls `IndexMap::shift_remove`: as `entries_remove`; tells whether an
/// entry went.
#[verifier::external_body]
pub(crate) fn func_shift_remove(m: &mut IndexMap<String, Function>, k: &str) -> (r: bool)
    ensures
        func_entries(*final(m)) == entries_remove(func_entries(*old(m)), k@),
        r == has_key(func_entries(*old(m)), k@),
        distinct_keys(func_entries(*final(m))),
{
    m.shift_remove(k).is_some()
}

/// Calls `IndexMap::get` and copies the function out.
#[verifier::external_body]
pub(crate) fn func_get(m: &IndexMap<String, Function>, k: &str) -> (r: Option<Function>)
    ensures
        match r {
            Some(f) => lookup(func_entries(*m), k@) == Some(f@),
            None => lookup(func_entries(*m), k@) is None,
        },
{
    m.get(k).cloned()
}

/// Calls `IndexMap::contains_key`.
#[verifier::external_body]
pub(crate) fn func_contains(m: &IndexMap<String, Function>, k: &str) -> (r: bool)
    ensures
        r == has_key(func_entries(*m), k@),
{
    m.contains_key(k)
}

/// Calls `IndexMap::len`: the number of entries.
#[verifier::external_body]
pub(crate) fn var_len(m: &IndexMap<String, u64>) -> (r: usize)
    ensures
        r == var_entries(*m).len(),
{
    m.len()
}

/// Calls `IndexMap::get_index` and copies the entry out: the entry at
/// position `i`, if there is one.
#[verifier::external_body]
pub(crate) fn var_get_index(m: &IndexMap<String, u64>, i: usize) -> (r: Option<(String, u64)>)
    ensures
        match r {
            Some(e) => i < var_entries(*m).len() && var_entries(*m)[i as int] == (e.0@, e.1),
            None => i >= var_entries(*m).len(),
        },
{
    m.get_index(i).map(|(k, v)| (k.clone(), *v))
}

/// Calls `IndexMap::len`: the number of entries.
#[verifier::external_body]
pub(crate) fn func_len(m: &IndexMap<String, Function>) -> (r: usize)
    ensures
        r == func_entries(*m).len(),
{
    m.len()
}

/// Calls `IndexMap::get_index` and copies the entry out: the entry at
/// position `i`, if there is one.
#[verifier::external_body]
pub(crate) fn func_get_index(m: &IndexMap<String, Function>, i: usize) -> (r: Option<(String, Function)>)
    ensures
        match r {
            Some(e) => i < func_entries(*m).len() && func_entries(*m)[i as int] == (e.0@, e.1@),
            None => i >= func_entries(*m).len(),
        },
{
    m.get_index(i).map(|(k, f)| (k.clone(), f.clone()))
}

} // verus!
