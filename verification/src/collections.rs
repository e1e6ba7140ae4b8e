//! Keyed storage of the world. The maps and sets are std's hash collections
//! with the Fx hasher; every key is a `u128`, so key equality is integer equality.

use vstd::prelude::*;

use rustc_hash::{FxBuildHasher, FxHashMap, FxHashSet};

verus! {

/// The Fx hasher builder of the world's hash collections.
#[verifier::external_type_specification]
#[verifier::external_body]
pub struct ExFxBuildHasher(FxBuildHasher);

/// The map with no keys.
pub open spec fn no_entries<V>() -> Map<u128, V> {
    Map::empty()
}

/// The set with no keys.
pub open spec fn no_keys() -> Set<u128> {
    Set::empty()
}

/// A hash map keyed by `u128` keys.
pub type KeyMap<V> = FxHashMap<u128, V>;

/// An empty map.
///
/// Calls `Default::default` of `HashMap<u128, V, FxBuildHasher>`; claimed: the
/// map is empty.
#[verifier::external_body]
pub(crate) fn map_new<V>() -> (r: KeyMap<V>)
    ensures
        r@ =~= no_entries(),
{
    KeyMap::default()
}

/// The value stored under a key.
///
/// Calls `HashMap::get`; claimed: the value of the key when the map holds the
/// key, `None` otherwise.
#[verifier::external_body]
pub(crate) fn map_get<V>(m: &KeyMap<V>, key: u128) -> (r: Option<&V>)
    ensures
        m@.contains_key(key) ==> r == Some(&m@[key]),
        !m@.contains_key(key) ==> r.is_none(),
{
    m.get(&key)
}

/// Whether the map holds a key.
///
/// Calls `HashMap::contains_key`; claimed: true exactly when the key is in
/// the map's domain.
#[verifier::external_body]
pub(crate) fn map_contains<V>(m: &KeyMap<V>, key: u128) -> (r: bool)
    ensures
        r == m@.contains_key(key),
{
    m.contains_key(&key)
}

/// Stores a value under a key and returns the value it replaced.
///
/// Calls `HashMap::insert`; claimed: the map afterwards is the old map with
/// the key bound to the value, and the result is the key's old value.
#[verifier::external_body]
pub(crate) fn map_insert<V>(m: &mut KeyMap<V>, key: u128, value: V) -> (r: Option<V>)
    ensures
        final(m)@ == old(m)@.insert(key, value),
        old(m)@.contains_key(key) ==> r == Some(old(m)@[key]),
        !old(m)@.contains_key(key) ==> r.is_none(),
{
    m.insert(key, value)
}

/// Removes a key and returns its value.
///
/// Calls `HashMap::remove`; claimed: the map afterwards is the old map without
/// the key, and the result is the key's old value.
#[verifier::external_body]
pub(crate) fn map_remove<V>(m: &mut KeyMap<V>, key: u128) -> (r: Option<V>)
    ensures
        final(m)@ == old(m)@.remove(key),
        old(m)@.contains_key(key) ==> r == Some(old(m)@[key]),
        !old(m)@.contains_key(key) ==> r.is_none(),
{
    m.remove(&key)
}

/// The keys of a map, each once, in the map's iteration order.
///
/// Calls `HashMap::keys` and collects the keys; claimed: the list holds every
/// key of the map exactly once. The order depends on the hash table's layout
/// and is left unsaid.
#[verifier::external_body]
pub(crate) fn map_keys<V>(m: &KeyMap<V>) -> (r: Vec<u128>)
    ensures
        r@.no_duplicates(),
        forall|k: u128| m@.contains_key(k) <==> #[trigger] r@.contains(k),
{
    m.keys().copied().collect()
}

/// Number of keys of a map.
///
/// Calls `HashMap::len`; claimed: the size of the map's domain.
#[verifier::external_body]
pub(crate) fn map_len<V>(m: &KeyMap<V>) -> (r: usize)
    ensures
        r == m@.dom().len(),
{
    m.len()
}

/// An empty set.
///
/// Calls `Default::default` of `HashSet<u128, FxBuildHasher>`; claimed: the set is empty.
#[verifier::external_body]
pub(crate) fn set_new() -> (r: FxHashSet<u128>)
    ensures
        r@ == no_keys(),
{
    FxHashSet::default()
}

/// Whether the set holds a key.
///
/// Calls `HashSet::contains`; claimed: true exactly when the key is a member.
#[verifier::external_body]
pub(crate) fn set_contains(s: &FxHashSet<u128>, key: u128) -> (r: bool)
    ensures
        r == s@.contains(key),
{
    s.contains(&key)
}

/// Adds a key; true when it was not a member before.
///
/// Calls `HashSet::insert`; claimed: the set afterwards is the old set with
/// the key, and the result says whether the key was new.
#[verifier::external_body]
pub(crate) fn set_insert(s: &mut FxHashSet<u128>, key: u128) -> (r: bool)
    ensures
        final(s)@ == old(s)@.insert(key),
        r == !old(s)@.contains(key),
{
    s.insert(key)
}

/// Removes a key; true when it was a member.
///
/// Calls `HashSet::remove`; claimed: the set afterwards is the old set without
/// the key, and the result says whether the key was a member.
#[verifier::external_body]
pub(crate) fn set_remove(s: &mut FxHashSet<u128>, key: u128) -> (r: bool)
    ensures
        final(s)@ == old(s)@.remove(key),
        r == old(s)@.contains(key),
{
    s.remove(&key)
}

/// Removes every key.
///
/// Calls `HashSet::clear`; claimed: the set afterwards is empty.
#[verifier::external_body]
pub(crate) fn set_clear(s: &mut FxHashSet<u128>)
    ensures
        final(s)@ == no_keys(),
{
    s.clear()
}

/// The members of a set, each once, in the set's iteration order.
///
/// Calls `HashSet::iter` and collects the members; claimed: the list holds
/// every member exactly once. The order depends on the hash table's layout
/// and is left unsaid.
#[verifier::external_body]
pub(crate) fn set_keys(s: &FxHashSet<u128>) -> (r: Vec<u128>)
    ensures
        r@.no_duplicates(),
        forall|k: u128| s@.contains(k) <==> #[trigger] r@.contains(k),
{
    s.iter().copied().collect()
}

/// Whether a set has no members.
///
/// Calls `HashSet::is_empty`; claimed: true exactly when the set is empty.
#[verifier::external_body]
pub(crate) fn set_is_empty(s: &FxHashSet<u128>) -> (r: bool)
    ensures
        r == (s@ == no_keys()),
{
    s.is_empty()
}

/// Number of keys of a set.
///
/// Calls `HashSet::len`; claimed: the size of the set.
#[verifier::external_body]
pub(crate) fn set_len(s: &FxHashSet<u128>) -> (r: usize)
    ensures
        r == s@.len(),
{
    s.len()
}

} // verus!
