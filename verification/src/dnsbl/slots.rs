//! The map that blocklist results, rotations and running lookups are kept in: text keys,
//! and two numbers under each.
use std::collections::hash_map::RandomState;
use vstd::prelude::*;

verus! {

/// `dashmap`'s map.
#[verifier::external_type_specification]
#[verifier::external_body]
#[verifier::reject_recursive_types(K)]
#[verifier::reject_recursive_types(V)]
#[verifier::reject_recursive_types(S)]
pub struct ExDashMap<K, V, S>(dashmap::DashMap<K, V, S>);

/// What a map holds.
pub uninterp spec fn slots(
    map: dashmap::DashMap<String, (u64, u64), RandomState>,
) -> Map<Seq<char>, (u64, u64)>;

/// What an empty map holds.
pub open spec fn nothing() -> Map<Seq<char>, (u64, u64)> {
    Map::empty()
}

/// `dashmap::DashMap::new`: a map that holds nothing.
#[verifier::external_body]
pub(crate) fn no_slots() -> (r: dashmap::DashMap<String, (u64, u64), RandomState>)
    ensures
        slots(r) == nothing(),
{
    dashmap::DashMap::new()
}

/// `dashmap::DashMap::get`: the value under a key, copied out.
#[verifier::external_body]
pub(crate) fn slot(map: &dashmap::DashMap<String, (u64, u64), RandomState>, key: &str) -> (r:
    Option<(u64, u64)>)
    ensures
        match r {
            Some(v) => slots(*map).dom().contains(key@) && slots(*map)[key@] == v,
            None => !slots(*map).dom().contains(key@),
        },
{
    map.get(key).map(|entry| *entry.value())
}

/// `dashmap::DashMap::insert`: puts a value under a key and says whether one was there.
#[verifier::external_body]
pub(crate) fn put_slot(
    map: &mut dashmap::DashMap<String, (u64, u64), RandomState>,
    key: String,
    value: (u64, u64),
) -> (r: bool)
    ensures
        slots(*final(map)) == slots(*old(map)).insert(key@, value),
        r == slots(*old(map)).dom().contains(key@),
{
    map.insert(key, value).is_some()
}

/// `dashmap::DashMap::remove`: takes out what is under a key.
#[verifier::external_body]
pub(crate) fn drop_slot(map: &mut dashmap::DashMap<String, (u64, u64), RandomState>, key: &str)
    ensures
        slots(*final(map)) == slots(*old(map)).remove(key@),
{
    map.remove(key);
}

/// `dashmap::DashMap::clear`: takes out everything.
#[verifier::external_body]
pub(crate) fn clear_slots(map: &mut dashmap::DashMap<String, (u64, u64), RandomState>)
    ensures
        slots(*final(map)) == nothing(),
{
    map.clear();
}

/// `dashmap::DashMap::len`: the number of keys.
#[verifier::external_body]
pub(crate) fn count_slots(map: &dashmap::DashMap<String, (u64, u64), RandomState>) -> (r: usize)
    ensures
        r == slots(*map).dom().len(),
{
    map.len()
}

/// `dashmap::DashMap::iter`: every key with its value, in no particular order.
#[verifier::external_body]
pub(crate) fn list_slots(map: &dashmap::DashMap<String, (u64, u64), RandomState>) -> (r: Vec<
    (String, (u64, u64)),
>)
    ensures
        lists(r@, slots(*map)),
{
    map.iter().map(|entry| (entry.key().clone(), *entry.value())).collect()
}

/// Whether a list holds what a map holds, each key once.
pub open spec fn lists(list: Seq<(String, (u64, u64))>, map: Map<Seq<char>, (u64, u64)>) -> bool {
    &&& forall|i: int|
        0 <= i < list.len() ==> map.dom().contains((#[trigger] list[i]).0@) && map[list[i].0@]
            == list[i].1
    &&& forall|k: Seq<char>| #[trigger]
        map.dom().contains(k) ==> exists|i: int| 0 <= i < list.len() && (#[trigger] list[i]).0@ == k
    &&& forall|i: int, j: int|
        0 <= i < j < list.len() ==> (#[trigger] list[i]).0@ != (#[trigger] list[j]).0@
}

} // verus!
