//! A concurrent map from names to numbers, used for the topic registry's index
//! and for each session's subscriptions. Mutation goes through `&mut` here, so
//! that what the map holds is a function of the value that Verus sees.
use dashmap::DashMap;
use vstd::prelude::*;

verus! {

#[verifier::external_type_specification]
#[verifier::external_body]
#[verifier::reject_recursive_types(K)]
#[verifier::reject_recursive_types(V)]
#[verifier::reject_recursive_types(S)]
pub struct ExDashMap<K, V, S>(DashMap<K, V, S>);

/// What a name-keyed map holds: for each key's characters, its value.
pub uninterp spec fn entries_of(m: DashMap<String, u64>) -> Map<Seq<char>, u64>;

/// Relies on `DashMap::new`: a new map holds nothing.
#[verifier::external_body]
pub(crate) fn keyed_new() -> (r: DashMap<String, u64>)
    ensures
        entries_of(r).dom().len() == 0,
        entries_of(r).dom().finite(),
{
    DashMap::new()
}

/// Relies on `DashMap::insert`: the key then maps to the value, and the value
/// it held before, if any, is handed back.
#[verifier::external_body]
pub(crate) fn keyed_insert(m: &mut DashMap<String, u64>, k: String, v: u64) -> (r: Option<u64>)
    ensures
        entries_of(*final(m)) == entries_of(*old(m)).insert(k@, v),
        r == (if entries_of(*old(m)).contains_key(k@) {
            Some(entries_of(*old(m))[k@])
        } else {
            None
        }),
{
    m.insert(k, v)
}

/// Relies on `DashMap::remove`: the key leaves the map, and its value, if it
/// had one, is handed back.
#[verifier::external_body]
pub(crate) fn keyed_remove(m: &mut DashMap<String, u64>, k: &str) -> (r: Option<u64>)
    ensures
        entries_of(*final(m)) == entries_of(*old(m)).remove(k@),
        r == (if entries_of(*old(m)).contains_key(k@) {
            Some(entries_of(*old(m))[k@])
        } else {
            None
        }),
{
    m.remove(k).map(|e| e.1)
}

/// Relies on `DashMap::get`: the value of the key, if it has one.
#[verifier::external_body]
pub(crate) fn keyed_get(m: &DashMap<String, u64>, k: &str) -> (r: Option<u64>)
    ensures
        r == (if entries_of(*m).contains_key(k@) {
            Some(entries_of(*m)[k@])
        } else {
            None
        }),
{
    m.get(k).map(|e| *e.value())
}

/// Relies on `DashMap::iter`: every entry once, in an order left open.
#[verifier::external_body]
pub(crate) fn keyed_entries(m: &DashMap<String, u64>) -> (r: Vec<(String, u64)>)
    ensures
        forall|i: int|
            0 <= i < r@.len() ==> #[trigger] entries_of(*m).contains_key(r@[i].0@)
                && entries_of(*m)[r@[i].0@] == r@[i].1,
        forall|k: Seq<char>|
            #[trigger] entries_of(*m).contains_key(k) ==> exists|i: int|
                0 <= i < r@.len() && r@[i].0@ == k,
{
    m.iter().map(|e| (e.key().clone(), *e.value())).collect()
}

} // verus!
