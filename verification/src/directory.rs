//! What the router looks up by symbol, kept in maps of the `dashmap` crate.
//!
//! A `DashMap` can change behind a shared reference. The functions here that
//! change one ask for an exclusive reference all the same, so that what is known
//! of a map stays true until the next call of one of them.

use dashmap::DashMap;
use vstd::prelude::*;

verus! {

/// `dashmap::DashMap`, of which the verifier sees nothing but what
/// [`algorithm_names`] and [`book_handles`] name.
#[verifier::external_type_specification]
#[verifier::external_body]
#[verifier::reject_recursive_types(K)]
#[verifier::reject_recursive_types(V)]
#[verifier::reject_recursive_types(S)]
pub struct ExDashMap<K, V, S>(DashMap<K, V, S>);

/// What a map from symbols to names of algorithms holds.
pub uninterp spec fn algorithm_names(map: DashMap<String, String>) -> Map<Seq<char>, Seq<char>>;

/// What a map from symbols to handles of order books holds.
pub uninterp spec fn book_handles(map: DashMap<String, usize>) -> Map<Seq<char>, usize>;

/// `DashMap::new`: a map with nothing in it.
#[verifier::external_body]
pub(crate) fn new_algorithms() -> (map: DashMap<String, String>)
    ensures
        algorithm_names(map).is_empty(),
{
    DashMap::new()
}

/// `DashMap::insert`: enters the name under the symbol, in place of any that was
/// there.
#[verifier::external_body]
pub(crate) fn insert_algorithm(map: &mut DashMap<String, String>, symbol: String, name: String)
    ensures
        algorithm_names(*final(map)) == algorithm_names(*old(map)).insert(symbol@, name@),
{
    map.insert(symbol, name);
}

/// `DashMap::get`: the name under the symbol, if there is one.
#[verifier::external_body]
pub(crate) fn get_algorithm(map: &DashMap<String, String>, symbol: &str) -> (name: Option<String>)
    ensures
        name is Some <==> algorithm_names(*map).contains_key(symbol@),
        name matches Some(found) ==> found@ == algorithm_names(*map)[symbol@],
{
    map.get(symbol).map(|entry| entry.value().clone())
}

/// `DashMap::new`: a map with nothing in it.
#[verifier::external_body]
pub(crate) fn new_books() -> (map: DashMap<String, usize>)
    ensures
        book_handles(map).is_empty(),
{
    DashMap::new()
}

/// `DashMap::insert`: enters the handle under the symbol, in place of any that was
/// there.
#[verifier::external_body]
pub(crate) fn insert_book(map: &mut DashMap<String, usize>, symbol: String, handle: usize)
    ensures
        book_handles(*final(map)) == book_handles(*old(map)).insert(symbol@, handle),
{
    map.insert(symbol, handle);
}

/// `DashMap::contains_key`: whether there is a handle under the symbol.
#[verifier::external_body]
pub(crate) fn has_book(map: &DashMap<String, usize>, symbol: &str) -> (found: bool)
    ensures
        found == book_handles(*map).contains_key(symbol@),
{
    map.contains_key(symbol)
}

/// `DashMap::get`: the handle under the symbol, if there is one.
#[verifier::external_body]
pub(crate) fn get_book(map: &DashMap<String, usize>, symbol: &str) -> (handle: Option<usize>)
    ensures
        handle == book_handles(*map).get(symbol@),
{
    map.get(symbol).map(|entry| *entry.value())
}

/// `DashMap::iter`: every symbol with its handle, each once, in no order that can
/// be relied on.
#[verifier::external_body]
pub(crate) fn all_books(map: &DashMap<String, usize>) -> (entries: Vec<(String, usize)>)
    ensures
        forall|i: int|
            0 <= i < entries.len() ==> book_handles(*map).contains_pair(
                (#[trigger] entries[i]).0@,
                entries[i].1,
            ),
        forall|i: int, j: int|
            0 <= i < j < entries.len() ==> (#[trigger] entries[i]).0@ != (
            #[trigger] entries[j]).0@,
        forall|symbol: Seq<char>| #[trigger]
            book_handles(*map).contains_key(symbol) ==> exists|i: int|
                0 <= i < entries.len() && (#[trigger] entries[i]).0@ == symbol,
{
    map.iter().map(|entry| (entry.key().clone(), *entry.value())).collect()
}

} // verus!
