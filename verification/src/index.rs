//! Look-up by key, on the hash map and the hash set of the `ahash` crate.
//!
//! A map goes from a key to the position of an entry in some list; a set holds
//! the hashes of the keys that were seen.
use ahash::{AHashMap, AHashSet};
use vstd::prelude::*;

verus! {

/// The hash map of `ahash`: a `std` hash map with a hasher of its own.
#[verifier::external_type_specification]
#[verifier::external_body]
#[verifier::reject_recursive_types(K)]
#[verifier::reject_recursive_types(V)]
#[verifier::reject_recursive_types(S)]
pub struct ExAHashMap<K, V, S>(ahash::AHashMap<K, V, S>);

/// The hash set of `ahash`: a `std` hash set with a hasher of its own.
#[verifier::external_type_specification]
#[verifier::external_body]
#[verifier::reject_recursive_types(T)]
#[verifier::reject_recursive_types(S)]
pub struct ExAHashSet<T, S>(ahash::AHashSet<T, S>);

/// The hasher state of `ahash`, which the two collections carry.
#[verifier::external_type_specification]
#[verifier::external_body]
pub struct ExRandomState(ahash::RandomState);

/// What a map from keys to positions holds.
pub uninterp spec fn positions(m: AHashMap<&str, usize>) -> Map<Seq<char>, usize>;

/// What a set of hashes holds.
pub uninterp spec fn hashes(s: AHashSet<u64>) -> Set<u64>;

/// `values` are the values of `m`, one per key, the keys taken in some order.
pub open spec fn one_per_key(m: Map<Seq<char>, usize>, values: Seq<usize>) -> bool {
    exists|keys: Seq<Seq<char>>|
        {
            &&& #[trigger] keys.no_duplicates()
            &&& keys.to_set() == m.dom()
            &&& values == keys.map_values(|k: Seq<char>| m[k])
        }
}

/// `AHashMap::with_capacity`: the new map is empty, whatever its capacity.
#[verifier::external_body]
pub(crate) fn positions_new<'a>(capacity: usize) -> (r: AHashMap<&'a str, usize>)
    ensures
        positions(r).dom() == Set::<Seq<char>>::empty(),
{
    AHashMap::with_capacity(capacity)
}

/// `AHashMap::insert`: the key leads to the new position, every other key to
/// where it led before.
#[verifier::external_body]
pub(crate) fn positions_insert<'a>(m: &mut AHashMap<&'a str, usize>, key: &'a str, at: usize)
    ensures
        positions(*final(m)) == positions(*old(m)).insert(key@, at),
{
    m.insert(key, at);
}

/// `AHashMap::get`: the position of the key, if the map has the key.
#[verifier::external_body]
pub(crate) fn positions_get(m: &AHashMap<&str, usize>, key: &str) -> (r: Option<usize>)
    ensures
        r is Some <==> positions(*m).contains_key(key@),
        r matches Some(at) ==> at == positions(*m)[key@],
{
    m.get(key).copied()
}

/// `AHashMap::remove`: takes the key out and returns where it led.
#[verifier::external_body]
pub(crate) fn positions_remove(m: &mut AHashMap<&str, usize>, key: &str) -> (r: Option<usize>)
    ensures
        r is Some <==> positions(*old(m)).contains_key(key@),
        r matches Some(at) ==> at == positions(*old(m))[key@],
        positions(*final(m)) == positions(*old(m)).remove(key@),
{
    m.remove(key)
}

/// `AHashMap::into_values`: the position of each key, once per key, in an
/// order that nothing is said about.
#[verifier::external_body]
pub(crate) fn positions_into_values(m: AHashMap<&str, usize>) -> (r: Vec<usize>)
    ensures
        one_per_key(positions(m), r@),
{
    m.into_values().collect()
}

/// `AHashSet::with_capacity`: the new set is empty, whatever its capacity.
#[verifier::external_body]
pub(crate) fn hashes_new(capacity: usize) -> (r: AHashSet<u64>)
    ensures
        hashes(r) == Set::<u64>::empty(),
{
    AHashSet::with_capacity(capacity)
}

/// `AHashSet::insert`: adds the hash and says whether it was not there before.
#[verifier::external_body]
pub(crate) fn hashes_insert(s: &mut AHashSet<u64>, hash: u64) -> (fresh: bool)
    ensures
        fresh == !hashes(*old(s)).contains(hash),
        hashes(*final(s)) == hashes(*old(s)).insert(hash),
{
    s.insert(hash)
}

} // verus!
