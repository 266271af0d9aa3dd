//! Finding the last entry with a given key in a list.
use crate::index;
use crate::text;
use ahash::AHashMap;
use vstd::prelude::*;

verus! {

/// Where a key stands last in a list of keys.
pub open spec fn last_index(keys: Seq<Seq<char>>, key: Seq<char>) -> Option<int>
    decreases keys.len(),
{
    if keys.len() == 0 {
        None
    } else if keys.last() == key {
        Some(keys.len() - 1)
    } else {
        last_index(keys.drop_last(), key)
    }
}

/// `last_index` is the last occurrence.
pub proof fn lemma_last_index(keys: Seq<Seq<char>>, key: Seq<char>)
    ensures
        last_index(keys, key) is Some <==> keys.contains(key),
        last_index(keys, key) matches Some(j) ==> {
            &&& 0 <= j < keys.len()
            &&& keys[j] == key
            &&& forall|i: int| j < i < keys.len() ==> keys[i] != key
        },
    decreases keys.len(),
{
    if keys.len() > 0 {
        let front = keys.drop_last();
        lemma_last_index(front, key);
        if keys.last() == key {
            assert(keys[keys.len() - 1] == key);
        } else {
            if keys.contains(key) {
                let i = choose|i: int| 0 <= i < keys.len() && keys[i] == key;
                assert(front[i] == key);
            }
            if front.contains(key) {
                let i = choose|i: int| 0 <= i < front.len() && front[i] == key;
                assert(keys[i] == key);
            }
            assert forall|j: int, i: int|
                last_index(keys, key) == Some(j) && j < i < keys.len() implies keys[i] != key by {
                if i < keys.len() - 1 {
                    assert(front[i] != key);
                }
            }
        }
    }
}

/// Whether a map leads from each key of a list to where it stands last.
pub open spec fn indexes(m: Map<Seq<char>, usize>, keys: Seq<Seq<char>>) -> bool {
    &&& forall|k: Seq<char>| #[trigger] m.contains_key(k) <==> last_index(keys, k) is Some
    &&& forall|k: Seq<char>|
        #[trigger] m.contains_key(k) ==> last_index(keys, k) == Some(m[k] as int)
}

/// Builds the map from each key of a list to where it stands last.
pub(crate) fn index_keys<'a>(keys: &Vec<&'a str>) -> (r: AHashMap<&'a str, usize>)
    ensures
        indexes(index::positions(r), text::views(keys@)),
{
    let mut m = index::positions_new(keys.len());
    let mut i: usize = 0;
    assert(text::views(keys@).take(0) =~= Seq::<Seq<char>>::empty());
    while i < keys.len()
        invariant
            i <= keys@.len(),
            indexes(index::positions(m), text::views(keys@).take(i as int)),
        decreases keys@.len() - i,
    {
        let ghost before = text::views(keys@).take(i as int);
        let ghost after = text::views(keys@).take(i + 1);
        let key = keys[i];
        index::positions_insert(&mut m, key, i);
        proof {
            assert(after.drop_last() =~= before);
            assert(after.last() == key@);
        }
        i = i + 1;
    }
    assert(text::views(keys@).take(i as int) =~= text::views(keys@));
    m
}

/// Whether `at` is the last place of a key in a list of keys, or says that there is none.
pub open spec fn is_last(keys: Seq<Seq<char>>, key: Seq<char>, at: Option<int>) -> bool {
    match at {
        Some(j) => {
            &&& 0 <= j < keys.len()
            &&& keys[j] == key
            &&& forall|i: int| j < i < keys.len() ==> #[trigger] keys[i] != key
        },
        None => forall|i: int| 0 <= i < keys.len() ==> #[trigger] keys[i] != key,
    }
}

/// The last place of a key is the one behind which the key does not occur.
pub proof fn law_last_index_is_the_last_place(
    keys: Seq<Seq<char>>,
    key: Seq<char>,
    at: Option<int>,
)
    ensures
        is_last(keys, key, at) <==> at == last_index(keys, key),
{
    lemma_last_index(keys, key);
    match at {
        Some(j) => {
            if is_last(keys, key, at) {
                assert(keys.contains(key));
                let l = last_index(keys, key)->0;
                assert(keys[l] == key && keys[j] == key);
            }
        },
        None => {
            if is_last(keys, key, at) && last_index(keys, key) is Some {
                let l = last_index(keys, key)->0;
                assert(keys[l] == key);
            }
            if last_index(keys, key) is None {
                assert forall|i: int| 0 <= i < keys.len() implies #[trigger] keys[i] != key by {
                    if keys[i] == key {
                        assert(keys.contains(key));
                    }
                }
            }
        },
    }
}

} // verus!
