//! The sum of all sizes after a sync.
use crate::index;
use crate::lookup;
use crate::merge;
use crate::sync::{self, ValidUploadView};
use crate::sync_laws;
use crate::types::config::Config;
use crate::types::data::{DataManifestEntryView, SavedEntryView};
use crate::types::sync::{ClientManifestEntryView, UploadEntryView};
use vstd::prelude::*;

verus! {

/// By how much keys with new sizes make the stored data grow.
pub open spec fn sizes_growth(
    manifest: Seq<DataManifestEntryView>,
    sizes: Seq<(Seq<char>, int)>,
) -> int
    decreases sizes.len(),
{
    if sizes.len() == 0 {
        0
    } else {
        sizes_growth(manifest, sizes.drop_last()) + sizes.last().1 - sync::stored_size(
            manifest,
            sizes.last().0,
        )
    }
}

/// The keys and sizes of saved entries.
pub open spec fn saved_sizes(saved: Seq<SavedEntryView>) -> Seq<(Seq<char>, int)> {
    saved.map_values(|e: SavedEntryView| (e.key, e.size_bytes as int))
}

/// The keys and sizes of accepted uploads.
pub open spec fn accepted_sizes(accepted: Seq<ValidUploadView>) -> Seq<(Seq<char>, int)> {
    accepted.map_values(|u: ValidUploadView| (u.key, u.value.len() as int))
}

/// Whether what was saved is what was accepted, in any order.
pub open spec fn all_saved(accepted: Seq<ValidUploadView>, saved: Seq<SavedEntryView>) -> bool {
    saved_sizes(saved).to_multiset() == accepted_sizes(accepted).to_multiset()
}

/// The entries of new keys, in a given order.
spec fn entries_for(saved: Seq<SavedEntryView>, names: Seq<Seq<char>>) -> Seq<
    DataManifestEntryView,
> {
    names.map_values(
        |k: Seq<char>|
            merge::entry_of(saved[lookup::last_index(merge::saved_keys(saved), k)->0]),
    )
}

proof fn lemma_total_concat(a: Seq<DataManifestEntryView>, b: Seq<DataManifestEntryView>)
    ensures
        sync::total_size(a + b) == sync::total_size(a) + sync::total_size(b),
    decreases b.len(),
{
    if b.len() == 0 {
        assert(a + b =~= a);
    } else {
        assert((a + b).drop_last() =~= a + b.drop_last());
        lemma_total_concat(a, b.drop_last());
    }
}

proof fn lemma_total_update(s: Seq<DataManifestEntryView>, i: int, e: DataManifestEntryView)
    requires
        0 <= i < s.len(),
    ensures
        sync::total_size(s.update(i, e)) == sync::total_size(s) - s[i].size_bytes + e.size_bytes,
    decreases s.len(),
{
    if i == s.len() - 1 {
        assert(s.update(i, e).drop_last() =~= s.drop_last());
    } else {
        assert(s.update(i, e).drop_last() =~= s.drop_last().update(i, e));
        lemma_total_update(s.drop_last(), i, e);
    }
}

proof fn lemma_total_remove(s: Seq<DataManifestEntryView>, i: int)
    requires
        0 <= i < s.len(),
    ensures
        sync::total_size(s) == sync::total_size(s.remove(i)) + s[i].size_bytes,
    decreases s.len(),
{
    if i == s.len() - 1 {
        assert(s.remove(i) =~= s.drop_last());
    } else {
        assert(s.remove(i).drop_last() =~= s.drop_last().remove(i));
        lemma_total_remove(s.drop_last(), i);
    }
}

proof fn lemma_growth_remove(
    manifest: Seq<DataManifestEntryView>,
    sizes: Seq<(Seq<char>, int)>,
    i: int,
)
    requires
        0 <= i < sizes.len(),
    ensures
        sizes_growth(manifest, sizes) == sizes_growth(manifest, sizes.remove(i)) + sizes[i].1
            - sync::stored_size(manifest, sizes[i].0),
    decreases sizes.len(),
{
    if i == sizes.len() - 1 {
        assert(sizes.remove(i) =~= sizes.drop_last());
    } else {
        assert(sizes.remove(i).drop_last() =~= sizes.drop_last().remove(i));
        lemma_growth_remove(manifest, sizes.drop_last(), i);
    }
}

proof fn lemma_growth_in_any_order(
    manifest: Seq<DataManifestEntryView>,
    a: Seq<(Seq<char>, int)>,
    b: Seq<(Seq<char>, int)>,
)
    requires
        a.to_multiset() == b.to_multiset(),
    ensures
        sizes_growth(manifest, a) == sizes_growth(manifest, b),
    decreases a.len(),
{
    vstd::seq_lib::to_multiset_len(a);
    vstd::seq_lib::to_multiset_len(b);
    if a.len() > 0 {
        let n = a.len() - 1;
        let x = a[n];
        vstd::seq_lib::to_multiset_contains(a, x);
        vstd::seq_lib::to_multiset_contains(b, x);
        assert(a.contains(x));
        assert(b.contains(x));
        let i = choose|i: int| 0 <= i < b.len() && b[i] == x;
        vstd::seq_lib::to_multiset_remove(a, n);
        vstd::seq_lib::to_multiset_remove(b, i);
        lemma_growth_remove(manifest, a, n);
        lemma_growth_remove(manifest, b, i);
        lemma_growth_in_any_order(manifest, a.remove(n), b.remove(i));
    }
}

proof fn lemma_last_index_of_front(keys: Seq<Seq<char>>, key: Seq<char>)
    requires
        keys.len() > 0,
        key != keys.last(),
    ensures
        lookup::last_index(keys, key) == lookup::last_index(keys.drop_last(), key),
{
}

proof fn lemma_total_after_merge(
    manifest: Seq<DataManifestEntryView>,
    saved: Seq<SavedEntryView>,
    names: Seq<Seq<char>>,
)
    requires
        sync::manifest_keys(manifest).no_duplicates(),
        merge::saved_keys(saved).no_duplicates(),
        names.no_duplicates(),
        names.to_set() == merge::new_keys(manifest, saved).dom(),
    ensures
        sync::total_size(merge::merged(manifest, saved)) + sync::total_size(
            entries_for(saved, names),
        ) == sync::total_size(manifest) + sizes_growth(manifest, saved_sizes(saved)),
    decreases saved.len(),
{
    let old_keys = sync::manifest_keys(manifest);
    let keys = merge::saved_keys(saved);
    if saved.len() == 0 {
        assert(merge::merged(manifest, saved) =~= manifest);
        if names.len() > 0 {
            assert(names.to_set().contains(names[0]));
        }
        assert(entries_for(saved, names) =~= seq![]);
    } else {
        let front = saved.drop_last();
        let front_keys = merge::saved_keys(front);
        let last = saved.last();
        let k = last.key;
        assert(front_keys =~= keys.drop_last());
        assert(saved_sizes(saved).drop_last() =~= saved_sizes(front));
        assert(front_keys.no_duplicates());
        assert(!front_keys.contains(k)) by {
            if front_keys.contains(k) {
                let i = choose|i: int| 0 <= i < front_keys.len() && front_keys[i] == k;
                assert(keys[i] == keys[saved.len() - 1]);
            }
        }
        lookup::lemma_last_index(front_keys, k);
        assert forall|key: Seq<char>| key != k implies #[trigger] lookup::last_index(keys, key)
            == lookup::last_index(front_keys, key) by {
            lemma_last_index_of_front(keys, key);
        }
        lookup::lemma_last_index(old_keys, k);
        let before = merge::merged(manifest, front);
        let after = merge::merged(manifest, saved);
        if old_keys.contains(k) {
            let i = lookup::last_index(old_keys, k)->0;
            assert(!old_keys.take(i).contains(k)) by {
                if old_keys.take(i).contains(k) {
                    let h = choose|h: int| 0 <= h < i && old_keys.take(i)[h] == k;
                    assert(old_keys[h] == old_keys[i]);
                }
            }
            assert(before[i] == manifest[i]);
            assert(after[i] == merge::entry_of(last));
            assert forall|j: int| 0 <= j < manifest.len() && j != i implies after[j]
                == before[j] by {
                assert(old_keys[j] != old_keys[i]);
                let at = lookup::last_index(front_keys, manifest[j].key);
                lookup::lemma_last_index(front_keys, manifest[j].key);
                if at is Some {
                    assert(front[at->0] == saved[at->0]);
                }
            }
            assert(after =~= before.update(i, merge::entry_of(last)));
            lemma_total_update(before, i, merge::entry_of(last));
            assert(merge::new_keys(manifest, front).dom() =~= merge::new_keys(
                manifest,
                saved,
            ).dom()) by {
                assert forall|key: Seq<char>|
                    merge::new_keys(manifest, front).dom().contains(key)
                        == merge::new_keys(manifest, saved).dom().contains(key) by {
                    if key == k {
                        lookup::lemma_last_index(keys, k);
                    }
                }
            }
            lemma_total_after_merge(manifest, front, names);
            lemma_same_entries(manifest, saved, names);
        } else {
            assert forall|j: int| 0 <= j < manifest.len() implies after[j] == before[j] by {
                assert(old_keys[j] != k);
                let at = lookup::last_index(front_keys, manifest[j].key);
                lookup::lemma_last_index(front_keys, manifest[j].key);
                if at is Some {
                    assert(front[at->0] == saved[at->0]);
                }
            }
            assert(after =~= before);
            lookup::lemma_last_index(keys, k);
            assert(merge::new_keys(manifest, saved).dom().contains(k));
            assert(names.to_set().contains(k));
            let t = choose|t: int| 0 <= t < names.len() && names[t] == k;
            let rest = names.remove(t);
            assert(rest.no_duplicates()) by {
                assert forall|a: int, b: int|
                    0 <= a < rest.len() && 0 <= b < rest.len() && a != b implies rest[a]
                        != rest[b] by {
                    let a2 = if a < t { a } else { a + 1 };
                    let b2 = if b < t { b } else { b + 1 };
                    assert(names[a2] != names[b2]);
                }
            }
            assert(rest.to_set() =~= merge::new_keys(manifest, front).dom()) by {
                assert forall|key: Seq<char>|
                    rest.to_set().contains(key) == merge::new_keys(manifest, front).dom().contains(
                        key,
                    ) by {
                    if rest.contains(key) {
                        let a = choose|a: int| 0 <= a < rest.len() && rest[a] == key;
                        let a2 = if a < t { a } else { a + 1 };
                        assert(names[a2] == key && a2 != t);
                        assert(names[a2] != names[t]);
                        assert(names.to_set().contains(key));
                    }
                    if merge::new_keys(manifest, front).dom().contains(key) {
                        assert(key != k);
                        assert(names.to_set().contains(key));
                        let a = choose|a: int| 0 <= a < names.len() && names[a] == key;
                        if a < t {
                            assert(rest[a] == key);
                        } else {
                            assert(rest[a - 1] == key);
                        }
                    }
                }
            }
            lemma_total_after_merge(manifest, front, rest);
            assert forall|a: int| 0 <= a < rest.len() implies rest[a] != k by {
                let a2 = if a < t { a } else { a + 1 };
                assert(names[a2] != names[t]);
            }
            lemma_same_entries(manifest, saved, rest);
            let entries = entries_for(saved, names);
            assert(entries.remove(t) =~= entries_for(saved, rest));
            assert(entries[t] == merge::entry_of(last));
            lemma_total_remove(entries, t);
        }
    }
}

/// Entries of keys other than the last are the same with and without the last.
proof fn lemma_same_entries(
    manifest: Seq<DataManifestEntryView>,
    saved: Seq<SavedEntryView>,
    names: Seq<Seq<char>>,
)
    requires
        saved.len() > 0,
        names.to_set() == merge::new_keys(manifest, saved.drop_last()).dom(),
        !merge::saved_keys(saved.drop_last()).contains(saved.last().key),
    ensures
        entries_for(saved, names) == entries_for(saved.drop_last(), names),
{
    let front = saved.drop_last();
    let keys = merge::saved_keys(saved);
    let front_keys = merge::saved_keys(front);
    assert(front_keys =~= keys.drop_last());
    assert forall|a: int| 0 <= a < names.len() implies entries_for(saved, names)[a] == entries_for(
        front,
        names,
    )[a] by {
        assert(names.to_set().contains(names[a]));
        lookup::lemma_last_index(front_keys, names[a]);
        assert(names[a] != keys.last());
        lemma_last_index_of_front(keys, names[a]);
        let at = lookup::last_index(front_keys, names[a])->0;
        assert(front[at] == saved[at]);
    }
    assert(entries_for(saved, names) =~= entries_for(front, names));
}

proof fn lemma_growth_of_accepted(
    manifest: Seq<DataManifestEntryView>,
    accepted: Seq<ValidUploadView>,
)
    ensures
        sync_laws::growth(manifest, accepted) == sizes_growth(manifest, accepted_sizes(accepted)),
    decreases accepted.len(),
{
    if accepted.len() > 0 {
        assert(accepted_sizes(accepted).drop_last() =~= accepted_sizes(accepted.drop_last()));
        lemma_growth_of_accepted(manifest, accepted.drop_last());
    }
}

/// A multiset of keys and sizes with distinct keys has distinct keys in any order.
proof fn lemma_saved_keys_distinct(accepted: Seq<ValidUploadView>, saved: Seq<SavedEntryView>)
    requires
        all_saved(accepted, saved),
        forall|a: int, b: int|
            0 <= a < b < accepted.len() ==> (#[trigger] accepted[a]).key != (
            #[trigger] accepted[b]).key,
    ensures
        merge::saved_keys(saved).no_duplicates(),
    decreases saved.len(),
{
    let s = saved_sizes(saved);
    let c = accepted_sizes(accepted);
    vstd::seq_lib::to_multiset_len(s);
    vstd::seq_lib::to_multiset_len(c);
    if saved.len() > 0 {
        let n = saved.len() - 1;
        let x = s[n];
        vstd::seq_lib::to_multiset_contains(s, x);
        vstd::seq_lib::to_multiset_contains(c, x);
        assert(s.contains(x));
        let i = choose|i: int| 0 <= i < c.len() && c[i] == x;
        let front = saved.drop_last();
        let others = accepted.remove(i);
        vstd::seq_lib::to_multiset_remove(s, n);
        vstd::seq_lib::to_multiset_remove(c, i);
        assert(s.remove(n) =~= saved_sizes(front));
        assert(c.remove(i) =~= accepted_sizes(others));
        assert forall|a: int, b: int| 0 <= a < b < others.len() implies (#[trigger] others[a]).key
            != (#[trigger] others[b]).key by {
            let a2 = if a < i { a } else { a + 1 };
            let b2 = if b < i { b } else { b + 1 };
            assert(others[a] == accepted[a2] && others[b] == accepted[b2]);
        }
        lemma_saved_keys_distinct(others, front);
        let keys = merge::saved_keys(saved);
        let front_keys = merge::saved_keys(front);
        assert forall|a: int| 0 <= a < n implies #[trigger] keys[a] != keys[n] by {
            let y = saved_sizes(front)[a];
            vstd::seq_lib::to_multiset_contains(saved_sizes(front), y);
            vstd::seq_lib::to_multiset_contains(accepted_sizes(others), y);
            assert(saved_sizes(front).contains(y));
            let j = choose|j: int|
                0 <= j < accepted_sizes(others).len() && accepted_sizes(others)[j] == y;
            let j2 = if j < i { j } else { j + 1 };
            assert(accepted[j2].key == keys[a]);
            assert(accepted[i].key == keys[n]);
            assert(j2 != i);
            if j2 < i {
                assert(accepted[j2].key != accepted[i].key);
            } else {
                assert(accepted[i].key != accepted[j2].key);
            }
        }
        assert forall|a: int, b: int|
            0 <= a < keys.len() && 0 <= b < keys.len() && a != b implies keys[a] != keys[b] by {
            if a < n && b < n {
                assert(front_keys[a] == keys[a] && front_keys[b] == keys[b]);
            }
        }
    }
}

/// After a sync whose accepted uploads were all stored, the sizes in the manifest add
/// up to the sum that the uploads were accepted by, which is within the limit as soon
/// as one was accepted.
pub proof fn law_sync_stays_within_quota(
    config: Config,
    manifest: Seq<DataManifestEntryView>,
    known: Seq<ClientManifestEntryView>,
    uploads: Seq<UploadEntryView>,
    hashes: Seq<u64>,
    saved: Seq<SavedEntryView>,
    extra: Seq<usize>,
)
    requires
        sync::manifest_keys(manifest).no_duplicates(),
        sync_laws::hashes_fit(uploads, hashes),
        saved.len() <= usize::MAX,
        all_saved(sync::judge(config, manifest, known, uploads, hashes).accepted, saved),
        index::one_per_key(merge::new_keys(manifest, saved), extra),
    ensures
        ({
            let judged = sync::judge(config, manifest, known, uploads, hashes);
            let total = sync::total_size(merge::merged_with(manifest, saved, extra));
            &&& total == judged.running
            &&& judged.accepted.len() > 0 ==> total <= sync::quota(config)
        }),
{
    let accepted = sync::judge(config, manifest, known, uploads, hashes).accepted;
    sync_laws::law_accepted_keys_are_distinct(config, manifest, known, uploads, hashes);
    sync_laws::law_accepted_uploads_stay_within_quota(config, manifest, known, uploads, hashes);
    lemma_saved_keys_distinct(accepted, saved);
    lemma_growth_of_accepted(manifest, accepted);
    lemma_growth_in_any_order(manifest, saved_sizes(saved), accepted_sizes(accepted));
    let m = merge::new_keys(manifest, saved);
    let names = choose|names: Seq<Seq<char>>|
        {
            &&& #[trigger] names.no_duplicates()
            &&& names.to_set() == m.dom()
            &&& extra == names.map_values(|k: Seq<char>| m[k])
        };
    lemma_total_after_merge(manifest, saved, names);
    let tail = extra.map_values(|j: usize| merge::entry_of(saved[j as int]));
    assert forall|t: int| 0 <= t < names.len() implies tail[t] == entries_for(saved, names)[t] by {
        assert(names.to_set().contains(names[t]));
        lookup::lemma_last_index(merge::saved_keys(saved), names[t]);
        assert(extra[t] == m[names[t]]);
    }
    assert(tail =~= entries_for(saved, names));
    lemma_total_concat(merge::merged(manifest, saved), tail);
}

} // verus!
