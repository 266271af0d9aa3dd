//! The end of a sync: the manifest with the stored uploads in it, and the reply.
use crate::index;
use crate::keys;
use crate::lookup;
use crate::sync::{self, ValidUpload, ValidUploadView};
use crate::text;
use crate::types::config::Config;
use crate::types::data::{
    DataManifestEntry, DataManifestEntryView, DbFailure, SavedEntry, SavedEntryView,
};
use crate::types::sync::{
    DownloadEntry, DownloadEntryView, SyncError, SyncErrorView, SyncResponse, SyncResponseView,
    UploadResult, UploadResultView,
};
use ahash::AHashMap;
use vstd::prelude::*;

verus! {

/// The views of saved entries.
pub open spec fn saved_view(saved: Seq<SavedEntry>) -> Seq<SavedEntryView> {
    saved.map_values(|e: SavedEntry| e@)
}

/// The keys of saved entries.
pub open spec fn saved_keys(saved: Seq<SavedEntryView>) -> Seq<Seq<char>> {
    saved.map_values(|e: SavedEntryView| e.key)
}

/// The manifest entry of a saved value.
pub open spec fn entry_of(e: SavedEntryView) -> DataManifestEntryView {
    DataManifestEntryView {
        key: e.key,
        version: e.version,
        checksum: e.checksum,
        size_bytes: e.size_bytes,
        updated_at: e.updated_at,
    }
}

/// The entry that stands at a place of the old manifest after the merge: the
/// first entry of a saved key gives way to what was saved last for that key.
pub open spec fn merged_at(
    manifest: Seq<DataManifestEntryView>,
    saved: Seq<SavedEntryView>,
    i: int,
) -> DataManifestEntryView {
    let key = manifest[i].key;
    let at = lookup::last_index(saved_keys(saved), key);
    if at is Some && !sync::manifest_keys(manifest).take(i).contains(key) {
        entry_of(saved[at->0])
    } else {
        manifest[i]
    }
}

/// The entries that stand at the places of the old manifest after the merge.
pub open spec fn merged(
    manifest: Seq<DataManifestEntryView>,
    saved: Seq<SavedEntryView>,
) -> Seq<DataManifestEntryView> {
    Seq::new(manifest.len(), |i: int| merged_at(manifest, saved, i))
}

/// The saved keys that the old manifest did not have, each with the place of what
/// was saved last for it.
pub open spec fn new_keys(
    manifest: Seq<DataManifestEntryView>,
    saved: Seq<SavedEntryView>,
) -> Map<Seq<char>, usize> {
    Map::new(
        |k: Seq<char>|
            lookup::last_index(saved_keys(saved), k) is Some && !sync::manifest_keys(
                manifest,
            ).contains(k),
        |k: Seq<char>| lookup::last_index(saved_keys(saved), k)->0 as usize,
    )
}

/// The merged manifest with the entries of the new keys behind it, which come in
/// the order of `extra`.
pub open spec fn merged_with(
    manifest: Seq<DataManifestEntryView>,
    saved: Seq<SavedEntryView>,
    extra: Seq<usize>,
) -> Seq<DataManifestEntryView> {
    merged(manifest, saved) + extra.map_values(|j: usize| entry_of(saved[j as int]))
}

/// What a client gets to see of a manifest.
pub open spec fn visible(
    config: Config,
    manifest: Seq<DataManifestEntryView>,
) -> Seq<DataManifestEntryView> {
    if config.datastore_enabled {
        manifest
    } else {
        manifest.filter(|e: DataManifestEntryView| !keys::datastore_key(e.key))
    }
}

/// Whether `r` is the manifest after a sync: the new keys may come in any order.
pub open spec fn is_final_manifest(
    config: Config,
    manifest: Seq<DataManifestEntryView>,
    saved: Seq<SavedEntryView>,
    r: Seq<DataManifestEntryView>,
) -> bool {
    exists|extra: Seq<usize>|
        #[trigger] index::one_per_key(new_keys(manifest, saved), extra) && r == visible(
            config,
            merged_with(manifest, saved, extra),
        )
}

fn index_saved<'a>(saved: &'a Vec<SavedEntry>) -> (r: AHashMap<&'a str, usize>)
    ensures
        lookup::indexes(index::positions(r), saved_keys(saved_view(saved@))),
{
    let mut list: Vec<&'a str> = Vec::new();
    let mut i: usize = 0;
    while i < saved.len()
        invariant
            i <= saved@.len(),
            text::views(list@) == saved_keys(saved_view(saved@)).take(i as int),
        decreases saved@.len() - i,
    {
        let ghost before = text::views(list@);
        list.push(saved[i].key.as_str());
        i = i + 1;
        assert(text::views(list@) =~= before.push(saved@[i - 1].key@));
        assert(text::views(list@) =~= saved_keys(saved_view(saved@)).take(i as int));
    }
    assert(text::views(list@) =~= saved_keys(saved_view(saved@)));
    lookup::index_keys(&list)
}

fn make_entry(e: &SavedEntry) -> (r: DataManifestEntry)
    ensures
        r@ == entry_of(e@),
{
    DataManifestEntry {
        key: e.key.clone(),
        version: e.version,
        checksum: e.checksum.clone(),
        size_bytes: e.size_bytes,
        updated_at: e.updated_at,
    }
}

proof fn lemma_places_in_range(
    manifest: Seq<DataManifestEntryView>,
    saved: Seq<SavedEntryView>,
    extra: Seq<usize>,
)
    requires
        index::one_per_key(new_keys(manifest, saved), extra),
    ensures
        forall|t: int| 0 <= t < extra.len() ==> (#[trigger] extra[t]) < saved.len(),
{
    let m = new_keys(manifest, saved);
    let names = choose|names: Seq<Seq<char>>|
        {
            &&& #[trigger] names.no_duplicates()
            &&& names.to_set() == m.dom()
            &&& extra == names.map_values(|k: Seq<char>| m[k])
        };
    assert forall|t: int| 0 <= t < extra.len() implies (#[trigger] extra[t]) < saved.len() by {
        assert(names.to_set().contains(names[t]));
        assert(m.dom().contains(names[t]));
        lookup::lemma_last_index(saved_keys(saved), names[t]);
    }
}

/// Puts what was saved into a manifest.
fn merge_manifest(manifest: Vec<DataManifestEntry>, saved: &Vec<SavedEntry>) -> (r: Vec<
    DataManifestEntry,
>)
    ensures
        exists|extra: Seq<usize>| #[trigger]
            index::one_per_key(new_keys(sync::manifest_view(manifest@), saved_view(saved@)), extra)
                && sync::manifest_view(r@) == merged_with(
                sync::manifest_view(manifest@),
                saved_view(saved@),
                extra,
            ),
{
    let ghost old_list = sync::manifest_view(manifest@);
    let ghost old_keys = sync::manifest_keys(old_list);
    let ghost fresh = saved_view(saved@);
    let ghost fresh_keys = saved_keys(fresh);
    let mut map = index_saved(saved);
    let n: usize = saved.len();
    let mut out: Vec<DataManifestEntry> = Vec::new();
    assert(old_keys.take(0) =~= Seq::<Seq<char>>::empty());
    assert(sync::manifest_view(out@) =~= merged(old_list, fresh).take(0));
    for entry in it: manifest
        invariant
            it.seq() == manifest@,
            old_list == sync::manifest_view(manifest@),
            old_keys == sync::manifest_keys(old_list),
            fresh == saved_view(saved@),
            fresh_keys == saved_keys(fresh),
            n == saved@.len(),
            forall|k: Seq<char>| #[trigger]
                index::positions(map).contains_key(k) <==> lookup::last_index(fresh_keys, k) is Some
                    && !old_keys.take(it.index() as int).contains(k),
            forall|k: Seq<char>| #[trigger]
                index::positions(map).contains_key(k) ==> lookup::last_index(fresh_keys, k) == Some(
                    index::positions(map)[k] as int,
                ),
            sync::manifest_view(out@) == merged(old_list, fresh).take(it.index() as int),
    {
        let ghost i = it.index() as int;
        let ghost before = sync::manifest_view(out@);
        proof {
            assert(old_list[i] == entry@);
            lookup::lemma_last_index(fresh_keys, entry.key@);
            assert forall|k: Seq<char>|
                old_keys.take(i + 1).contains(k) <==> old_keys.take(i).contains(k) || k
                    == entry.key@ by {
                assert(old_keys.take(i + 1) =~= old_keys.take(i).push(entry.key@));
                if old_keys.take(i).contains(k) {
                    let j = choose|j: int| 0 <= j < i && old_keys.take(i)[j] == k;
                    assert(old_keys.take(i + 1)[j] == k);
                }
                if k == entry.key@ {
                    assert(old_keys.take(i + 1)[i] == k);
                }
            }
        }
        let found = index::positions_remove(&mut map, entry.key.as_str());
        match found {
            Some(at) => {
                let item = make_entry(&saved[at]);
                let ghost shown = item@;
                out.push(item);
                assert(sync::manifest_view(out@) =~= before.push(shown));
                assert(merged(old_list, fresh)[i] == shown);
            },
            None => {
                let ghost shown = entry@;
                out.push(entry);
                assert(sync::manifest_view(out@) =~= before.push(shown));
                assert(merged(old_list, fresh)[i] == shown);
            },
        }
        assert(sync::manifest_view(out@) =~= merged(old_list, fresh).take(i + 1));
    }
    proof {
        assert(old_keys.take(old_keys.len() as int) =~= old_keys);
        assert(index::positions(map) =~= new_keys(old_list, fresh));
    }
    let extra = index::positions_into_values(map);
    proof {
        lemma_places_in_range(old_list, fresh, extra@);
        assert(merged(old_list, fresh).take(old_list.len() as int) =~= merged(old_list, fresh));
        assert(sync::manifest_view(out@) =~= merged_with(old_list, fresh, extra@.take(0)));
    }
    let mut t: usize = 0;
    while t < extra.len()
        invariant
            t <= extra@.len(),
            fresh == saved_view(saved@),
            n == saved@.len(),
            forall|t: int| 0 <= t < extra@.len() ==> (#[trigger] extra@[t]) < fresh.len(),
            sync::manifest_view(out@) == merged_with(old_list, fresh, extra@.take(t as int)),
        decreases extra@.len() - t,
    {
        let ghost before = sync::manifest_view(out@);
        let item = make_entry(&saved[extra[t]]);
        let ghost shown = item@;
        out.push(item);
        t = t + 1;
        assert(sync::manifest_view(out@) =~= before.push(shown));
        assert(sync::manifest_view(out@) =~= merged_with(old_list, fresh, extra@.take(t as int)));
    }
    assert(extra@.take(t as int) =~= extra@);
    out
}

/// Takes out what a client does not get to see.
pub fn keep_visible(config: &Config, manifest: Vec<DataManifestEntry>) -> (r: Vec<
    DataManifestEntry,
>)
    ensures
        sync::manifest_view(r@) == visible(*config, sync::manifest_view(manifest@)),
{
    if config.datastore_enabled {
        return manifest;
    }
    let ghost m = sync::manifest_view(manifest@);
    let ghost p = |e: DataManifestEntryView| !keys::datastore_key(e.key);
    let mut out: Vec<DataManifestEntry> = Vec::new();
    proof {
        reveal(Seq::filter);
        assert(m.take(0) =~= Seq::<DataManifestEntryView>::empty());
        assert(sync::manifest_view(out@) =~= m.take(0).filter(p));
    }
    for entry in it: manifest
        invariant
            it.seq() == manifest@,
            m == sync::manifest_view(manifest@),
            p == (|e: DataManifestEntryView| !keys::datastore_key(e.key)),
            sync::manifest_view(out@) == m.take(it.index() as int).filter(p),
    {
        let ghost i = it.index() as int;
        let ghost before = sync::manifest_view(out@);
        let ghost shown = entry@;
        proof {
            assert(m[i] == shown);
            sync::lemma_filter_step(m, i, p);
        }
        if !text::starts_with(entry.key.as_str(), "dataStore/") {
            out.push(entry);
            assert(sync::manifest_view(out@) =~= before.push(shown));
        }
    }
    assert(m.take(m.len() as int) =~= m);
    out
}

/// The keys of accepted uploads.
pub open spec fn accepted_keys(accepted: Seq<ValidUploadView>) -> Seq<Seq<char>> {
    accepted.map_values(|u: ValidUploadView| u.key)
}

/// What a client is told of the values that were saved.
pub open spec fn uploaded_of(saved: Seq<SavedEntryView>) -> Seq<UploadResultView> {
    saved.map_values(|e: SavedEntryView| result_of(e))
}

/// The keys of the uploads that are to be stored.
pub fn attempted_keys(accepted: &Vec<ValidUpload>) -> (r: Vec<String>)
    ensures
        text::string_views(r@) == accepted@.map_values(|u: ValidUpload| u.key@),
        text::string_views(r@) == accepted_keys(accepted@.map_values(|u: ValidUpload| u@)),
{
    let mut out: Vec<String> = Vec::new();
    let mut i: usize = 0;
    while i < accepted.len()
        invariant
            i <= accepted@.len(),
            text::string_views(out@) == accepted@.map_values(|u: ValidUpload| u.key@).take(
                i as int,
            ),
        decreases accepted@.len() - i,
    {
        let ghost before = text::string_views(out@);
        out.push(accepted[i].key.clone());
        i = i + 1;
        assert(text::string_views(out@) =~= before.push(accepted@[i - 1].key@));
        assert(text::string_views(out@) =~= accepted@.map_values(|u: ValidUpload| u.key@).take(
            i as int,
        ));
    }
    assert(text::string_views(out@) =~= accepted@.map_values(|u: ValidUpload| u.key@));
    assert(text::string_views(out@) =~= accepted_keys(accepted@.map_values(|u: ValidUpload| u@)));
    out
}

/// What a client is told of a saved upload.
pub open spec fn result_of(e: SavedEntryView) -> UploadResultView {
    UploadResultView { key: e.key, version: e.version, checksum: e.checksum }
}

fn list_uploaded(saved: &Vec<SavedEntry>) -> (r: Vec<UploadResult>)
    ensures
        r@.map_values(|u: UploadResult| u@) == saved_view(saved@).map_values(
            |e: SavedEntryView| result_of(e),
        ),
{
    let ghost expected = saved_view(saved@).map_values(|e: SavedEntryView| result_of(e));
    let mut out: Vec<UploadResult> = Vec::new();
    let mut i: usize = 0;
    while i < saved.len()
        invariant
            i <= saved@.len(),
            expected == saved_view(saved@).map_values(|e: SavedEntryView| result_of(e)),
            out@.map_values(|u: UploadResult| u@) == expected.take(i as int),
        decreases saved@.len() - i,
    {
        let ghost before = out@.map_values(|u: UploadResult| u@);
        let item = UploadResult {
            key: saved[i].key.clone(),
            version: saved[i].version,
            checksum: saved[i].checksum.clone(),
        };
        let ghost shown = item@;
        out.push(item);
        i = i + 1;
        assert(out@.map_values(|u: UploadResult| u@) =~= before.push(shown));
        assert(out@.map_values(|u: UploadResult| u@) =~= expected.take(i as int));
    }
    assert(out@.map_values(|u: UploadResult| u@) =~= expected);
    out
}

/// What was saved, or nothing where saving failed.
pub open spec fn saved_or_nothing(saved: Result<Vec<SavedEntry>, DbFailure>) -> Seq<SavedEntryView> {
    match saved {
        Ok(list) => saved_view(list@),
        Err(_) => seq![],
    }
}

/// All errors of a sync, in the order in which they arose.
pub open spec fn all_errors(
    download_errors: Seq<SyncErrorView>,
    upload_errors: Seq<SyncErrorView>,
    attempted: Seq<Seq<char>>,
    saved: bool,
) -> Seq<SyncErrorView> {
    download_errors + upload_errors + (if saved {
        seq![]
    } else {
        sync::failures(attempted, "Failed to save"@)
    })
}

/// Whether a response ends a sync: `saved` is what was saved, `None` where saving failed.
pub open spec fn ends_sync(
    config: Config,
    manifest: Seq<DataManifestEntryView>,
    downloads: Seq<DownloadEntryView>,
    download_errors: Seq<SyncErrorView>,
    upload_errors: Seq<SyncErrorView>,
    attempted: Seq<Seq<char>>,
    saved: Option<Seq<SavedEntryView>>,
    r: SyncResponseView,
) -> bool {
    let stored = match saved {
        Some(list) => list,
        None => seq![],
    };
    &&& is_final_manifest(config, manifest, stored, r.server_manifest)
    &&& r.downloads == downloads
    &&& r.uploaded == uploaded_of(stored)
    &&& r.errors == all_errors(download_errors, upload_errors, attempted, saved is Some)
}

/// What was saved, `None` where saving failed.
pub open spec fn saved_list(saved: Result<Vec<SavedEntry>, DbFailure>) -> Option<
    Seq<SavedEntryView>,
> {
    match saved {
        Ok(list) => Some(saved_view(list@)),
        Err(_) => None,
    }
}

/// Ends a sync. The errors come in the order in which they arose: downloads,
/// refused uploads, and every attempted key where saving failed.
pub fn finish_sync(
    config: &Config,
    manifest: Vec<DataManifestEntry>,
    downloads: Vec<DownloadEntry>,
    download_errors: Vec<SyncError>,
    upload_errors: Vec<SyncError>,
    attempted: Vec<String>,
    saved: Result<Vec<SavedEntry>, DbFailure>,
) -> (r: SyncResponse)
    ensures
        is_final_manifest(
            *config,
            sync::manifest_view(manifest@),
            saved_or_nothing(saved),
            r@.server_manifest,
        ),
        r.downloads == downloads,
        r@.uploaded == saved_or_nothing(saved).map_values(|e: SavedEntryView| result_of(e)),
        r@.uploaded == uploaded_of(saved_or_nothing(saved)),
        r@.errors == download_errors@.map_values(|e: SyncError| e@) + upload_errors@.map_values(
            |e: SyncError| e@,
        ) + (match saved {
            Ok(_) => seq![],
            Err(_) => sync::failures(text::string_views(attempted@), "Failed to save"@),
        }),
        r@.errors == all_errors(
            download_errors@.map_values(|e: SyncError| e@),
            upload_errors@.map_values(|e: SyncError| e@),
            text::string_views(attempted@),
            saved is Ok,
        ),
        ends_sync(
            *config,
            sync::manifest_view(manifest@),
            downloads@.map_values(|d: DownloadEntry| d@),
            download_errors@.map_values(|e: SyncError| e@),
            upload_errors@.map_values(|e: SyncError| e@),
            text::string_views(attempted@),
            saved_list(saved),
            r@,
        ),
{
    let ghost first = download_errors@.map_values(|e: SyncError| e@);
    let ghost second = upload_errors@.map_values(|e: SyncError| e@);
    let ghost old_list = sync::manifest_view(manifest@);
    let mut errors = download_errors;
    let mut more = upload_errors;
    errors.append(&mut more);
    assert(errors@.map_values(|e: SyncError| e@) =~= first + second);
    match saved {
        Ok(list) => {
            let uploaded = list_uploaded(&list);
            let whole = merge_manifest(manifest, &list);
            let server_manifest = keep_visible(config, whole);
            assert(first + second + seq![] =~= first + second);
            SyncResponse { server_manifest, downloads, uploaded, errors }
        },
        Err(_) => {
            let mut failed = sync::fail_all(attempted, "Failed to save");
            let ghost third = failed@.map_values(|e: SyncError| e@);
            errors.append(&mut failed);
            assert(errors@.map_values(|e: SyncError| e@) =~= first + second + third);
            let none: Vec<SavedEntry> = Vec::new();
            assert(saved_view(none@) =~= seq![]);
            let uploaded = list_uploaded(&none);
            let whole = merge_manifest(manifest, &none);
            let server_manifest = keep_visible(config, whole);
            SyncResponse { server_manifest, downloads, uploaded, errors }
        },
    }
}

/// A manifest with one entry per key stays so: after a sync, each key stands in
/// it once, a saved key with what was saved last for it, and every other key with
/// the entry that it had.
pub proof fn law_merge_keeps_one_entry_per_key(
    manifest: Seq<DataManifestEntryView>,
    saved: Seq<SavedEntryView>,
    extra: Seq<usize>,
)
    requires
        saved.len() <= usize::MAX,
        sync::manifest_keys(manifest).no_duplicates(),
        index::one_per_key(new_keys(manifest, saved), extra),
    ensures
        ({
            let r = merged_with(manifest, saved, extra);
            &&& sync::manifest_keys(r).no_duplicates()
            &&& forall|j: int|
                0 <= j < saved.len() && lookup::last_index(saved_keys(saved), saved[j].key) == Some(
                    j,
                ) ==> r.contains(#[trigger] entry_of(saved[j]))
            &&& forall|i: int|
                0 <= i < manifest.len() && !saved_keys(saved).contains(manifest[i].key)
                    ==> r.contains(#[trigger] manifest[i])
        }),
{
    let m = new_keys(manifest, saved);
    let old_keys = sync::manifest_keys(manifest);
    let r = merged_with(manifest, saved, extra);
    let rk = sync::manifest_keys(r);
    let names = choose|names: Seq<Seq<char>>|
        {
            &&& #[trigger] names.no_duplicates()
            &&& names.to_set() == m.dom()
            &&& extra == names.map_values(|k: Seq<char>| m[k])
        };
    let n = manifest.len() as int;
    assert forall|i: int| 0 <= i < n implies rk[i] == #[trigger] old_keys[i] && !old_keys.take(
        i,
    ).contains(old_keys[i]) by {
        lookup::lemma_last_index(saved_keys(saved), manifest[i].key);
        if old_keys.take(i).contains(old_keys[i]) {
            let h = choose|h: int| 0 <= h < i && old_keys.take(i)[h] == old_keys[i];
            assert(old_keys[h] == old_keys[i]);
        }
    }
    lemma_places_in_range(manifest, saved, extra);
    assert forall|t: int| 0 <= t < extra.len() implies rk[n + t] == #[trigger] names[t]
        && m.dom().contains(names[t]) by {
        assert(names.to_set().contains(names[t]));
        assert(m.dom().contains(names[t]));
        lookup::lemma_last_index(saved_keys(saved), names[t]);
        assert(extra[t] == m[names[t]]);
        assert(r[n + t] == entry_of(saved[extra[t] as int]));
        assert(saved_keys(saved)[extra[t] as int] == names[t]);
    }
    assert forall|a: int, b: int| 0 <= a < b < rk.len() implies rk[a] != rk[b] by {
        if b < n {
            assert(old_keys[a] != old_keys[b]);
        } else if a < n {
            assert(!old_keys.contains(names[b - n]));
            assert(old_keys[a] != names[b - n]);
        } else {
            assert(names[a - n] != names[b - n]);
        }
    }
    assert forall|j: int|
        0 <= j < saved.len() && lookup::last_index(saved_keys(saved), saved[j].key) == Some(
            j,
        ) implies r.contains(#[trigger] entry_of(saved[j])) by {
        let key = saved[j].key;
        if old_keys.contains(key) {
            let i = choose|i: int| 0 <= i < old_keys.len() && old_keys[i] == key;
            assert(rk[i] == old_keys[i]);
            assert(r[i] == entry_of(saved[j]));
        } else {
            assert(m.dom().contains(key));
            assert(names.to_set().contains(key));
            let t = choose|t: int| 0 <= t < names.len() && names[t] == key;
            assert(extra[t] == m[names[t]]);
            assert(r[n + t] == entry_of(saved[extra[t] as int]));
        }
    }
    assert forall|i: int|
        0 <= i < manifest.len() && !saved_keys(saved).contains(manifest[i].key) implies r.contains(
        #[trigger] manifest[i],
    ) by {
        lookup::lemma_last_index(saved_keys(saved), manifest[i].key);
        assert(r[i] == manifest[i]);
    }
}

/// Whether nothing behind place `j` was saved under its key.
pub open spec fn saved_last(saved: Seq<SavedEntryView>, j: int) -> bool {
    0 <= j < saved.len() && forall|h: int|
        j < h < saved.len() ==> (#[trigger] saved[h]).key != saved[j].key
}

/// Whether a manifest entry says of a saved value what was saved.
pub open spec fn tells(e: DataManifestEntryView, s: SavedEntryView) -> bool {
    &&& e.key == s.key
    &&& e.version == s.version
    &&& e.checksum == s.checksum
    &&& e.size_bytes == s.size_bytes
    &&& e.updated_at == s.updated_at
}

proof fn lemma_saved_last(saved: Seq<SavedEntryView>, j: int)
    requires
        0 <= j < saved.len(),
    ensures
        saved_last(saved, j) <==> lookup::last_index(saved_keys(saved), saved[j].key) == Some(j),
{
    let ks = saved_keys(saved);
    lookup::law_last_index_is_the_last_place(ks, saved[j].key, Some(j));
    assert(forall|h: int| 0 <= h < ks.len() ==> #[trigger] ks[h] == saved[h].key);
    assert(forall|h: int| 0 <= h < ks.len() ==> ks[h] == (#[trigger] saved[h]).key);
    lookup::lemma_last_index(ks, saved[j].key);
    if lookup::last_index(ks, saved[j].key) == Some(j) {
        assert forall|h: int| j < h < saved.len() implies (#[trigger] saved[h]).key
            != saved[j].key by {
            assert(ks[h] != saved[j].key);
        }
    }
}

proof fn lemma_extra_is_last(
    manifest: Seq<DataManifestEntryView>,
    saved: Seq<SavedEntryView>,
    extra: Seq<usize>,
    t: int,
)
    requires
        saved.len() <= usize::MAX,
        index::one_per_key(new_keys(manifest, saved), extra),
        0 <= t < extra.len(),
    ensures
        extra[t] < saved.len(),
        saved_last(saved, extra[t] as int),
{
    let m = new_keys(manifest, saved);
    let names = choose|names: Seq<Seq<char>>|
        {
            &&& #[trigger] names.no_duplicates()
            &&& names.to_set() == m.dom()
            &&& extra == names.map_values(|k: Seq<char>| m[k])
        };
    assert(names.to_set().contains(names[t]));
    assert(m.dom().contains(names[t]));
    lookup::lemma_last_index(saved_keys(saved), names[t]);
    assert(saved_keys(saved)[extra[t] as int] == names[t]);
    lemma_saved_last(saved, extra[t] as int);
}

/// After a sync, the manifest that a client sees lists just these entries: what was saved
/// last for each saved key, and the old entries of all other keys; and of them only those
/// in use. No key is listed twice.
pub proof fn law_final_manifest_lists_what_is_stored(
    config: Config,
    manifest: Seq<DataManifestEntryView>,
    saved: Seq<SavedEntryView>,
    r: Seq<DataManifestEntryView>,
    x: DataManifestEntryView,
)
    requires
        saved.len() <= usize::MAX,
        forall|a: int, b: int|
            0 <= a < b < manifest.len() ==> (#[trigger] manifest[a]).key != (
            #[trigger] manifest[b]).key,
        is_final_manifest(config, manifest, saved, r),
    ensures
        r.contains(x) <==> {
            &&& config.datastore_enabled || !"dataStore/"@.is_prefix_of(x.key)
            &&& {
                ||| exists|j: int| #[trigger] saved_last(saved, j) && tells(x, saved[j])
                ||| manifest.contains(x) && forall|j: int|
                    0 <= j < saved.len() ==> (#[trigger] saved[j]).key != x.key
            }
        },
{
    let extra = choose|extra: Seq<usize>|
        #[trigger] index::one_per_key(new_keys(manifest, saved), extra) && r == visible(
            config,
            merged_with(manifest, saved, extra),
        );
    let old_keys = sync::manifest_keys(manifest);
    let w = merged_with(manifest, saved, extra);
    let n = manifest.len() as int;
    assert(old_keys.no_duplicates());
    law_merge_keeps_one_entry_per_key(manifest, saved, extra);
    let p = |e: DataManifestEntryView| !keys::datastore_key(e.key);
    if !config.datastore_enabled {
        broadcast use vstd::seq_lib::group_filter_ensures;

        if r.contains(x) {
            w.lemma_filter_contains_rev(p, x);
            assert(p(x));
        }
        if w.contains(x) && p(x) {
            assert(w.filter(p).contains(x));
        }
    }
    if w.contains(x) {
        let i = choose|i: int| 0 <= i < w.len() && w[i] == x;
        if i < n {
            let key = manifest[i].key;
            lookup::lemma_last_index(saved_keys(saved), key);
            if old_keys.take(i).contains(key) {
                let h = choose|h: int| 0 <= h < i && old_keys.take(i)[h] == key;
                assert(manifest[h].key == manifest[i].key);
            }
            match lookup::last_index(saved_keys(saved), key) {
                Some(j) => {
                    lemma_saved_last(saved, j);
                    assert(saved_last(saved, j) && tells(x, saved[j]));
                },
                None => {
                    assert(x == manifest[i]);
                    assert forall|j: int| 0 <= j < saved.len() implies (#[trigger] saved[j]).key
                        != x.key by {
                        assert(saved_keys(saved)[j] == saved[j].key);
                    }
                },
            }
        } else {
            let t = i - n;
            lemma_extra_is_last(manifest, saved, extra, t);
            assert(x == entry_of(saved[extra[t] as int]));
            assert(saved_last(saved, extra[t] as int) && tells(x, saved[extra[t] as int]));
        }
    }
    if exists|j: int| #[trigger] saved_last(saved, j) && tells(x, saved[j]) {
        let j = choose|j: int| #[trigger] saved_last(saved, j) && tells(x, saved[j]);
        lemma_saved_last(saved, j);
        assert(entry_of(saved[j]) == x);
        assert(w.contains(x));
    }
    if manifest.contains(x) && forall|j: int|
        0 <= j < saved.len() ==> (#[trigger] saved[j]).key != x.key {
        let i = choose|i: int| 0 <= i < manifest.len() && manifest[i] == x;
        if saved_keys(saved).contains(manifest[i].key) {
            let j = choose|j: int| 0 <= j < saved.len() && saved_keys(saved)[j] == manifest[i].key;
            assert(saved[j].key == x.key);
        }
        assert(w.contains(manifest[i]));
    }
}

/// The merge leaves every key of the old manifest in its place. The first entry of a key
/// tells what was saved last for it; where nothing was saved for it, and at any further
/// entry of the key, the old entry stays. Behind the old places stand values of new keys.
pub proof fn law_merge_keeps_places(
    manifest: Seq<DataManifestEntryView>,
    saved: Seq<SavedEntryView>,
    extra: Seq<usize>,
    i: int,
)
    requires
        saved.len() <= usize::MAX,
        index::one_per_key(new_keys(manifest, saved), extra),
        0 <= i < merged_with(manifest, saved, extra).len(),
    ensures
        ({
            let r = merged_with(manifest, saved, extra);
            let first = forall|h: int| 0 <= h < i ==> (#[trigger] manifest[h]).key != manifest[i].key;
            &&& r.len() >= manifest.len()
            &&& i < manifest.len() ==> r[i].key == manifest[i].key
            &&& i < manifest.len() && first ==> {
                ||| exists|j: int| #[trigger] saved_last(saved, j) && tells(r[i], saved[j])
                ||| r[i] == manifest[i] && forall|j: int|
                    0 <= j < saved.len() ==> (#[trigger] saved[j]).key != manifest[i].key
            }
            &&& i < manifest.len() && !first ==> r[i] == manifest[i]
            &&& i >= manifest.len() ==> {
                &&& exists|j: int| #[trigger] saved_last(saved, j) && tells(r[i], saved[j])
                &&& forall|h: int|
                    0 <= h < manifest.len() ==> (#[trigger] manifest[h]).key != r[i].key
            }
        }),
{
    let r = merged_with(manifest, saved, extra);
    let n = manifest.len() as int;
    let old_keys = sync::manifest_keys(manifest);
    if i < n {
        let key = manifest[i].key;
        lookup::lemma_last_index(saved_keys(saved), key);
        if old_keys.take(i).contains(key) {
            let h = choose|h: int| 0 <= h < i && old_keys.take(i)[h] == key;
            assert(manifest[h].key == manifest[i].key);
        } else {
            assert forall|h: int| 0 <= h < i implies (#[trigger] manifest[h]).key != key by {
                assert(old_keys.take(i)[h] == manifest[h].key);
                if manifest[h].key == key {
                    assert(old_keys.take(i).contains(key));
                }
            }
        }
        match lookup::last_index(saved_keys(saved), key) {
            Some(j) => {
                assert(saved_keys(saved)[j] == saved[j].key);
                lemma_saved_last(saved, j);
                if !old_keys.take(i).contains(key) {
                    assert(saved_last(saved, j) && tells(r[i], saved[j]));
                }
            },
            None => {
                assert forall|j: int| 0 <= j < saved.len() implies (#[trigger] saved[j]).key
                    != key by {
                    assert(saved_keys(saved)[j] == saved[j].key);
                }
            },
        }
    } else {
        let t = i - n;
        lemma_extra_is_last(manifest, saved, extra, t);
        assert(r[i] == entry_of(saved[extra[t] as int]));
        assert(saved_last(saved, extra[t] as int) && tells(r[i], saved[extra[t] as int]));
        let m = new_keys(manifest, saved);
        let names = choose|names: Seq<Seq<char>>|
            {
                &&& #[trigger] names.no_duplicates()
                &&& names.to_set() == m.dom()
                &&& extra == names.map_values(|k: Seq<char>| m[k])
            };
        assert(names.to_set().contains(names[t]));
        assert(m.dom().contains(names[t]));
        lookup::lemma_last_index(saved_keys(saved), names[t]);
        assert(saved_keys(saved)[extra[t] as int] == names[t]);
        assert forall|h: int| 0 <= h < manifest.len() implies (#[trigger] manifest[h]).key
            != r[i].key by {
            assert(old_keys[h] == manifest[h].key);
        }
    }
}

/// What a client gets to see of a manifest is all of it while the data store is in use,
/// and else the entries of all other keys, in their order.
pub proof fn law_switched_off_data_store_is_not_seen(
    config: Config,
    manifest: Seq<DataManifestEntryView>,
    e: DataManifestEntryView,
)
    ensures
        config.datastore_enabled ==> visible(config, manifest) == manifest,
        visible(config, seq![]).len() == 0,
        visible(config, manifest.push(e)) == (if !config.datastore_enabled
            && "dataStore/"@.is_prefix_of(e.key) {
            visible(config, manifest)
        } else {
            visible(config, manifest).push(e)
        }),
{
    let p = |e: DataManifestEntryView| !keys::datastore_key(e.key);
    reveal(Seq::filter);
    assert(manifest.push(e).drop_last() =~= manifest);
    assert(Seq::<DataManifestEntryView>::empty().filter(p).len() == 0);
}

/// What a client is told of an upload agrees with the manifest that it gets: the same
/// key, version and checksum.
pub proof fn law_upload_result_agrees_with_the_manifest(s: SavedEntryView)
    ensures
        result_of(s).key == s.key && entry_of(s).key == s.key,
        result_of(s).version == s.version && entry_of(s).version == s.version,
        result_of(s).checksum == s.checksum && entry_of(s).checksum == s.checksum,
        entry_of(s).size_bytes == s.size_bytes,
        entry_of(s).updated_at == s.updated_at,
{
}

/// The errors of a sync are those of its downloads, then those of its uploads, and then,
/// only where saving failed, one for each key that was to be saved, in order.
pub proof fn law_failed_saving_names_every_key(
    download_errors: Seq<SyncErrorView>,
    upload_errors: Seq<SyncErrorView>,
    attempted: Seq<Seq<char>>,
    saved: bool,
    i: int,
)
    ensures
        ({
            let errors = all_errors(download_errors, upload_errors, attempted, saved);
            let d = download_errors.len() as int;
            let u = upload_errors.len() as int;
            &&& errors.len() == d + u + (if saved {
                0
            } else {
                attempted.len() as int
            })
            &&& 0 <= i < d ==> errors[i] == download_errors[i]
            &&& 0 <= i < u ==> errors[d + i] == upload_errors[i]
            &&& !saved && 0 <= i < attempted.len() ==> errors[d + u + i] == (SyncErrorView {
                key: attempted[i],
                error: "Failed to save"@,
            })
        }),
{
}

/// A client is told of each value that was saved, in order, under its key, with its version
/// and its checksum; and the keys that are to be saved are those of the accepted uploads.
pub proof fn law_client_is_told_of_each_saved_value(
    saved: Seq<SavedEntryView>,
    accepted: Seq<ValidUploadView>,
    i: int,
)
    ensures
        uploaded_of(saved).len() == saved.len(),
        0 <= i < saved.len() ==> uploaded_of(saved)[i].key == saved[i].key
            && uploaded_of(saved)[i].version == saved[i].version && uploaded_of(saved)[i].checksum
            == saved[i].checksum,
        accepted_keys(accepted).len() == accepted.len(),
        0 <= i < accepted.len() ==> accepted_keys(accepted)[i] == accepted[i].key,
{
}

/// Where saving failed, a sync ends with the old manifest as far as it is in use, tells of
/// no upload, and has an error for each key that was to be saved; the downloads are sent all
/// the same. Where it did not, a client is told of each saved value, and the manifest that
/// it gets tells what was saved last for it.
pub proof fn law_sync_ends_with_what_is_stored(
    config: Config,
    manifest: Seq<DataManifestEntryView>,
    downloads: Seq<DownloadEntryView>,
    download_errors: Seq<SyncErrorView>,
    upload_errors: Seq<SyncErrorView>,
    attempted: Seq<Seq<char>>,
    saved: Option<Seq<SavedEntryView>>,
    r: SyncResponseView,
    x: DataManifestEntryView,
    j: int,
)
    requires
        ends_sync(
            config,
            manifest,
            downloads,
            download_errors,
            upload_errors,
            attempted,
            saved,
            r,
        ),
        forall|a: int, b: int|
            0 <= a < b < manifest.len() ==> (#[trigger] manifest[a]).key != (
            #[trigger] manifest[b]).key,
        saved is Some ==> saved->0.len() <= usize::MAX,
    ensures
        r.downloads == downloads,
        saved is None ==> {
            &&& r.server_manifest.contains(x) <==> manifest.contains(x) && (config.datastore_enabled
                || !"dataStore/"@.is_prefix_of(x.key))
            &&& r.uploaded.len() == 0
            &&& r.errors.len() == download_errors.len() + upload_errors.len() + attempted.len()
        },
        saved matches Some(list) ==> {
            &&& r.uploaded.len() == list.len()
            &&& 0 <= j < list.len() ==> r.uploaded[j].key == list[j].key
            &&& saved_last(list, j) && (config.datastore_enabled || !"dataStore/"@.is_prefix_of(
                list[j].key,
            )) && tells(x, list[j]) ==> r.server_manifest.contains(x)
            &&& r.errors.len() == download_errors.len() + upload_errors.len()
        },
{
    let stored = match saved {
        Some(list) => list,
        None => seq![],
    };
    law_final_manifest_lists_what_is_stored(config, manifest, stored, r.server_manifest, x);
    law_failed_saving_names_every_key(
        download_errors,
        upload_errors,
        attempted,
        saved is Some,
        0,
    );
    law_client_is_told_of_each_saved_value(stored, seq![], j);
    if saved is None {
        assert(forall|j: int| !saved_last(stored, j));
    }
}

} // verus!
