//! What holds of every sync.
use crate::keys;
use crate::lookup;
use crate::numbers;
use crate::reply::ReplyBodyView;
use crate::sync::{self, ValidUploadView};
use crate::types::config::{self, Config};
use crate::types::data::{DataEntryView, DataManifestEntryView, DbFailure};
use crate::types::sync::{ClientManifestEntryView, SyncRequestView, UploadEntryView};
use crate::utils;
use std::collections::hash_map::DefaultHasher;
use vstd::prelude::*;
use vstd::std_specs::hash::DefaultHasherAdditionalSpecFns;
use vstd::utf8::encode_utf8;

verus! {

/// Every upload of a request is either refused or accepted, and only once.
pub proof fn law_every_upload_is_answered_once(
    config: Config,
    manifest: Seq<DataManifestEntryView>,
    known: Seq<ClientManifestEntryView>,
    uploads: Seq<UploadEntryView>,
    hashes: Seq<u64>,
)
    ensures
        ({
            let j = sync::judge(config, manifest, known, uploads, hashes);
            j.errors.len() + j.accepted.len() == uploads.len()
        }),
    decreases uploads.len(),
{
    if uploads.len() > 0 {
        law_every_upload_is_answered_once(config, manifest, known, uploads.drop_last(), hashes);
    }
}

/// Whether `v` is the accepted form of an upload that nothing speaks against.
pub open spec fn sound(
    config: Config,
    manifest: Seq<DataManifestEntryView>,
    known: Seq<ClientManifestEntryView>,
    upload: UploadEntryView,
    v: ValidUploadView,
) -> bool {
    &&& v.key == upload.key
    &&& v.value == upload.value
    &&& v.checksum == utils::checksum_of(upload.value)
    &&& upload.checksum is Some ==> upload.checksum->0 == v.checksum
    &&& utils::key_error(upload.key) is None
    &&& !keys::blocked(config, upload.key)
    &&& upload.value.len() <= keys::size_limit(config, upload.key)
    &&& !sync::dominated(manifest, known, upload.key)
}

/// What is accepted is one of the uploads: under a valid key that is in use, no
/// larger than the key allows, with the right checksum, and newer than what the
/// server holds.
pub proof fn law_accepted_uploads_are_sound(
    config: Config,
    manifest: Seq<DataManifestEntryView>,
    known: Seq<ClientManifestEntryView>,
    uploads: Seq<UploadEntryView>,
    hashes: Seq<u64>,
)
    ensures
        forall|a: int|
            0 <= a < sync::judge(config, manifest, known, uploads, hashes).accepted.len()
                ==> exists|i: int|
                0 <= i < uploads.len() && sound(
                    config,
                    manifest,
                    known,
                    #[trigger] uploads[i],
                    #[trigger] sync::judge(config, manifest, known, uploads, hashes).accepted[a],
                ),
    decreases uploads.len(),
{
    if uploads.len() > 0 {
        let front = uploads.drop_last();
        law_accepted_uploads_are_sound(config, manifest, known, front, hashes);
        let before = sync::judge(config, manifest, known, front, hashes);
        let after = sync::judge(config, manifest, known, uploads, hashes);
        assert forall|a: int| 0 <= a < after.accepted.len() implies exists|i: int|
            0 <= i < uploads.len() && sound(
                config,
                manifest,
                known,
                #[trigger] uploads[i],
                #[trigger] after.accepted[a],
            ) by {
            if a < before.accepted.len() {
                assert(after.accepted[a] == before.accepted[a]);
                let i = choose|i: int|
                    0 <= i < front.len() && sound(
                        config,
                        manifest,
                        known,
                        #[trigger] front[i],
                        before.accepted[a],
                    );
                assert(uploads[i] == front[i]);
            } else {
                let i = uploads.len() - 1;
                assert(sound(config, manifest, known, uploads[i], after.accepted[a]));
            }
        }
    }
}

/// Whether uploads of one key have one hash.
pub open spec fn hashes_fit(uploads: Seq<UploadEntryView>, hashes: Seq<u64>) -> bool {
    forall|i: int, k: int|
        0 <= i < uploads.len() && 0 <= k < uploads.len() && (#[trigger] uploads[i]).key == (
        #[trigger] uploads[k]).key ==> hashes[i] == hashes[k]
}

proof fn lemma_accepted_hashes_seen(
    config: Config,
    manifest: Seq<DataManifestEntryView>,
    known: Seq<ClientManifestEntryView>,
    uploads: Seq<UploadEntryView>,
    hashes: Seq<u64>,
)
    ensures
        ({
            let j = sync::judge(config, manifest, known, uploads, hashes);
            forall|a: int|
                0 <= a < j.accepted.len() ==> exists|i: int|
                    0 <= i < uploads.len() && (#[trigger] uploads[i]).key == (
                    #[trigger] j.accepted[a]).key && j.seen.contains(hashes[i])
        }),
    decreases uploads.len(),
{
    if uploads.len() > 0 {
        let front = uploads.drop_last();
        lemma_accepted_hashes_seen(config, manifest, known, front, hashes);
        let before = sync::judge(config, manifest, known, front, hashes);
        let after = sync::judge(config, manifest, known, uploads, hashes);
        assert forall|a: int| 0 <= a < after.accepted.len() implies exists|i: int|
            0 <= i < uploads.len() && (#[trigger] uploads[i]).key == (
            #[trigger] after.accepted[a]).key && after.seen.contains(hashes[i]) by {
            if a < before.accepted.len() {
                assert(after.accepted[a] == before.accepted[a]);
                let i = choose|i: int|
                    0 <= i < front.len() && (#[trigger] front[i]).key == before.accepted[a].key
                        && before.seen.contains(hashes[i]);
                assert(uploads[i] == front[i]);
            } else {
                let i = uploads.len() - 1;
                assert(uploads[i].key == after.accepted[a].key);
            }
        }
    }
}

/// No key is accepted twice in one request.
pub proof fn law_accepted_keys_are_distinct(
    config: Config,
    manifest: Seq<DataManifestEntryView>,
    known: Seq<ClientManifestEntryView>,
    uploads: Seq<UploadEntryView>,
    hashes: Seq<u64>,
)
    requires
        hashes_fit(uploads, hashes),
    ensures
        ({
            let accepted = sync::judge(config, manifest, known, uploads, hashes).accepted;
            forall|a: int, b: int|
                0 <= a < b < accepted.len() ==> (#[trigger] accepted[a]).key != (
                #[trigger] accepted[b]).key
        }),
    decreases uploads.len(),
{
    if uploads.len() > 0 {
        let front = uploads.drop_last();
        assert(hashes_fit(front, hashes)) by {
            assert forall|i: int, k: int|
                0 <= i < front.len() && 0 <= k < front.len() && (#[trigger] front[i]).key == (
                #[trigger] front[k]).key implies hashes[i] == hashes[k] by {
                assert(uploads[i] == front[i] && uploads[k] == front[k]);
            }
        }
        law_accepted_keys_are_distinct(config, manifest, known, front, hashes);
        lemma_accepted_hashes_seen(config, manifest, known, front, hashes);
        let before = sync::judge(config, manifest, known, front, hashes);
        let after = sync::judge(config, manifest, known, uploads, hashes);
        assert forall|a: int, b: int| 0 <= a < b < after.accepted.len() implies (
        #[trigger] after.accepted[a]).key != (#[trigger] after.accepted[b]).key by {
            assert(after.accepted[a] == before.accepted[a]);
            if b < before.accepted.len() {
                assert(after.accepted[b] == before.accepted[b]);
            } else if after.accepted[a].key == after.accepted[b].key {
                let i = choose|i: int|
                    0 <= i < front.len() && (#[trigger] front[i]).key == before.accepted[a].key
                        && before.seen.contains(hashes[i]);
                let last = uploads.len() - 1;
                assert(uploads[i] == front[i]);
                assert(uploads[i].key == uploads[last].key);
                assert(hashes[i] == hashes[last]);
            }
        }
    }
}

/// The hashes that a sync computes fit its uploads.
pub proof fn law_upload_hashes_fit(uploads: Seq<UploadEntryView>)
    ensures
        hashes_fit(uploads, sync::upload_hashes(uploads)),
{
}

/// By how much the accepted uploads make the stored data grow.
pub open spec fn growth(
    manifest: Seq<DataManifestEntryView>,
    accepted: Seq<ValidUploadView>,
) -> int
    decreases accepted.len(),
{
    if accepted.len() == 0 {
        0
    } else {
        growth(manifest, accepted.drop_last()) + accepted.last().value.len() - sync::stored_size(
            manifest,
            accepted.last().key,
        )
    }
}

/// Accepted uploads never take a user beyond the limit: the sum of all sizes with
/// them in it is what was stored plus their growth, and is within the limit as
/// soon as anything is accepted.
pub proof fn law_accepted_uploads_stay_within_quota(
    config: Config,
    manifest: Seq<DataManifestEntryView>,
    known: Seq<ClientManifestEntryView>,
    uploads: Seq<UploadEntryView>,
    hashes: Seq<u64>,
)
    ensures
        ({
            let j = sync::judge(config, manifest, known, uploads, hashes);
            &&& j.running == sync::total_size(manifest) + growth(manifest, j.accepted)
            &&& j.accepted.len() > 0 ==> j.running <= sync::quota(config)
        }),
    decreases uploads.len(),
{
    if uploads.len() > 0 {
        let front = uploads.drop_last();
        law_accepted_uploads_stay_within_quota(config, manifest, known, front, hashes);
        let before = sync::judge(config, manifest, known, front, hashes);
        let after = sync::judge(config, manifest, known, uploads, hashes);
        if after.accepted.len() > before.accepted.len() {
            assert(after.accepted.drop_last() =~= before.accepted);
        }
    }
}

/// A client that holds everything at its latest version fetches nothing.
pub proof fn law_up_to_date_client_fetches_nothing(
    config: Config,
    known: Seq<ClientManifestEntryView>,
    manifest: Seq<DataManifestEntryView>,
)
    requires
        forall|i: int| 0 <= i < manifest.len() ==> sync::up_to_date(known, #[trigger] manifest[i]),
    ensures
        sync::wanted_keys(config, known, manifest).len() == 0,
    decreases manifest.len(),
{
    reveal(Seq::filter);
    if manifest.len() > 0 {
        let front = manifest.drop_last();
        assert(sync::up_to_date(known, manifest.last()));
        assert forall|i: int| 0 <= i < front.len() implies sync::up_to_date(
            known,
            #[trigger] front[i],
        ) by {
            assert(front[i] == manifest[i]);
        }
        law_up_to_date_client_fetches_nothing(config, known, front);
    }
}

/// A request without uploads fetches every key that is in use.
pub proof fn law_request_without_uploads_fetches_all(config: Config, entry: DataManifestEntryView)
    ensures
        sync::must_download(config, seq![], entry) <==> !keys::blocked(config, entry.key),
{
}

proof fn lemma_every_upload_shows(
    config: Config,
    manifest: Seq<DataManifestEntryView>,
    known: Seq<ClientManifestEntryView>,
    uploads: Seq<UploadEntryView>,
    hashes: Seq<u64>,
    i: int,
)
    requires
        0 <= i < uploads.len(),
    ensures
        ({
            let j = sync::judge(config, manifest, known, uploads, hashes);
            ||| exists|a: int|
                0 <= a < j.accepted.len() && (#[trigger] j.accepted[a]).key == uploads[i].key
            ||| exists|e: int|
                0 <= e < j.errors.len() && (#[trigger] j.errors[e]).key == uploads[i].key
        }),
    decreases uploads.len(),
{
    let front = uploads.drop_last();
    let before = sync::judge(config, manifest, known, front, hashes);
    let after = sync::judge(config, manifest, known, uploads, hashes);
    let key = uploads[i].key;
    if i < front.len() {
        lemma_every_upload_shows(config, manifest, known, front, hashes, i);
        assert(front[i] == uploads[i]);
        if exists|a: int|
            0 <= a < before.accepted.len() && (#[trigger] before.accepted[a]).key == key {
            let a = choose|a: int|
                0 <= a < before.accepted.len() && (#[trigger] before.accepted[a]).key == key;
            assert(after.accepted[a] == before.accepted[a]);
        } else {
            let e = choose|e: int|
                0 <= e < before.errors.len() && (#[trigger] before.errors[e]).key == key;
            assert(after.errors[e] == before.errors[e]);
        }
    } else if after.accepted.len() > before.accepted.len() {
        assert(after.accepted[before.accepted.len() as int].key == key);
    } else {
        assert(after.errors[before.errors.len() as int].key == key);
    }
}

/// A stale client never overwrites newer data. Let the server hold a key last at place
/// `s` of its manifest. If the client's last word on the key, at place `c` of its own
/// manifest, is a version that is not greater, or the client says nothing of the key,
/// then no upload of the key is accepted, and an error for the key is returned.
pub proof fn law_stale_client_never_overwrites(
    config: Config,
    manifest: Seq<DataManifestEntryView>,
    request: SyncRequestView,
    hashes: Seq<u64>,
    key: Seq<char>,
    s: int,
    c: Option<int>,
    i: int,
)
    requires
        0 <= s < manifest.len(),
        manifest[s].key == key,
        forall|t: int| s < t < manifest.len() ==> (#[trigger] manifest[t]).key != key,
        match c {
            Some(c) => {
                &&& 0 <= c < request.client_manifest.len()
                &&& request.client_manifest[c].key == key
                &&& forall|d: int|
                    c < d < request.client_manifest.len() ==> (
                    #[trigger] request.client_manifest[d]).key != key
                &&& request.client_manifest[c].version <= manifest[s].version
            },
            None => forall|d: int|
                0 <= d < request.client_manifest.len() ==> (
                #[trigger] request.client_manifest[d]).key != key,
        },
        0 <= i < request.uploads.len(),
        request.uploads[i].key == key,
    ensures
        ({
            let plan = sync::plan_of(config, manifest, request, hashes);
            &&& forall|a: int|
                0 <= a < plan.accepted.len() ==> (#[trigger] plan.accepted[a]).key != key
            &&& exists|e: int| 0 <= e < plan.errors.len() && (#[trigger] plan.errors[e]).key == key
        }),
{
    let known = request.client_manifest;
    let j = sync::judge(config, manifest, known, request.uploads, hashes);
    lemma_last_entries(manifest, known, key, Some(s), c);
    law_accepted_uploads_are_sound(config, manifest, known, request.uploads, hashes);
    assert forall|a: int| 0 <= a < j.accepted.len() implies (#[trigger] j.accepted[a]).key
        != key by {
        let u = choose|u: int|
            0 <= u < request.uploads.len() && sound(
                config,
                manifest,
                known,
                #[trigger] request.uploads[u],
                j.accepted[a],
            );
        assert(request.uploads[u].key == j.accepted[a].key);
    }
    lemma_every_upload_shows(config, manifest, known, request.uploads, hashes, i);
    assert(sync::known_to_client(request) == known);
    assert(sync::plan_of(config, manifest, request, hashes).accepted == j.accepted);
    assert(sync::plan_of(config, manifest, request, hashes).errors == j.errors);
    assert(exists|e: int| 0 <= e < j.errors.len() && (#[trigger] j.errors[e]).key == key);
}

proof fn lemma_last_entries(
    manifest: Seq<DataManifestEntryView>,
    known: Seq<ClientManifestEntryView>,
    key: Seq<char>,
    s: Option<int>,
    c: Option<int>,
)
    ensures
        (match s {
            Some(s) => 0 <= s < manifest.len() && manifest[s].key == key && forall|t: int|
                s < t < manifest.len() ==> (#[trigger] manifest[t]).key != key,
            None => forall|t: int| 0 <= t < manifest.len() ==> (#[trigger] manifest[t]).key != key,
        }) ==> lookup::last_index(sync::manifest_keys(manifest), key) == s,
        (match c {
            Some(c) => 0 <= c < known.len() && known[c].key == key && forall|d: int|
                c < d < known.len() ==> (#[trigger] known[d]).key != key,
            None => forall|d: int| 0 <= d < known.len() ==> (#[trigger] known[d]).key != key,
        }) ==> lookup::last_index(sync::client_keys(known), key) == c,
{
    let sk = sync::manifest_keys(manifest);
    let ck = sync::client_keys(known);
    lookup::law_last_index_is_the_last_place(sk, key, s);
    lookup::law_last_index_is_the_last_place(ck, key, c);
    assert(forall|t: int| 0 <= t < sk.len() ==> #[trigger] sk[t] == manifest[t].key);
    assert(forall|d: int| 0 <= d < ck.len() ==> #[trigger] ck[d] == known[d].key);
}

/// Whether `c` is the client's last word on a key, `None` where it says nothing.
pub open spec fn last_word(
    client: Seq<ClientManifestEntryView>,
    key: Seq<char>,
    c: Option<int>,
) -> bool {
    match c {
        Some(c) => 0 <= c < client.len() && client[c].key == key && forall|d: int|
            c < d < client.len() ==> (#[trigger] client[d]).key != key,
        None => forall|d: int| 0 <= d < client.len() ==> (#[trigger] client[d]).key != key,
    }
}

/// A client fetches a key just if the server lists it, it is in use, and the client is
/// not up to date with it: it says nothing of the key, its last word on it is a smaller
/// version, or its last word is another checksum. A request without uploads counts as
/// saying nothing.
pub proof fn law_client_fetches_what_it_lacks(
    config: Config,
    manifest: Seq<DataManifestEntryView>,
    request: SyncRequestView,
    hashes: Seq<u64>,
    i: int,
    c: Option<int>,
)
    requires
        0 <= i < manifest.len(),
        last_word(request.client_manifest, manifest[i].key, c),
        config.datastore_enabled || !"dataStore/"@.is_prefix_of(manifest[i].key),
    ensures
        ({
            let wanted = sync::plan_of(config, manifest, request, hashes).wanted;
            let key = manifest[i].key;
            let client = request.client_manifest;
            &&& request.uploads.len() == 0 ==> wanted.contains(key)
            &&& c is None ==> wanted.contains(key)
            &&& c is Some && client[c->0].version < manifest[i].version ==> wanted.contains(key)
            &&& c is Some && client[c->0].checksum != manifest[i].checksum ==> wanted.contains(key)
            &&& {
                &&& request.uploads.len() > 0
                &&& c is Some
                &&& forall|t: int|
                    0 <= t < manifest.len() && (#[trigger] manifest[t]).key == key
                        ==> client[c->0].version >= manifest[t].version && client[c->0].checksum
                        == manifest[t].checksum
            } ==> !wanted.contains(key)
        }),
{
    let known = sync::known_to_client(request);
    let key = manifest[i].key;
    let p = |e: DataManifestEntryView| sync::must_download(config, known, e);
    lemma_last_entries(manifest, request.client_manifest, key, None, c);
    if request.uploads.len() == 0 {
        lemma_last_entries(manifest, known, key, None, None);
    }
    lemma_wanted(config, known, manifest, key);
    if p(manifest[i]) {
        assert(manifest[i].key == key);
    }
}

proof fn lemma_wanted(
    config: Config,
    known: Seq<ClientManifestEntryView>,
    manifest: Seq<DataManifestEntryView>,
    key: Seq<char>,
)
    ensures
        sync::wanted_keys(config, known, manifest).contains(key) <==> exists|t: int|
            0 <= t < manifest.len() && (#[trigger] manifest[t]).key == key && sync::must_download(
                config,
                known,
                manifest[t],
            ),
{
    let p = |e: DataManifestEntryView| sync::must_download(config, known, e);
    let kept = manifest.filter(p);
    let wanted = sync::wanted_keys(config, known, manifest);
    broadcast use vstd::seq_lib::group_filter_ensures;

    if wanted.contains(key) {
        let w = choose|w: int| 0 <= w < wanted.len() && wanted[w] == key;
        assert(kept[w].key == key);
        assert(p(kept[w]));
        assert(kept.contains(kept[w]));
        manifest.lemma_filter_contains_rev(p, kept[w]);
        let t = choose|t: int| 0 <= t < manifest.len() && manifest[t] == kept[w];
        assert(manifest[t].key == key);
    }
    if exists|t: int|
        0 <= t < manifest.len() && (#[trigger] manifest[t]).key == key && sync::must_download(
            config,
            known,
            manifest[t],
        ) {
        let t = choose|t: int|
            0 <= t < manifest.len() && (#[trigger] manifest[t]).key == key && sync::must_download(
                config,
                known,
                manifest[t],
            );
        assert(p(manifest[t]));
        assert(kept.contains(manifest[t]));
        let w = choose|w: int| 0 <= w < kept.len() && kept[w] == manifest[t];
        assert(wanted[w] == key);
    }
}

/// A client never fetches what the server does not list, nor a key of the data store
/// while that is switched off.
pub proof fn law_client_fetches_only_what_is_listed_and_in_use(
    config: Config,
    manifest: Seq<DataManifestEntryView>,
    request: SyncRequestView,
    hashes: Seq<u64>,
    key: Seq<char>,
)
    requires
        sync::plan_of(config, manifest, request, hashes).wanted.contains(key),
    ensures
        exists|t: int| 0 <= t < manifest.len() && (#[trigger] manifest[t]).key == key,
        config.datastore_enabled || !"dataStore/"@.is_prefix_of(key),
{
    lemma_wanted(config, sync::known_to_client(request), manifest, key);
}

/// The sum of all sizes is that of no entries, of one entry, and of two listings put
/// together.
pub proof fn law_total_is_the_sum_of_the_sizes(
    a: Seq<DataManifestEntryView>,
    e: DataManifestEntryView,
    b: Seq<DataManifestEntryView>,
)
    ensures
        sync::total_size(seq![]) == 0,
        sync::total_size(seq![e]) == e.size_bytes,
        sync::total_size(a + b) == sync::total_size(a) + sync::total_size(b),
    decreases b.len(),
{
    reveal_with_fuel(sync::total_size, 2);
    assert(seq![e].drop_last() =~= seq![]);
    if b.len() == 0 {
        assert(a + b =~= a);
    } else {
        assert((a + b).drop_last() =~= a + b.drop_last());
        law_total_is_the_sum_of_the_sizes(a, e, b.drop_last());
    }
}

proof fn lemma_seen(
    config: Config,
    manifest: Seq<DataManifestEntryView>,
    known: Seq<ClientManifestEntryView>,
    uploads: Seq<UploadEntryView>,
    hashes: Seq<u64>,
    hash: u64,
)
    ensures
        sync::judge(config, manifest, known, uploads, hashes).seen.contains(hash) <==> exists|i: int|
            0 <= i < uploads.len() && #[trigger] hashes[i] == hash,
    decreases uploads.len(),
{
    if uploads.len() > 0 {
        let front = uploads.drop_last();
        lemma_seen(config, manifest, known, front, hashes, hash);
        let last = uploads.len() - 1;
        if exists|i: int| 0 <= i < uploads.len() && #[trigger] hashes[i] == hash {
            let i = choose|i: int| 0 <= i < uploads.len() && #[trigger] hashes[i] == hash;
            if i < last {
                assert(0 <= i < front.len() && hashes[i] == hash);
            }
        }
        if exists|i: int| 0 <= i < front.len() && #[trigger] hashes[i] == hash {
            let i = choose|i: int| 0 <= i < front.len() && #[trigger] hashes[i] == hash;
            assert(0 <= i < uploads.len() && hashes[i] == hash);
        }
        if hashes[last] == hash {
            assert(0 <= last < uploads.len() && hashes[last] == hash);
        }
    }
}

/// Whether `s` is the last place of a key in the server's manifest, `None` where the
/// server does not hold the key.
pub open spec fn last_held(
    manifest: Seq<DataManifestEntryView>,
    key: Seq<char>,
    s: Option<int>,
) -> bool {
    match s {
        Some(s) => 0 <= s < manifest.len() && manifest[s].key == key && forall|t: int|
            s < t < manifest.len() ==> (#[trigger] manifest[t]).key != key,
        None => forall|t: int| 0 <= t < manifest.len() ==> (#[trigger] manifest[t]).key != key,
    }
}

/// Whether nothing speaks against an upload but the room that there is: no upload before
/// it has its hash, its key is accepted and in use, its value is no larger than keys of
/// its kind allow, its checksum, if there is one, is right, and the server does not hold
/// the key or holds it at a smaller version than the client's last word.
pub open spec fn nothing_wrong(
    config: Config,
    manifest: Seq<DataManifestEntryView>,
    client: Seq<ClientManifestEntryView>,
    hashes: Seq<u64>,
    at: int,
    upload: UploadEntryView,
    s: Option<int>,
    c: Option<int>,
) -> bool {
    let stores = "dataStore/"@.is_prefix_of(upload.key);
    &&& forall|i: int| 0 <= i < at ==> #[trigger] hashes[i] != hashes[at]
    &&& utils::key_error(upload.key) is None
    &&& config.datastore_enabled || !stores
    &&& upload.value.len() <= (if stores {
        config.max_datastore_key_size_bytes
    } else {
        config.max_key_size_bytes
    })
    &&& upload.checksum is Some ==> upload.checksum->0 == utils::checksum_of(upload.value)
    &&& s is Some ==> c is Some && client[c->0].version > manifest[s->0].version
}

/// What becomes of the next upload of a request. It is accepted, with its key, its value
/// and the checksum of its value, just if nothing is wrong with it and the sum of all
/// sizes with it, which is that before it less what the server holds for its key, stays
/// within the limit; the sum is then that. Else it is answered with an error for its key,
/// and the sum stays.
pub proof fn law_verdict_on_the_next_upload(
    config: Config,
    manifest: Seq<DataManifestEntryView>,
    client: Seq<ClientManifestEntryView>,
    before: Seq<UploadEntryView>,
    upload: UploadEntryView,
    hashes: Seq<u64>,
    s: Option<int>,
    c: Option<int>,
)
    requires
        last_held(manifest, upload.key, s),
        last_word(client, upload.key, c),
    ensures
        ({
            let so_far = sync::judge(config, manifest, client, before, hashes);
            let after = sync::judge(config, manifest, client, before.push(upload), hashes);
            let held = if s is Some {
                manifest[s->0].size_bytes as int
            } else {
                0
            };
            let total = so_far.running - held + upload.value.len();
            let fine = nothing_wrong(
                config,
                manifest,
                client,
                hashes,
                before.len() as int,
                upload,
                s,
                c,
            );
            if fine && total <= config.max_backup_size_bytes as i64 {
                &&& after.errors == so_far.errors
                &&& after.running == total
                &&& after.accepted.len() == so_far.accepted.len() + 1
                &&& after.accepted.drop_last() == so_far.accepted
                &&& after.accepted.last().key == upload.key
                &&& after.accepted.last().value == upload.value
                &&& after.accepted.last().checksum == utils::checksum_of(upload.value)
            } else {
                &&& after.accepted == so_far.accepted
                &&& after.running == so_far.running
                &&& after.errors.len() == so_far.errors.len() + 1
                &&& after.errors.drop_last() == so_far.errors
                &&& after.errors.last().key == upload.key
                &&& fine ==> after.errors.last().error == "Total storage limit exceeded"@
            }
        }),
{
    let so_far = sync::judge(config, manifest, client, before, hashes);
    let uploads = before.push(upload);
    let after = sync::judge(config, manifest, client, uploads, hashes);
    assert(uploads.drop_last() =~= before);
    assert(uploads.last() == upload);
    lemma_last_entries(manifest, client, upload.key, s, c);
    let n = before.len() as int;
    lemma_seen(config, manifest, client, before, hashes, hashes[n]);
    if so_far.seen.contains(hashes[n]) {
        let i = choose|i: int| 0 <= i < before.len() && #[trigger] hashes[i] == hashes[n];
        assert(hashes[i] == hashes[n]);
    }
    if after.accepted.len() > so_far.accepted.len() {
        assert(after.accepted.drop_last() =~= so_far.accepted);
    } else {
        assert(after.errors.drop_last() =~= so_far.errors);
    }
}

/// The error of an upload says the first thing that is wrong with it.
pub proof fn law_error_says_what_is_wrong_first(
    config: Config,
    manifest: Seq<DataManifestEntryView>,
    client: Seq<ClientManifestEntryView>,
    before: Seq<UploadEntryView>,
    upload: UploadEntryView,
    hashes: Seq<u64>,
    s: Option<int>,
    c: Option<int>,
)
    requires
        last_held(manifest, upload.key, s),
        last_word(client, upload.key, c),
    ensures
        ({
            let after = sync::judge(config, manifest, client, before.push(upload), hashes);
            let said = after.errors.last();
            let n = before.len() as int;
            let again = exists|i: int| 0 <= i < n && #[trigger] hashes[i] == hashes[n];
            let bad_key = utils::key_error(upload.key);
            let stores = "dataStore/"@.is_prefix_of(upload.key);
            let limit = if stores {
                config.max_datastore_key_size_bytes
            } else {
                config.max_key_size_bytes
            };
            let off = stores && !config.datastore_enabled;
            let large = upload.value.len() > limit;
            let damaged = upload.checksum is Some && upload.checksum->0 != utils::checksum_of(
                upload.value,
            );
            let stale = s is Some && (c is None || client[c->0].version <= manifest[s->0].version);
            &&& again ==> said.error == "Duplicate key in same upload batch"@
            &&& !again && bad_key is Some ==> said.error == config::key_error_text(bad_key->0)
            &&& !again && bad_key is None && off ==> said.error == "DataStore sync is disabled"@
            &&& !again && bad_key is None && !off && large ==> said.error == "Value exceeds "@
                + numbers::decimal((limit / 1024 / 1024) as nat) + "MB limit"@
            &&& !again && bad_key is None && !off && !large && damaged ==> said.error
                == "Checksum mismatch"@
            &&& !again && bad_key is None && !off && !large && !damaged && stale ==> said.error
                == "Server has equal or newer version; pull before pushing"@
        }),
{
    let so_far = sync::judge(config, manifest, client, before, hashes);
    let uploads = before.push(upload);
    assert(uploads.drop_last() =~= before);
    assert(uploads.last() == upload);
    lemma_last_entries(manifest, client, upload.key, s, c);
    lemma_seen(config, manifest, client, before, hashes, hashes[before.len() as int]);
}

/// A sync begins with no error and nothing accepted, and with the sum of all stored
/// sizes.
pub proof fn law_sync_begins_with_what_is_stored(
    config: Config,
    manifest: Seq<DataManifestEntryView>,
    client: Seq<ClientManifestEntryView>,
    hashes: Seq<u64>,
)
    ensures
        ({
            let start = sync::judge(config, manifest, client, seq![], hashes);
            start.running == sync::total_size(manifest) && start.errors.len() == 0
                && start.accepted.len() == 0
        }),
{
}

/// The plan for a request with uploads judges all of them by what the client said.
pub proof fn law_plan_judges_all_uploads(
    config: Config,
    manifest: Seq<DataManifestEntryView>,
    request: SyncRequestView,
    hashes: Seq<u64>,
)
    ensures
        ({
            let plan = sync::plan_of(config, manifest, request, hashes);
            let judged = sync::judge(
                config,
                manifest,
                request.client_manifest,
                request.uploads,
                hashes,
            );
            &&& plan.accepted == judged.accepted
            &&& plan.errors == judged.errors
            &&& plan.accepted.len() + plan.errors.len() == request.uploads.len()
        }),
{
    law_every_upload_is_answered_once(
        config,
        manifest,
        request.client_manifest,
        request.uploads,
        hashes,
    );
}

/// What a client fetches comes in the order of the manifest, once for each entry: the
/// keys that it fetches of two manifests put together are those of the first and then
/// those of the second.
pub proof fn law_client_fetches_in_the_order_of_the_manifest(
    config: Config,
    a: Seq<DataManifestEntryView>,
    e: DataManifestEntryView,
    request: SyncRequestView,
    hashes: Seq<u64>,
)
    ensures
        ({
            let before = sync::plan_of(config, a, request, hashes).wanted;
            let alone = sync::plan_of(config, seq![e], request, hashes).wanted;
            let after = sync::plan_of(config, a.push(e), request, hashes).wanted;
            &&& sync::plan_of(config, seq![], request, hashes).wanted.len() == 0
            &&& after == before + alone
            &&& alone.len() == 0 || alone == seq![e.key]
        }),
{
    let known = sync::known_to_client(request);
    let p = |e: DataManifestEntryView| sync::must_download(config, known, e);
    reveal(Seq::filter);
    let none = Seq::<DataManifestEntryView>::empty();
    assert(none.filter(p) =~= none);
    assert(a.push(e).drop_last() =~= a);
    assert(seq![e].drop_last() =~= none);
    assert(sync::wanted_keys(config, known, none) =~= Seq::<Seq<char>>::empty());
    let before = sync::wanted_keys(config, known, a);
    let alone = sync::wanted_keys(config, known, seq![e]);
    if p(e) {
        assert(alone =~= seq![e.key]);
        assert(sync::wanted_keys(config, known, a.push(e)) =~= before.push(e.key));
        assert(before.push(e.key) =~= before + alone);
    } else {
        assert(alone =~= Seq::<Seq<char>>::empty());
        assert(sync::wanted_keys(config, known, a.push(e)) =~= before);
        assert(before =~= before + alone);
    }
}

/// A request is refused as too large just if it has more uploads than are allowed, or
/// more entries in the client's manifest, and always with status 413.
pub proof fn law_only_large_requests_are_refused(config: Config, request: SyncRequestView)
    ensures
        ({
            let refused = sync::limit_error(config, request);
            &&& refused is Some <==> request.uploads.len() > config.max_sync_uploads
                || request.client_manifest.len() > config.max_sync_manifest_entries
            &&& refused is Some ==> refused->0.status == 413
            &&& request.uploads.len() > config.max_sync_uploads ==> refused->0.body
                == ReplyBodyView::Error("Too many uploads in a single request"@)
            &&& request.uploads.len() <= config.max_sync_uploads && refused is Some
                ==> refused->0.body == ReplyBodyView::Error("Client manifest too large"@)
        }),
{
}

/// A download carries the key, the bytes, the version and the checksum of the value that
/// was read, and nothing else can give the same download.
pub proof fn law_download_carries_the_value(e: DataEntryView, f: DataEntryView)
    ensures
        sync::download_of(e) == sync::download_of(f) <==> e.key == f.key && e.value == f.value
            && e.version == f.version && e.checksum == f.checksum,
        sync::download_of(e).key == e.key,
        sync::download_of(e).value == e.value,
        sync::download_of(e).version == e.version,
        sync::download_of(e).checksum == e.checksum,
{
}

/// Where nothing could be done for some keys, each of them gets one error, in order.
pub proof fn law_each_failed_key_gets_one_error(
    names: Seq<Seq<char>>,
    message: Seq<char>,
    i: int,
)
    ensures
        sync::failures(names, message).len() == names.len(),
        0 <= i < names.len() ==> sync::failures(names, message)[i].key == names[i],
        0 <= i < names.len() ==> sync::failures(names, message)[i].error == message,
{
}

/// Every value that was fetched is sent, in order, with its key, its bytes, its version and
/// its checksum, and there is no error; where fetching failed nothing is sent, and each key
/// that was wanted gets one error.
pub proof fn law_fetched_values_are_sent(
    wanted: Seq<Seq<char>>,
    entries: Seq<DataEntryView>,
    i: int,
)
    ensures
        ({
            let (sent, errors) = sync::downloads_of(wanted, Ok(entries));
            &&& sent.len() == entries.len()
            &&& errors.len() == 0
            &&& 0 <= i < entries.len() ==> sent[i].key == entries[i].key && sent[i].value
                == entries[i].value && sent[i].version == entries[i].version && sent[i].checksum
                == entries[i].checksum
        }),
        ({
            let (sent, errors) = sync::downloads_of(wanted, Err(DbFailure));
            &&& sent.len() == 0
            &&& errors.len() == wanted.len()
            &&& 0 <= i < wanted.len() ==> errors[i].key == wanted[i] && errors[i].error
                == "Failed to download"@
        }),
{
}

/// A request that is not too large, and whose manifest could be read, is decided on: every
/// upload is either accepted or answered with an error, no key is accepted twice, and every
/// listed key in use that the client says nothing of is fetched. A manifest that could not
/// be read ends the sync as a failure of the server.
pub proof fn law_sync_decides_on_every_upload(
    config: Config,
    manifest: Seq<DataManifestEntryView>,
    request: SyncRequestView,
    i: int,
)
    requires
        request.uploads.len() <= config.max_sync_uploads,
        request.client_manifest.len() <= config.max_sync_manifest_entries,
    ensures
        sync::sync_step(config, Ok(manifest), request) is Ok,
        ({
            let plan = sync::sync_step(config, Ok(manifest), request)->Ok_0;
            &&& plan.accepted.len() + plan.errors.len() == request.uploads.len()
            &&& forall|a: int, b: int|
                0 <= a < b < plan.accepted.len() ==> (#[trigger] plan.accepted[a]).key != (
                #[trigger] plan.accepted[b]).key
            &&& 0 <= i < manifest.len() && last_word(
                request.client_manifest,
                manifest[i].key,
                None,
            ) && (config.datastore_enabled || !"dataStore/"@.is_prefix_of(manifest[i].key))
                ==> plan.wanted.contains(manifest[i].key)
            &&& plan == sync::plan_of(
                config,
                manifest,
                request,
                sync::upload_hashes(request.uploads),
            )
        }),
        sync::sync_step(config, Err(DbFailure), request) is Err,
        sync::sync_step(config, Err(DbFailure), request)->Err_0.status == 500,
{
    let hashes = sync::upload_hashes(request.uploads);
    law_plan_judges_all_uploads(config, manifest, request, hashes);
    law_upload_hashes_fit(request.uploads);
    law_accepted_keys_are_distinct(
        config,
        manifest,
        request.client_manifest,
        request.uploads,
        hashes,
    );
    if 0 <= i < manifest.len() && last_word(request.client_manifest, manifest[i].key, None) && (
    config.datastore_enabled || !"dataStore/"@.is_prefix_of(manifest[i].key)) {
        law_client_fetches_what_it_lacks(config, manifest, request, hashes, i, None);
    }
}

/// Uploads are told apart by the hash that std's hasher gives for the bytes of their keys.
pub proof fn law_uploads_are_told_apart_by_the_hashes_of_their_keys(
    uploads: Seq<UploadEntryView>,
    i: int,
)
    requires
        0 <= i < uploads.len(),
    ensures
        sync::upload_hashes(uploads).len() == uploads.len(),
        sync::upload_hashes(uploads)[i] == DefaultHasher::spec_finish(
            seq![encode_utf8(uploads[i].key), seq![0xffu8]],
        ),
{
}

} // verus!
