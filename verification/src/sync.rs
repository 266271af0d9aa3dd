//! One sync: what a client must fetch, which of its uploads are stored, and the
//! manifest that comes out of it.
use crate::index;
use crate::keys;
use crate::lookup;
use crate::reply::{self, Reply};
use crate::text;
use crate::types::config::{self, Config};
use crate::types::data::{
    DataEntry, DataEntryView, DataManifestEntry, DataManifestEntryView, DbFailure,
};
use crate::types::sync::{
    ClientManifestEntry, ClientManifestEntryView, DownloadEntry, DownloadEntryView, SyncError,
    SyncErrorView, SyncRequest, SyncRequestView, UploadEntry, UploadEntryView,
};
use crate::utils;
use ahash::AHashMap;
use std::collections::hash_map::DefaultHasher;
use std::hash::Hasher;
use vstd::prelude::*;
use vstd::std_specs::hash::DefaultHasherAdditionalSpecFns;
use vstd::utf8::encode_utf8;

verus! {

/// An upload that is to be stored, with its checksum.
#[derive(Debug)]
pub struct ValidUpload {
    pub key: String,
    pub value: Vec<u8>,
    pub checksum: String,
}

/// What [`ValidUpload`] holds.
pub struct ValidUploadView {
    pub key: Seq<char>,
    pub value: Seq<u8>,
    pub checksum: Seq<char>,
}

impl View for ValidUpload {
    type V = ValidUploadView;

    open spec fn view(&self) -> ValidUploadView {
        ValidUploadView { key: self.key@, value: self.value@, checksum: self.checksum@ }
    }
}

/// The views of a manifest's entries.
pub open spec fn manifest_view(m: Seq<DataManifestEntry>) -> Seq<DataManifestEntryView> {
    m.map_values(|e: DataManifestEntry| e@)
}

/// The keys of a manifest.
pub open spec fn manifest_keys(m: Seq<DataManifestEntryView>) -> Seq<Seq<char>> {
    m.map_values(|e: DataManifestEntryView| e.key)
}

/// The keys of a client's manifest.
pub open spec fn client_keys(m: Seq<ClientManifestEntryView>) -> Seq<Seq<char>> {
    m.map_values(|e: ClientManifestEntryView| e.key)
}

/// The part of a request that a sync takes the client's word from. A request
/// without uploads asks for everything.
pub open spec fn known_to_client(request: SyncRequestView) -> Seq<ClientManifestEntryView> {
    if request.uploads.len() > 0 {
        request.client_manifest
    } else {
        seq![]
    }
}

/// Whether the client's last word on a key is that it holds this very value at
/// this version or a later one.
pub open spec fn up_to_date(
    known: Seq<ClientManifestEntryView>,
    entry: DataManifestEntryView,
) -> bool {
    match lookup::last_index(client_keys(known), entry.key) {
        Some(j) => known[j].version >= entry.version && known[j].checksum == entry.checksum,
        None => false,
    }
}

/// Whether a client has to fetch a stored value.
pub open spec fn must_download(
    config: Config,
    known: Seq<ClientManifestEntryView>,
    entry: DataManifestEntryView,
) -> bool {
    !keys::blocked(config, entry.key) && !up_to_date(known, entry)
}

/// The keys that a client has to fetch, in the order of the manifest.
pub open spec fn wanted_keys(
    config: Config,
    known: Seq<ClientManifestEntryView>,
    manifest: Seq<DataManifestEntryView>,
) -> Seq<Seq<char>> {
    manifest_keys(manifest.filter(|e: DataManifestEntryView| must_download(config, known, e)))
}

/// The sum of the sizes of all stored values.
pub open spec fn total_size(manifest: Seq<DataManifestEntryView>) -> int
    decreases manifest.len(),
{
    if manifest.len() == 0 {
        0
    } else {
        total_size(manifest.drop_last()) + manifest.last().size_bytes
    }
}

/// The limit on the sum of all sizes.
pub open spec fn quota(config: Config) -> i64 {
    config.max_backup_size_bytes as i64
}

/// The limit on the sum of all sizes.
pub fn total_limit(config: &Config) -> (r: i64)
    ensures
        r == quota(*config),
{
    config.max_backup_size_bytes as i64
}

/// The hash by which two uploads of one request are told apart.
pub open spec fn key_hash(key: Seq<char>) -> u64 {
    DefaultHasher::spec_finish(seq![encode_utf8(key), seq![0xffu8]])
}

/// Whether the server holds a key at a version that the client has not gone
/// beyond.
pub open spec fn dominated(
    manifest: Seq<DataManifestEntryView>,
    known: Seq<ClientManifestEntryView>,
    key: Seq<char>,
) -> bool {
    match lookup::last_index(manifest_keys(manifest), key) {
        Some(s) => match lookup::last_index(client_keys(known), key) {
            Some(c) => known[c].version <= manifest[s].version,
            None => true,
        },
        None => false,
    }
}

/// The size that the server holds for a key.
pub open spec fn stored_size(manifest: Seq<DataManifestEntryView>, key: Seq<char>) -> int {
    match lookup::last_index(manifest_keys(manifest), key) {
        Some(s) => manifest[s].size_bytes as int,
        None => 0,
    }
}

/// The sum of all sizes once an upload has taken the place of what is stored.
pub open spec fn size_after(
    manifest: Seq<DataManifestEntryView>,
    running: int,
    upload: UploadEntryView,
) -> int {
    running - stored_size(manifest, upload.key) + upload.value.len()
}

/// What a sync has decided about the uploads so far: the hashes of the keys that
/// it saw, the sum of all sizes, what it refused and what it accepted.
pub struct Judged {
    pub seen: Set<u64>,
    pub running: int,
    pub errors: Seq<SyncErrorView>,
    pub accepted: Seq<ValidUploadView>,
}

/// Why an upload is refused, or `None` if it is accepted.
pub open spec fn refusal(
    config: Config,
    manifest: Seq<DataManifestEntryView>,
    known: Seq<ClientManifestEntryView>,
    so_far: Judged,
    upload: UploadEntryView,
    hash: u64,
) -> Option<Seq<char>> {
    if so_far.seen.contains(hash) {
        Some("Duplicate key in same upload batch"@)
    } else if utils::key_error(upload.key) is Some {
        Some(config::key_error_text(utils::key_error(upload.key)->0))
    } else if keys::blocked(config, upload.key) {
        Some("DataStore sync is disabled"@)
    } else if upload.value.len() > keys::size_limit(config, upload.key) {
        Some(keys::too_large_text(keys::size_limit(config, upload.key)))
    } else if upload.checksum is Some && upload.checksum->0 != utils::checksum_of(upload.value) {
        Some("Checksum mismatch"@)
    } else if dominated(manifest, known, upload.key) {
        Some("Server has equal or newer version; pull before pushing"@)
    } else if size_after(manifest, so_far.running, upload) > quota(config) {
        Some("Total storage limit exceeded"@)
    } else {
        None
    }
}

/// The decision on one more upload.
pub open spec fn judge_one(
    config: Config,
    manifest: Seq<DataManifestEntryView>,
    known: Seq<ClientManifestEntryView>,
    so_far: Judged,
    upload: UploadEntryView,
    hash: u64,
) -> Judged {
    match refusal(config, manifest, known, so_far, upload, hash) {
        Some(error) => Judged {
            seen: so_far.seen.insert(hash),
            running: so_far.running,
            errors: so_far.errors.push(SyncErrorView { key: upload.key, error }),
            accepted: so_far.accepted,
        },
        None => Judged {
            seen: so_far.seen.insert(hash),
            running: size_after(manifest, so_far.running, upload),
            errors: so_far.errors,
            accepted: so_far.accepted.push(
                ValidUploadView {
                    key: upload.key,
                    value: upload.value,
                    checksum: utils::checksum_of(upload.value),
                },
            ),
        },
    }
}

/// The decisions on all uploads, taken in order.
pub open spec fn judge(
    config: Config,
    manifest: Seq<DataManifestEntryView>,
    known: Seq<ClientManifestEntryView>,
    uploads: Seq<UploadEntryView>,
    hashes: Seq<u64>,
) -> Judged
    decreases uploads.len(),
{
    if uploads.len() == 0 {
        Judged {
            seen: Set::empty(),
            running: total_size(manifest),
            errors: seq![],
            accepted: seq![],
        }
    } else {
        let so_far = judge(config, manifest, known, uploads.drop_last(), hashes);
        judge_one(
            config,
            manifest,
            known,
            so_far,
            uploads.last(),
            hashes[uploads.len() - 1],
        )
    }
}

/// The hashes of the keys of all uploads.
pub open spec fn upload_hashes(uploads: Seq<UploadEntryView>) -> Seq<u64> {
    uploads.map_values(|u: UploadEntryView| key_hash(u.key))
}

/// What a sync does once it knows the server's manifest.
#[derive(Debug)]
pub struct SyncPlan {
    pub wanted: Vec<String>,
    pub errors: Vec<SyncError>,
    pub accepted: Vec<ValidUpload>,
}

/// What [`SyncPlan`] holds.
pub struct SyncPlanView {
    pub wanted: Seq<Seq<char>>,
    pub errors: Seq<SyncErrorView>,
    pub accepted: Seq<ValidUploadView>,
}

impl View for SyncPlan {
    type V = SyncPlanView;

    open spec fn view(&self) -> SyncPlanView {
        SyncPlanView {
            wanted: text::string_views(self.wanted@),
            errors: self.errors@.map_values(|e: SyncError| e@),
            accepted: self.accepted@.map_values(|u: ValidUpload| u@),
        }
    }
}

/// The plan for a request, given the hashes of the keys of its uploads.
pub open spec fn plan_of(
    config: Config,
    manifest: Seq<DataManifestEntryView>,
    request: SyncRequestView,
    hashes: Seq<u64>,
) -> SyncPlanView {
    let known = known_to_client(request);
    let judged = judge(config, manifest, known, request.uploads, hashes);
    SyncPlanView {
        wanted: wanted_keys(config, known, manifest),
        errors: judged.errors,
        accepted: judged.accepted,
    }
}

/// Filtering one more element.
pub proof fn lemma_filter_step<A>(s: Seq<A>, i: int, p: spec_fn(A) -> bool)
    requires
        0 <= i < s.len(),
    ensures
        s.take(i + 1).filter(p) == (if p(s[i]) {
            s.take(i).filter(p).push(s[i])
        } else {
            s.take(i).filter(p)
        }),
{
    reveal(Seq::filter);
    assert(s.take(i + 1).drop_last() =~= s.take(i));
}

/// The hash by which two uploads of one request are told apart.
pub fn hash_key(key: &str) -> (r: u64)
    ensures
        r == key_hash(key@),
{
    let mut hasher = DefaultHasher::new();
    hasher.write(key.as_bytes());
    let mut end: Vec<u8> = Vec::new();
    end.push(0xff);
    hasher.write(end.as_slice());
    assert(hasher@ =~= seq![encode_utf8(key@), seq![0xffu8]]) by {
        assert(end@ =~= seq![0xffu8]);
    }
    hasher.finish()
}

fn index_manifest<'a>(manifest: &'a Vec<DataManifestEntry>) -> (r: AHashMap<&'a str, usize>)
    ensures
        lookup::indexes(index::positions(r), manifest_keys(manifest_view(manifest@))),
{
    let mut list: Vec<&'a str> = Vec::new();
    let mut i: usize = 0;
    while i < manifest.len()
        invariant
            i <= manifest@.len(),
            text::views(list@) == manifest_keys(manifest_view(manifest@)).take(i as int),
        decreases manifest@.len() - i,
    {
        let ghost before = text::views(list@);
        list.push(manifest[i].key.as_str());
        i = i + 1;
        assert(text::views(list@) =~= before.push(manifest@[i - 1].key@));
        assert(text::views(list@) =~= manifest_keys(manifest_view(manifest@)).take(i as int));
    }
    assert(text::views(list@) =~= manifest_keys(manifest_view(manifest@)));
    lookup::index_keys(&list)
}

/// The views of a client's manifest.
pub open spec fn client_view(m: Seq<ClientManifestEntry>) -> Seq<ClientManifestEntryView> {
    m.map_values(|e: ClientManifestEntry| e@)
}

fn index_client<'a>(list: &'a Vec<ClientManifestEntry>, used: bool) -> (r: AHashMap<
    &'a str,
    usize,
>)
    ensures
        lookup::indexes(
            index::positions(r),
            client_keys(
                if used {
                    client_view(list@)
                } else {
                    seq![]
                },
            ),
        ),
{
    let mut names: Vec<&'a str> = Vec::new();
    if used {
        let mut i: usize = 0;
        while i < list.len()
            invariant
                i <= list@.len(),
                text::views(names@) == client_keys(client_view(list@)).take(i as int),
            decreases list@.len() - i,
        {
            let ghost before = text::views(names@);
            names.push(list[i].key.as_str());
            i = i + 1;
            assert(text::views(names@) =~= before.push(list@[i - 1].key@));
            assert(text::views(names@) =~= client_keys(client_view(list@)).take(i as int));
        }
        assert(text::views(names@) =~= client_keys(client_view(list@)));
    } else {
        assert(text::views(names@) =~= client_keys(seq![]));
    }
    lookup::index_keys(&names)
}

/// What the client said last of a key, if anything.
fn find_client<'a>(
    list: &'a Vec<ClientManifestEntry>,
    map: &AHashMap<&str, usize>,
    Ghost(known): Ghost<Seq<ClientManifestEntryView>>,
    key: &str,
) -> (r: Option<&'a ClientManifestEntry>)
    requires
        lookup::indexes(index::positions(*map), client_keys(known)),
        known == client_view(list@) || known.len() == 0,
    ensures
        r is Some <==> lookup::last_index(client_keys(known), key@) is Some,
        r matches Some(c) ==> c@ == known[lookup::last_index(client_keys(known), key@)->0],
{
    proof {
        lookup::lemma_last_index(client_keys(known), key@);
    }
    match index::positions_get(map, key) {
        Some(at) => Some(&list[at]),
        None => None,
    }
}

/// What the server holds for a key, if anything.
fn find_server<'a>(
    manifest: &'a Vec<DataManifestEntry>,
    map: &AHashMap<&str, usize>,
    key: &str,
) -> (r: Option<&'a DataManifestEntry>)
    requires
        lookup::indexes(index::positions(*map), manifest_keys(manifest_view(manifest@))),
    ensures
        ({
            let m = manifest_view(manifest@);
            let at = lookup::last_index(manifest_keys(m), key@);
            &&& r is Some <==> at is Some
            &&& r matches Some(s) ==> s@ == m[at->0]
        }),
{
    proof {
        lookup::lemma_last_index(manifest_keys(manifest_view(manifest@)), key@);
    }
    match index::positions_get(map, key) {
        Some(at) => Some(&manifest[at]),
        None => None,
    }
}

/// The keys that a client has to fetch.
fn find_wanted(
    config: &Config,
    manifest: &Vec<DataManifestEntry>,
    client: &Vec<ClientManifestEntry>,
    client_map: &AHashMap<&str, usize>,
    Ghost(known): Ghost<Seq<ClientManifestEntryView>>,
) -> (r: Vec<String>)
    requires
        lookup::indexes(index::positions(*client_map), client_keys(known)),
        known == client_view(client@) || known.len() == 0,
    ensures
        text::string_views(r@) == wanted_keys(*config, known, manifest_view(manifest@)),
{
    let ghost m = manifest_view(manifest@);
    let ghost p = |e: DataManifestEntryView| must_download(*config, known, e);
    let mut out: Vec<String> = Vec::new();
    let mut i: usize = 0;
    proof {
        reveal(Seq::filter);
        assert(m.take(0) =~= Seq::<DataManifestEntryView>::empty());
        assert(text::string_views(out@) =~= manifest_keys(m.take(0).filter(p)));
    }
    while i < manifest.len()
        invariant
            m == manifest_view(manifest@),
            p == (|e: DataManifestEntryView| must_download(*config, known, e)),
            lookup::indexes(index::positions(*client_map), client_keys(known)),
            known == client_view(client@) || known.len() == 0,
            i <= manifest@.len(),
            text::string_views(out@) == manifest_keys(m.take(i as int).filter(p)),
        decreases manifest@.len() - i,
    {
        let entry = &manifest[i];
        assert(m[i as int] == entry@);
        proof {
            lemma_filter_step(m, i as int, p);
        }
        let wanted = if keys::is_blocked_key(config, entry.key.as_str()) {
            false
        } else {
            match find_client(client, client_map, Ghost(known), entry.key.as_str()) {
                Some(c) => !(c.version >= entry.version && c.checksum == entry.checksum),
                None => true,
            }
        };
        assert(wanted == p(m[i as int]));
        if wanted {
            let ghost before = text::string_views(out@);
            let ghost kept = m.take(i as int).filter(p);
            out.push(entry.key.clone());
            assert(text::string_views(out@) =~= before.push(entry.key@));
            assert(manifest_keys(kept.push(m[i as int])) =~= manifest_keys(kept).push(entry.key@));
        }
        i = i + 1;
    }
    assert(m.take(i as int) =~= m);
    out
}

proof fn lemma_total_bounds(m: Seq<DataManifestEntryView>)
    ensures
        -0x8000_0000 * m.len() <= total_size(m) <= 0x7fff_ffff * m.len(),
    decreases m.len(),
{
    if m.len() > 0 {
        lemma_total_bounds(m.drop_last());
    }
}

/// The sum of the sizes of all stored values.
pub fn sum_sizes(manifest: &Vec<DataManifestEntry>) -> (r: i128)
    ensures
        r == total_size(manifest_view(manifest@)),
{
    let ghost m = manifest_view(manifest@);
    let mut sum: i128 = 0;
    let mut i: usize = 0;
    assert(m.take(0) =~= Seq::<DataManifestEntryView>::empty());
    while i < manifest.len()
        invariant
            m == manifest_view(manifest@),
            i <= manifest@.len(),
            sum == total_size(m.take(i as int)),
        decreases manifest@.len() - i,
    {
        proof {
            lemma_total_bounds(m.take(i as int));
            assert(m.take(i + 1).drop_last() =~= m.take(i as int));
            assert(m.take(i + 1).last() == manifest@[i as int]@);
        }
        sum = sum + manifest[i].size_bytes as i128;
        i = i + 1;
    }
    assert(m.take(i as int) =~= m);
    sum
}

/// Examines one upload: its checksum and the sum of all sizes with it, or why it
/// is refused.
fn examine(
    config: &Config,
    manifest: &Vec<DataManifestEntry>,
    server_map: &AHashMap<&str, usize>,
    client: &Vec<ClientManifestEntry>,
    client_map: &AHashMap<&str, usize>,
    fresh: bool,
    running: i128,
    upload: &UploadEntry,
    Ghost(known): Ghost<Seq<ClientManifestEntryView>>,
    Ghost(so_far): Ghost<Judged>,
    Ghost(hash): Ghost<u64>,
) -> (r: Result<(String, i128), String>)
    requires
        lookup::indexes(index::positions(*server_map), manifest_keys(manifest_view(manifest@))),
        lookup::indexes(index::positions(*client_map), client_keys(known)),
        known == client_view(client@) || known.len() == 0,
        fresh == !so_far.seen.contains(hash),
        running == so_far.running,
        -0x10_0000_0000_0000_0000_0000_0000 <= running <= 0x10_0000_0000_0000_0000_0000_0000,
    ensures
        ({
            let m = manifest_view(manifest@);
            match refusal(*config, m, known, so_far, upload@, hash) {
                Some(message) => r is Err && r->Err_0@ == message,
                None => {
                    &&& r is Ok
                    &&& r->Ok_0.0@ == utils::checksum_of(upload@.value)
                    &&& r->Ok_0.1 == size_after(m, running as int, upload@)
                },
            }
        }),
{
    if !fresh {
        return Err("Duplicate key in same upload batch".to_owned());
    }
    let key = upload.key.as_str();
    if let Err(e) = utils::validate_key(key) {
        return Err(e.message().to_owned());
    }
    if keys::is_blocked_key(config, key) {
        return Err("DataStore sync is disabled".to_owned());
    }
    let limit: usize = keys::max_size_for_key(config, key);
    if upload.value.len() > limit {
        return Err(keys::too_large_message(limit));
    }
    let checksum = utils::compute_checksum(upload.value.as_slice());
    if let Some(provided) = &upload.checksum {
        if !text::str_eq(checksum.as_str(), provided.as_str()) {
            return Err("Checksum mismatch".to_owned());
        }
    }
    let server = find_server(manifest, server_map, key);
    let said = find_client(client, client_map, Ghost(known), key);
    let behind = match (server, said) {
        (Some(s), Some(c)) => c.version <= s.version,
        (Some(_), None) => true,
        (None, _) => false,
    };
    if behind {
        return Err("Server has equal or newer version; pull before pushing".to_owned());
    }
    let existing: i128 = match server {
        Some(s) => s.size_bytes as i128,
        None => 0,
    };
    let new_running: i128 = running - existing + upload.value.len() as i128;
    if new_running > total_limit(config) as i128 {
        return Err("Total storage limit exceeded".to_owned());
    }
    Ok((checksum, new_running))
}

/// The plan for a request, given the server's manifest and the hashes of the keys
/// of the uploads.
pub fn plan_sync(
    config: &Config,
    manifest: &Vec<DataManifestEntry>,
    request: SyncRequest,
    hashes: &Vec<u64>,
) -> (r: SyncPlan)
    requires
        hashes@.len() == request.uploads@.len(),
    ensures
        r@ == plan_of(*config, manifest_view(manifest@), request@, hashes@),
{
    let ghost m = manifest_view(manifest@);
    let ghost u = request@.uploads;
    let ghost known = known_to_client(request@);
    let client = request.client_manifest;
    let uploads = request.uploads;
    let server_map = index_manifest(manifest);
    let client_map = index_client(&client, uploads.len() > 0);
    let wanted = find_wanted(config, manifest, &client, &client_map, Ghost(known));
    let n: usize = uploads.len();
    let k: usize = manifest.len();
    let mut seen = index::hashes_new(n);
    let mut errors: Vec<SyncError> = Vec::new();
    let mut accepted: Vec<ValidUpload> = Vec::new();
    let mut running: i128 = sum_sizes(manifest);
    let mut i: usize = 0;
    proof {
        lemma_total_bounds(m);
        assert(u.take(0) =~= Seq::<UploadEntryView>::empty());
        assert(errors@.map_values(|e: SyncError| e@) =~= seq![]);
        assert(accepted@.map_values(|e: ValidUpload| e@) =~= seq![]);
    }
    for upload in it: uploads
        invariant
            m == manifest_view(manifest@),
            u == uploads@.map_values(|e: UploadEntry| e@),
            it.seq() == uploads@,
            i == it.index(),
            n == uploads@.len(),
            k == m.len(),
            hashes@.len() == uploads@.len(),
            lookup::indexes(index::positions(server_map), manifest_keys(m)),
            lookup::indexes(index::positions(client_map), client_keys(known)),
            known == client_view(client@) || known.len() == 0,
            ({
                let j = judge(*config, m, known, u.take(i as int), hashes@);
                &&& index::hashes(seen) == j.seen
                &&& running == j.running
                &&& errors@.map_values(|e: SyncError| e@) == j.errors
                &&& accepted@.map_values(|e: ValidUpload| e@) == j.accepted
            }),
            running >= -0x1_0000_0000 * (m.len() + i),
            running <= 0x1_0000_0000_0000_0000_0000_0000,
    {
        let ghost so_far = judge(*config, m, known, u.take(i as int), hashes@);
        proof {
            assert(u[i as int] == upload@);
            assert(u.take(i + 1).drop_last() =~= u.take(i as int));
            assert(u.take(i + 1).last() == upload@);
            assert(i < n);
        }
        let hash: u64 = hashes[i];
        let fresh = index::hashes_insert(&mut seen, hash);
        let outcome = examine(
            config,
            manifest,
            &server_map,
            &client,
            &client_map,
            fresh,
            running,
            &upload,
            Ghost(known),
            Ghost(so_far),
            Ghost(hash),
        );
        match outcome {
            Ok((checksum, new_running)) => {
                running = new_running;
                let item = ValidUpload { key: upload.key, value: upload.value, checksum };
                let ghost shown = item@;
                accepted.push(item);
                assert(accepted@.map_values(|e: ValidUpload| e@) =~= so_far.accepted.push(shown));
            },
            Err(error) => {
                let item = SyncError { key: upload.key, error };
                let ghost shown = item@;
                errors.push(item);
                assert(errors@.map_values(|e: SyncError| e@) =~= so_far.errors.push(shown));
            },
        }
        i = i + 1;
    }
    assert(u.take(i as int) =~= u);
    SyncPlan { wanted, errors, accepted }
}

fn hash_uploads(uploads: &Vec<UploadEntry>) -> (r: Vec<u64>)
    ensures
        r@ == upload_hashes(uploads@.map_values(|e: UploadEntry| e@)),
{
    let ghost u = uploads@.map_values(|e: UploadEntry| e@);
    let mut out: Vec<u64> = Vec::new();
    let mut i: usize = 0;
    while i < uploads.len()
        invariant
            u == uploads@.map_values(|e: UploadEntry| e@),
            i <= uploads@.len(),
            out@ == upload_hashes(u).take(i as int),
        decreases uploads@.len() - i,
    {
        out.push(hash_key(uploads[i].key.as_str()));
        i = i + 1;
        assert(out@ =~= upload_hashes(u).take(i as int));
    }
    assert(out@ =~= upload_hashes(u));
    out
}

/// The refusal of a request that is too large, if it is.
pub open spec fn limit_error(config: Config, request: SyncRequestView) -> Option<reply::ReplyView> {
    if request.uploads.len() > config.max_sync_uploads {
        Some(reply::error_view(413, "Too many uploads in a single request"@))
    } else if request.client_manifest.len() > config.max_sync_manifest_entries {
        Some(reply::error_view(413, "Client manifest too large"@))
    } else {
        None
    }
}

/// Refuses a request that is too large, before anything is read for it.
pub fn refuse_sync(config: &Config, request: &SyncRequest) -> (r: Option<Reply>)
    ensures
        r is Some <==> limit_error(*config, request@) is Some,
        r matches Some(v) ==> v@ == limit_error(*config, request@)->0,
{
    if request.uploads.len() > config.max_sync_uploads {
        return Some(reply::err(413, "Too many uploads in a single request"));
    }
    if request.client_manifest.len() > config.max_sync_manifest_entries {
        return Some(reply::err(413, "Client manifest too large"));
    }
    None
}

/// What a request comes to once the server's manifest was asked for: what to fetch and what
/// to store, or the reply that ends the sync.
pub open spec fn sync_step(
    config: Config,
    manifest: Result<Seq<DataManifestEntryView>, DbFailure>,
    request: SyncRequestView,
) -> Result<SyncPlanView, reply::ReplyView> {
    match limit_error(config, request) {
        Some(v) => Err(v),
        None => match manifest {
            Ok(m) => Ok(plan_of(config, m, request, upload_hashes(request.uploads))),
            Err(_) => Err(reply::error_view(500, "Database error"@)),
        },
    }
}

/// What the result of asking for the manifest holds.
pub open spec fn asked_manifest(manifest: Result<Vec<DataManifestEntry>, DbFailure>) -> Result<
    Seq<DataManifestEntryView>,
    DbFailure,
> {
    match manifest {
        Ok(m) => Ok(manifest_view(m@)),
        Err(e) => Err(e),
    }
}

/// Decides on a request once the server's manifest was asked for: what to fetch
/// and what to store, or the reply that ends the sync.
pub fn delta_sync(
    config: &Config,
    manifest: &Result<Vec<DataManifestEntry>, DbFailure>,
    request: SyncRequest,
) -> (r: Result<SyncPlan, Reply>)
    ensures
        match limit_error(*config, request@) {
            Some(v) => r is Err && r->Err_0@ == v,
            None => match *manifest {
                Ok(m) => r is Ok && r->Ok_0@ == plan_of(
                    *config,
                    manifest_view(m@),
                    request@,
                    upload_hashes(request@.uploads),
                ),
                Err(_) => r is Err && r->Err_0@ == reply::error_view(500, "Database error"@),
            },
        },
        match sync_step(*config, asked_manifest(*manifest), request@) {
            Ok(plan) => r is Ok && r->Ok_0@ == plan,
            Err(v) => r is Err && r->Err_0@ == v,
        },
{
    if let Some(refused) = refuse_sync(config, &request) {
        return Err(refused);
    }
    match manifest {
        Ok(m) => {
            let hashes = hash_uploads(&request.uploads);
            Ok(plan_sync(config, m, request, &hashes))
        },
        Err(_) => Err(reply::err(500, "Database error")),
    }
}

/// The error for a key that nothing could be done for.
pub open spec fn failures(keys: Seq<Seq<char>>, message: Seq<char>) -> Seq<SyncErrorView> {
    keys.map_values(|key: Seq<char>| SyncErrorView { key, error: message })
}

pub(crate) fn fail_all(keys: Vec<String>, message: &str) -> (r: Vec<SyncError>)
    ensures
        r@.map_values(|e: SyncError| e@) == failures(text::string_views(keys@), message@),
{
    let ghost names = text::string_views(keys@);
    let mut out: Vec<SyncError> = Vec::new();
    for key in it: keys
        invariant
            it.seq() == keys@,
            names == text::string_views(keys@),
            out@.map_values(|e: SyncError| e@) == failures(names, message@).take(
                it.index() as int,
            ),
    {
        let ghost before = out@.map_values(|e: SyncError| e@);
        let item = SyncError { key, error: message.to_owned() };
        let ghost shown = item@;
        out.push(item);
        assert(out@.map_values(|e: SyncError| e@) =~= before.push(shown));
        assert(out@.map_values(|e: SyncError| e@) =~= failures(names, message@).take(
            it.index() + 1,
        ));
    }
    assert(out@.map_values(|e: SyncError| e@) =~= failures(names, message@));
    out
}

/// What of a stored value is sent to a client.
pub open spec fn download_of(e: DataEntryView) -> DownloadEntryView {
    DownloadEntryView { key: e.key, value: e.value, version: e.version, checksum: e.checksum }
}

/// The downloads and the errors that the values that were fetched come to.
pub open spec fn downloads_of(
    wanted: Seq<Seq<char>>,
    fetched: Result<Seq<DataEntryView>, DbFailure>,
) -> (Seq<DownloadEntryView>, Seq<SyncErrorView>) {
    match fetched {
        Ok(entries) => (entries.map_values(|e: DataEntryView| download_of(e)), seq![]),
        Err(_) => (seq![], failures(wanted, "Failed to download"@)),
    }
}

/// What the result of fetching values holds.
pub open spec fn fetched_view(fetched: Result<Vec<DataEntry>, DbFailure>) -> Result<
    Seq<DataEntryView>,
    DbFailure,
> {
    match fetched {
        Ok(entries) => Ok(entries@.map_values(|e: DataEntry| e@)),
        Err(e) => Err(e),
    }
}

/// Turns the values that were fetched into downloads. Where fetching failed, every
/// key that was wanted gets an error instead.
pub fn collect_downloads(
    wanted: Vec<String>,
    fetched: Result<Vec<DataEntry>, DbFailure>,
) -> (r: (Vec<DownloadEntry>, Vec<SyncError>))
    ensures
        match fetched {
            Ok(entries) => {
                &&& r.0@.map_values(|d: DownloadEntry| d@) == entries@.map_values(
                    |e: DataEntry| download_of(e@),
                )
                &&& r.1@.len() == 0
            },
            Err(_) => {
                &&& r.0@.len() == 0
                &&& r.1@.map_values(|e: SyncError| e@) == failures(
                    text::string_views(wanted@),
                    "Failed to download"@,
                )
            },
        },
        (r.0@.map_values(|d: DownloadEntry| d@), r.1@.map_values(|e: SyncError| e@))
            == downloads_of(text::string_views(wanted@), fetched_view(fetched)),
{
    let mut downloads: Vec<DownloadEntry> = Vec::new();
    let mut errors: Vec<SyncError> = Vec::new();
    match fetched {
        Ok(entries) => {
            let ghost expected = entries@.map_values(|e: DataEntry| download_of(e@));
            for entry in it: entries
                invariant
                    it.seq() == entries@,
                    expected == entries@.map_values(|e: DataEntry| download_of(e@)),
                    downloads@.map_values(|d: DownloadEntry| d@) == expected.take(
                        it.index() as int,
                    ),
            {
                let ghost before = downloads@.map_values(|d: DownloadEntry| d@);
                let item = DownloadEntry {
                    key: entry.key,
                    value: entry.value,
                    version: entry.version,
                    checksum: entry.checksum,
                };
                let ghost shown = item@;
                downloads.push(item);
                assert(downloads@.map_values(|d: DownloadEntry| d@) =~= before.push(shown));
                assert(downloads@.map_values(|d: DownloadEntry| d@) =~= expected.take(
                    it.index() + 1,
                ));
            }
            assert(downloads@.map_values(|d: DownloadEntry| d@) =~= expected);
        },
        Err(_) => {
            errors = fail_all(wanted, "Failed to download");
        },
    }
    proof {
        let (shown, failed) = downloads_of(text::string_views(wanted@), fetched_view(fetched));
        assert(downloads@.map_values(|d: DownloadEntry| d@) =~= shown);
        assert(errors@.map_values(|e: SyncError| e@) =~= failed);
    }
    (downloads, errors)
}

} // verus!
