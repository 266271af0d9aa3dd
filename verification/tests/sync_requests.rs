use equicloud::merge;
use equicloud::reply::ReplyBody;
use equicloud::sync::{self, SyncPlan};
use equicloud::types::{
    ClientManifestEntry, Config, DataEntry, DataManifestEntry, DbFailure, SavedEntry, SyncRequest,
    UploadEntry,
};
use equicloud::utils;

fn config() -> Config {
    Config {
        max_backup_size_bytes: 100,
        max_key_size_bytes: 40,
        max_datastore_key_size_bytes: 60,
        compression_enabled: true,
        compression_level: 3,
        datastore_enabled: true,
        discord_client_id: "id".to_string(),
        discord_client_secret: "hush".to_string(),
        server_fqdn: "https://cloud.example".to_string(),
        discord_allowed_user_ids: None,
        discord_allow_all_users: false,
        max_sync_uploads: 5,
        max_sync_manifest_entries: 6,
    }
}

fn server(key: &str, version: i64, checksum: &str, size_bytes: i32) -> DataManifestEntry {
    DataManifestEntry {
        key: key.to_string(),
        version,
        checksum: checksum.to_string(),
        size_bytes,
        updated_at: 0,
    }
}

fn client(key: &str, version: i64, checksum: &str) -> ClientManifestEntry {
    ClientManifestEntry { key: key.to_string(), version, checksum: checksum.to_string() }
}

fn upload(key: &str, len: usize) -> UploadEntry {
    UploadEntry { key: key.to_string(), value: vec![1; len], checksum: None }
}

fn saved(key: &str, version: i64) -> SavedEntry {
    SavedEntry {
        key: key.to_string(),
        version,
        checksum: format!("s{}", version),
        size_bytes: 1,
        updated_at: 50,
    }
}

fn plan(c: &Config, m: Vec<DataManifestEntry>, k: Vec<ClientManifestEntry>, u: Vec<UploadEntry>) -> SyncPlan {
    let request = SyncRequest { client_manifest: k, uploads: u };
    sync::delta_sync(c, &Ok(m), request).unwrap()
}

fn errors(p: &SyncPlan) -> Vec<(&str, &str)> {
    p.errors.iter().map(|e| (e.key.as_str(), e.error.as_str())).collect()
}

#[test]
fn large_requests_are_refused() {
    let mut request = SyncRequest { client_manifest: vec![], uploads: vec![] };
    for i in 0..6 {
        request.uploads.push(upload(&format!("k{}", i), 1));
    }
    let r = sync::refuse_sync(&config(), &request).unwrap();
    assert_eq!(r.status, 413);
    assert!(matches!(r.body, ReplyBody::Error(s) if s == "Too many uploads in a single request"));
    request.uploads.clear();
    for i in 0..7 {
        request.client_manifest.push(client(&format!("k{}", i), 1, "c"));
    }
    let r = sync::delta_sync(&config(), &Ok(vec![]), request).unwrap_err();
    assert!(matches!(r.body, ReplyBody::Error(s) if s == "Client manifest too large"));
    let request = SyncRequest { client_manifest: vec![], uploads: vec![] };
    let r = sync::delta_sync(&config(), &Err(DbFailure), request).unwrap_err();
    assert_eq!(r.status, 500);
    assert!(matches!(r.body, ReplyBody::Error(s) if s == "Database error"));
}

#[test]
fn clients_fetch_what_they_lack() {
    let m = vec![
        server("same", 3, "a", 1),
        server("older", 3, "a", 1),
        server("other", 3, "a", 1),
        server("missing", 1, "a", 1),
        server("ahead", 3, "a", 1),
    ];
    let k = vec![
        client("same", 3, "a"),
        client("older", 2, "a"),
        client("other", 3, "b"),
        client("ahead", 4, "a"),
    ];
    let p = plan(&config(), m, k, vec![upload("new", 1)]);
    assert_eq!(p.wanted, ["older", "other", "missing"]);
}

#[test]
fn the_last_word_of_a_client_counts() {
    let m = vec![server("k", 3, "a", 1)];
    let k = vec![client("k", 3, "a"), client("k", 1, "a")];
    let p = plan(&config(), m, k, vec![upload("new", 1)]);
    assert_eq!(p.wanted, ["k"]);
}

#[test]
fn requests_without_uploads_fetch_everything() {
    let m = || vec![server("k", 3, "a", 1), server("dataStore/d", 1, "a", 1)];
    let p = plan(&config(), m(), vec![client("k", 3, "a")], vec![]);
    assert_eq!(p.wanted, ["k", "dataStore/d"]);
    let mut c = config();
    c.datastore_enabled = false;
    let p = plan(&c, m(), vec![client("k", 3, "a")], vec![]);
    assert_eq!(p.wanted, ["k"]);
}

#[test]
fn each_upload_is_answered() {
    let mut c = config();
    c.datastore_enabled = false;
    let wrong = UploadEntry {
        key: "wrong".to_string(),
        value: vec![1],
        checksum: Some("no".to_string()),
    };
    let right = UploadEntry {
        key: "right".to_string(),
        value: vec![1],
        checksum: Some(utils::compute_checksum(&[1])),
    };
    let p = plan(
        &c,
        vec![],
        vec![],
        vec![right, upload("right", 1), wrong, upload("a..b", 1), upload("dataStore/x", 1)],
    );
    assert_eq!(
        errors(&p),
        [
            ("right", "Duplicate key in same upload batch"),
            ("wrong", "Checksum mismatch"),
            (
                "a..b",
                "Key contains invalid characters (allowed: alphanumeric, _, -, ., /; no `..` traversal)"
            ),
            ("dataStore/x", "DataStore sync is disabled"),
        ]
    );
    assert_eq!(p.accepted.len(), 1);
    assert_eq!(p.accepted[0].key, "right");
    assert_eq!(p.accepted[0].checksum, utils::compute_checksum(&[1]));
}

#[test]
fn uploads_must_be_newer_and_fit() {
    let m = vec![server("old", 2, "a", 30), server("equal", 2, "a", 10), server("unknown", 2, "a", 10)];
    let k = vec![client("old", 3, "z"), client("equal", 2, "z")];
    let p = plan(
        &config(),
        m,
        k,
        vec![
            upload("equal", 1),
            upload("unknown", 1),
            upload("big", 41),
            upload("old", 40),
            upload("full", 41 - 1),
        ],
    );
    assert_eq!(
        errors(&p),
        [
            ("equal", "Server has equal or newer version; pull before pushing"),
            ("unknown", "Server has equal or newer version; pull before pushing"),
            ("big", "Value exceeds 0MB limit"),
        ]
    );
    let names: Vec<&str> = p.accepted.iter().map(|u| u.key.as_str()).collect();
    assert_eq!(names, ["old", "full"]);
    let p = plan(
        &config(),
        vec![server("old", 2, "a", 30)],
        vec![client("old", 3, "z")],
        vec![upload("a", 40), upload("b", 31), upload("old", 40), upload("c", 20)],
    );
    assert_eq!(errors(&p), [("b", "Total storage limit exceeded")]);
    assert_eq!(p.accepted.len(), 3);
}

#[test]
fn hashes_tell_uploads_apart() {
    let request = SyncRequest { client_manifest: vec![], uploads: vec![upload("a", 1), upload("b", 1)] };
    let p = sync::plan_sync(&config(), &vec![], request, &vec![7, 7]);
    assert_eq!(errors(&p), [("b", "Duplicate key in same upload batch")]);
    assert_eq!(sync::total_limit(&config()), 100);
    assert_eq!(sync::hash_key("a"), sync::hash_key("a"));
    assert_ne!(sync::hash_key("a"), sync::hash_key("b"));
}

#[test]
fn downloads_are_collected() {
    let entry = DataEntry {
        key: "k".to_string(),
        value: vec![1, 2],
        version: 4,
        checksum: "c".to_string(),
        size_bytes: 2,
        created_at: 0,
        updated_at: 0,
    };
    let (d, e) = sync::collect_downloads(vec!["k".to_string()], Ok(vec![entry]));
    assert!(e.is_empty());
    assert_eq!((d[0].key.as_str(), d[0].version, d[0].checksum.as_str()), ("k", 4, "c"));
    assert_eq!(d[0].value, [1, 2]);
    let (d, e) = sync::collect_downloads(vec!["k".to_string(), "l".to_string()], Err(DbFailure));
    assert!(d.is_empty());
    assert_eq!(e.len(), 2);
    assert_eq!((e[1].key.as_str(), e[1].error.as_str()), ("l", "Failed to download"));
}

#[test]
fn the_manifest_takes_in_what_was_saved() {
    let m = vec![server("a", 1, "x", 1), server("b", 1, "x", 1)];
    let r = merge::finish_sync(
        &config(),
        m,
        vec![],
        vec![],
        vec![],
        vec![],
        Ok(vec![saved("c", 1), saved("b", 2), saved("b", 3), saved("d", 1)]),
    );
    let mut listed: Vec<(String, i64)> =
        r.server_manifest.iter().map(|e| (e.key.clone(), e.version)).collect();
    assert_eq!(listed[0], ("a".to_string(), 1));
    assert_eq!(listed[1], ("b".to_string(), 3));
    assert_eq!(r.server_manifest[1].checksum, "s3");
    assert_eq!(r.server_manifest[1].updated_at, 50);
    listed.sort();
    let keys: Vec<&str> = listed.iter().map(|e| e.0.as_str()).collect();
    assert_eq!(keys, ["a", "b", "c", "d"]);
    assert_eq!(r.uploaded.len(), 4);
    assert_eq!((r.uploaded[2].key.as_str(), r.uploaded[2].version), ("b", 3));
    assert!(r.errors.is_empty());
}

#[test]
fn failed_saving_is_reported_for_each_key() {
    let p = plan(&config(), vec![], vec![], vec![upload("a", 1), upload("..", 1)]);
    let attempted = merge::attempted_keys(&p.accepted);
    assert_eq!(attempted, ["a"]);
    let (_, lost) = sync::collect_downloads(vec!["z".to_string()], Err(DbFailure));
    let mut c = config();
    c.datastore_enabled = false;
    let m = vec![server("a", 1, "x", 1), server("dataStore/b", 1, "x", 1)];
    let r = merge::finish_sync(&c, m, vec![], lost, p.errors, attempted, Err(DbFailure));
    let said: Vec<(&str, &str)> = r.errors.iter().map(|e| (e.key.as_str(), e.error.as_str())).collect();
    assert_eq!(said[0], ("z", "Failed to download"));
    assert_eq!(said[1].0, "..");
    assert_eq!(said[2], ("a", "Failed to save"));
    assert_eq!(r.server_manifest.len(), 1);
    assert!(r.uploaded.is_empty());
}

#[test]
fn the_manifest_stays_within_the_quota() {
    let m = || vec![server("a", 1, "x", 40), server("b", 1, "x", 30)];
    let k = vec![client("a", 2, "y")];
    let p = plan(&config(), m(), k, vec![upload("a", 20), upload("c", 40), upload("d", 40), upload("e", 10)]);
    assert_eq!(errors(&p), [("d", "Total storage limit exceeded")]);
    let stored = p
        .accepted
        .iter()
        .rev()
        .map(|u| SavedEntry {
            key: u.key.clone(),
            version: 2,
            checksum: u.checksum.clone(),
            size_bytes: u.value.len() as i32,
            updated_at: 9,
        })
        .collect();
    let r = merge::finish_sync(&config(), m(), vec![], vec![], p.errors, vec![], Ok(stored));
    let total: i128 = sync::sum_sizes(&r.server_manifest);
    assert_eq!(total, 100);
    assert_eq!(r.server_manifest.len(), 4);
}
