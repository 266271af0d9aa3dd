use equicloud::auth::{self, AuthStep, CachedToken};
use equicloud::database::{self, DataMetadata};
use equicloud::reply::{Reply, ReplyBody, UserCounts};
use equicloud::routes::oauth::{TokenOutcome, UserOutcome};
use equicloud::routes::settings::StoredSettings;
use equicloud::routes::{account, data, health, manifest, metrics, oauth, settings};
use equicloud::server::{self, ConnectionVars, CorsPolicy, RateLimitMode};
use equicloud::types::base64_serde;
use equicloud::types::{
    Config, DataEntry, DataManifestEntry, DbFailure, DiscordAccessTokenResult, DiscordUserResult,
    OAuthCallback,
};
use equicloud::utils;

fn config() -> Config {
    Config {
        max_backup_size_bytes: 100,
        max_key_size_bytes: 40,
        max_datastore_key_size_bytes: 60,
        compression_enabled: true,
        compression_level: 3,
        datastore_enabled: true,
        discord_client_id: "id".to_string(),
        discord_client_secret: "hush".to_string(),
        server_fqdn: "https://cloud.example".to_string(),
        discord_allowed_user_ids: None,
        discord_allow_all_users: false,
        max_sync_uploads: 5,
        max_sync_manifest_entries: 6,
    }
}

fn some(s: &str) -> Option<String> {
    Some(s.to_string())
}

fn bytes(s: &str) -> Option<Vec<u8>> {
    Some(s.as_bytes().to_vec())
}

fn shown(r: &Reply) -> (u16, Vec<(&str, String)>, &str) {
    let headers = r
        .headers
        .iter()
        .map(|h| (h.name, String::from_utf8(h.value.clone()).unwrap()))
        .collect();
    let body = match &r.body {
        ReplyBody::Error(s) => s.as_str(),
        ReplyBody::Empty => "",
        _ => "?",
    };
    (r.status, headers, body)
}

fn is_error(r: &Reply, status: u16, message: &str) -> bool {
    shown(r) == (status, vec![], message)
}

#[test]
fn equal_bytes_are_found_equal() {
    assert!(auth::constant_time_eq(b"abc", b"abc"));
    assert!(!auth::constant_time_eq(b"abc", b"abd"));
    assert!(!auth::constant_time_eq(b"abc", b"ab"));
    assert!(auth::constant_time_eq(b"", b""));
}

#[test]
fn tokens_are_taken_from_the_header() {
    assert_eq!(auth::auth_middleware(&bytes("Bearer abc")).unwrap(), "abc");
    assert_eq!(auth::auth_middleware(&bytes("abc")).unwrap(), "abc");
    for bad in [None, bytes(""), bytes(&"a".repeat(257)), Some(vec![0xff]), Some(vec![127])] {
        assert!(is_error(&auth::auth_middleware(&bad).unwrap_err(), 401, "Unauthorized"));
    }
    assert_eq!(auth::auth_middleware(&bytes(&"a".repeat(256))).unwrap().len(), 256);
}

#[test]
fn tokens_claim_a_user() {
    let token = |s: &str| base64_serde::serialize(&s.as_bytes().to_vec());
    let claim = auth::read_token(&token("secret:user:1")).unwrap();
    assert_eq!((claim.secret.as_str(), claim.user_id.as_str()), ("secret", "user:1"));
    for bad in [":user", "secret:", "secret", ""] {
        assert!(auth::read_token(&token(bad)).is_none());
    }
    assert!(auth::read_token("not base64!").is_none());
    assert!(auth::read_token(&base64_serde::serialize(&vec![0xff, b':', b'a'])).is_none());
    let long = format!("{}:{}", "s".repeat(96), "u".repeat(95));
    assert!(auth::read_token(&token(&long)).is_some());
    let longer = format!("{}:{}", "s".repeat(96), "u".repeat(96));
    assert!(auth::read_token(&token(&longer)).is_none());
}

#[test]
fn claims_are_checked_against_the_secret() {
    let claim = || auth::read_token(&base64_serde::serialize(&b"s:u".to_vec())).unwrap();
    assert_eq!(auth::verify_token(claim(), &Ok(some("s"))), some("u"));
    assert_eq!(auth::verify_token(claim(), &Ok(some("t"))), None);
    assert_eq!(auth::verify_token(claim(), &Ok(None)), None);
    assert_eq!(auth::verify_token(claim(), &Err(DbFailure)), None);
    assert_eq!(auth::after_check(some("u")).unwrap(), "u");
    assert!(is_error(&auth::after_check(None).unwrap_err(), 401, "Unauthorized"));
}

#[test]
fn known_tokens_are_not_checked_again() {
    assert!(matches!(auth::after_cache(some("u"), false), AuthStep::Proceed(u) if u == "u"));
    assert!(matches!(auth::after_cache(None, true), AuthStep::Check));
    assert!(matches!(
        auth::after_cache(None, false),
        AuthStep::Reject(r) if is_error(&r, 500, "Server misconfigured")
    ));
}

#[test]
fn tokens_of_a_user_are_forgotten() {
    let entry = |t: &str, u: &str| CachedToken { token: t.to_string(), user_id: u.to_string() };
    let list = vec![entry("1", "a"), entry("2", "b"), entry("3", "a")];
    assert_eq!(auth::invalidate_user_cache(&list, "a"), ["1", "3"]);
    assert!(auth::invalidate_user_cache(&list, "c").is_empty());
}

fn granted(scope: &str, token_type: &str) -> TokenOutcome {
    TokenOutcome::Granted(DiscordAccessTokenResult {
        access_token: "tok".to_string(),
        scope: scope.to_string(),
        token_type: token_type.to_string(),
    })
}

fn known(id: &str) -> UserOutcome {
    UserOutcome::Known(DiscordUserResult { id: id.to_string() })
}

#[test]
fn logins_begin_with_a_code() {
    let ask = |code: Option<String>, error: Option<String>| {
        oauth::oauth_callback(&config(), OAuthCallback { code, error })
    };
    assert!(is_error(&ask(some("c"), some("e")).unwrap_err(), 400, "Authorization failed"));
    assert!(is_error(&ask(None, None).unwrap_err(), 400, "Missing code"));
    assert!(is_error(&ask(some(""), None).unwrap_err(), 400, "Missing code"));
    let form = ask(some("c"), None).unwrap();
    let fields: Vec<(&str, &str)> = form.iter().map(|f| (f.name, f.value.as_str())).collect();
    assert_eq!(
        fields,
        [
            ("client_id", "id"),
            ("client_secret", "hush"),
            ("grant_type", "authorization_code"),
            ("code", "c"),
            ("redirect_uri", "https://cloud.example/v1/oauth/callback"),
        ]
    );
}

#[test]
fn tokens_need_scope_and_type() {
    assert!(oauth::scope_contains("email identify", "identify"));
    assert!(oauth::scope_contains("\u{3000}identify\n", "identify"));
    assert!(!oauth::scope_contains("identify2", "identify"));
    assert!(!oauth::scope_contains("", "identify"));
    assert_eq!(oauth::after_token(&granted("identify", "bearer")).unwrap(), "Bearer tok");
    let r = oauth::after_token(&granted("email", "Bearer")).unwrap_err();
    assert!(is_error(&r.reply, 400, "Insufficient OAuth scope"));
    assert_eq!(r.revoke, some("tok"));
    let r = oauth::after_token(&granted("identify", "MAC")).unwrap_err();
    assert!(is_error(&r.reply, 502, "Unexpected token type"));
    assert_eq!(r.revoke, some("tok"));
    let r = oauth::after_token(&TokenOutcome::Refused).unwrap_err();
    assert!(is_error(&r.reply, 400, "Invalid code"));
    assert_eq!(r.revoke, None);
    let r = oauth::after_token(&TokenOutcome::Unreachable).unwrap_err();
    assert!(is_error(&r.reply, 502, "Failed to request access token"));
    let r = oauth::after_token(&TokenOutcome::Unreadable).unwrap_err();
    assert!(is_error(&r.reply, 502, "Failed to parse token response"));
}

#[test]
fn users_must_be_allowed() {
    let mut c = config();
    let r = oauth::after_user(&c, "tok", &known("1")).unwrap_err();
    assert!(is_error(&r.reply, 503, "Server is not configured to accept OAuth"));
    assert_eq!(r.revoke, some("tok"));
    c.discord_allow_all_users = true;
    assert_eq!(oauth::after_user(&c, "tok", &known("1")).unwrap(), "1");
    c.discord_allowed_user_ids = some(" , ");
    assert_eq!(oauth::after_user(&c, "tok", &known("1")).unwrap(), "1");
    c.discord_allowed_user_ids = some("2, 1 ,");
    assert_eq!(oauth::after_user(&c, "tok", &known("1")).unwrap(), "1");
    let r = oauth::after_user(&c, "tok", &known("3")).unwrap_err();
    assert!(is_error(&r.reply, 403, "User is not whitelisted"));
    let r = oauth::after_user(&c, "tok", &UserOutcome::Refused).unwrap_err();
    assert!(is_error(&r.reply, 502, "Failed to request user"));
    let r = oauth::after_user(&c, "tok", &UserOutcome::Unreachable).unwrap_err();
    assert!(is_error(&r.reply, 502, "Failed to request user"));
    let r = oauth::after_user(&c, "tok", &UserOutcome::Unreadable).unwrap_err();
    assert!(is_error(&r.reply, 502, "Failed to parse user response"));
}

#[test]
fn logins_end_with_a_secret() {
    let r = oauth::after_secret("tok".to_string(), Ok("s".to_string()));
    assert_eq!((r.reply.status, r.revoke.as_str(), r.wait), (200, "tok", true));
    assert!(matches!(r.reply.body, ReplyBody::Secret(s) if s == "s"));
    let r = oauth::after_secret("tok".to_string(), Err(DbFailure));
    assert!(is_error(&r.reply, 500, "Failed to issue authentication"));
    assert_eq!((r.revoke.as_str(), r.wait), ("tok", false));
    let form = oauth::revoke_discord_token(&config(), "tok");
    assert_eq!((form[2].name, form[2].value.as_str()), ("token", "tok"));
    assert_eq!((form[3].name, form[3].value.as_str()), ("token_type_hint", "access_token"));
}

#[test]
fn tags_are_compared() {
    assert!(settings::etag_matches(Some("5"), "5"));
    assert!(settings::etag_matches(Some("4, 5"), "5"));
    assert!(settings::etag_matches(Some(" * "), "5"));
    assert!(!settings::etag_matches(Some("55"), "5"));
    assert!(!settings::etag_matches(None, "5"));
}

#[test]
fn settings_are_described() {
    let r = settings::head_settings(&Ok(some("5")), &None);
    assert_eq!(shown(&r), (204, vec![("ETag", "5".to_string())], ""));
    assert_eq!(shown(&settings::head_settings(&Ok(some("5")), &bytes("5"))), (304, vec![], ""));
    assert_eq!(settings::head_settings(&Ok(None), &None).status, 404);
    assert_eq!(settings::head_settings(&Err(DbFailure), &None).status, 500);
}

#[test]
fn settings_are_read_only_if_they_changed() {
    let r = settings::get_settings(&Ok(some("5")), &bytes("5")).unwrap();
    assert_eq!(shown(&r), (304, vec![("ETag", "5".to_string())], ""));
    assert!(settings::get_settings(&Ok(some("5")), &bytes("4")).is_none());
    assert!(settings::get_settings(&Ok(some("5")), &Some(vec![b'5', 0xff])).is_none());
    assert_eq!(settings::get_settings(&Ok(None), &None).unwrap().status, 404);
    let r = settings::get_settings(&Err(DbFailure), &None).unwrap();
    assert!(is_error(&r, 500, "Failed to retrieve settings"));
    let r = settings::after_settings_read(Ok(Some(StoredSettings {
        value: vec![1],
        written: "5".to_string(),
    })));
    assert_eq!(
        shown(&r),
        (
            200,
            vec![
                ("Content-Type", "application/octet-stream".to_string()),
                ("ETag", "5".to_string()),
            ],
            "?"
        )
    );
    assert!(matches!(r.body, ReplyBody::Bytes(b) if b == [1]));
    assert_eq!(settings::after_settings_read(Ok(None)).status, 404);
    assert_eq!(settings::after_settings_read(Err(DbFailure)).status, 500);
}

#[test]
fn settings_are_written_on_condition() {
    let octets = bytes("Application/Octet-Stream; charset=x");
    let c = config();
    assert!(!settings::put_settings(&c, &octets, &vec![0; 100], &None).unwrap());
    assert!(settings::put_settings(&c, &octets, &vec![], &bytes("5")).unwrap());
    let r = settings::put_settings(&c, &bytes("text/plain"), &vec![], &None).unwrap_err();
    assert!(is_error(&r, 415, "Content type must be application/octet-stream"));
    let r = settings::put_settings(&c, &octets, &vec![0; 101], &None).unwrap_err();
    assert!(is_error(&r, 413, "Settings are too large"));
    assert!(settings::refuse_if_match(&Ok(some("5")), &bytes("5")).is_none());
    let r = settings::refuse_if_match(&Ok(some("6")), &bytes("5")).unwrap();
    assert!(is_error(&r, 412, "Settings have changed since last read"));
    let r = settings::refuse_if_match(&Ok(None), &bytes("*")).unwrap();
    assert!(is_error(&r, 412, "No existing settings to match against"));
    let r = settings::refuse_if_match(&Err(DbFailure), &bytes("*")).unwrap();
    assert!(is_error(&r, 500, "Failed to read current settings"));
    let r = settings::after_settings_saved(Ok(-7));
    assert_eq!(shown(&r), (200, vec![("ETag", "-7".to_string())], "?"));
    assert!(matches!(r.body, ReplyBody::Written(-7)));
    assert!(is_error(&settings::after_settings_saved(Err(DbFailure)), 500, "Failed to save settings"));
    assert_eq!(settings::delete_settings(Ok(())).status, 204);
    assert!(is_error(&settings::delete_settings(Err(DbFailure)), 500, "Failed to delete settings"));
}

fn entry(checksum: &str) -> DataEntry {
    DataEntry {
        key: "k".to_string(),
        value: vec![1, 2],
        version: 12,
        checksum: checksum.to_string(),
        size_bytes: 2,
        created_at: 0,
        updated_at: 0,
    }
}

#[test]
fn values_are_read() {
    let mut c = config();
    assert!(!data::get_data(&c, "k", &None).unwrap());
    assert!(data::get_data(&c, "k", &bytes("x")).unwrap());
    assert!(is_error(&data::get_data(&c, "", &None).unwrap_err(), 400, "Key cannot be empty"));
    c.datastore_enabled = false;
    let r = data::get_data(&c, "dataStore/k", &None).unwrap_err();
    assert!(is_error(&r, 403, "DataStore sync is disabled"));
    assert!(is_error(&data::delete_data(&c, "dataStore/k").unwrap(), 403, "DataStore sync is disabled"));
    assert!(data::delete_data(&c, "k").is_none());
    let r = data::after_value_read(Ok(Some(entry("sum"))));
    assert_eq!(
        shown(&r),
        (
            200,
            vec![
                ("Content-Type", "application/octet-stream".to_string()),
                ("ETag", "sum".to_string()),
                ("X-Version", "12".to_string()),
            ],
            "?"
        )
    );
    let r = data::after_value_read(Ok(Some(entry("bad\nsum"))));
    assert_eq!(r.headers.len(), 2);
    assert_eq!(data::after_value_read(Ok(None)).status, 404);
    assert!(is_error(&data::after_value_read(Err(DbFailure)), 500, "Failed to read data"));
}

#[test]
fn values_are_not_sent_twice() {
    let tag = || -> Result<Option<DataMetadata>, DbFailure> {
        Ok(Some(database::metadata_from_row((3, "sum".to_string(), 9, 4))))
    };
    let r = data::after_metadata(&tag(), &bytes("sum")).unwrap();
    assert_eq!(
        shown(&r),
        (304, vec![("ETag", "sum".to_string()), ("X-Version", "3".to_string())], "")
    );
    assert!(data::after_metadata(&tag(), &bytes("*")).is_none());
    assert_eq!(data::after_metadata(&Ok(None), &bytes("sum")).unwrap().status, 404);
    assert_eq!(data::after_metadata(&Err(DbFailure), &bytes("sum")).unwrap().status, 500);
}

#[test]
fn values_are_written() {
    let c = config();
    let octets = bytes("application/octet-stream");
    let body = vec![1u8; 10];
    let sum = utils::compute_checksum(&body);
    let plan = data::put_data(&c, "k", &octets, &body, &None).unwrap();
    assert_eq!((plan.checksum.as_str(), plan.max_total), (sum.as_str(), 100));
    assert_eq!(data::put_data(&c, "k", &octets, &body, &bytes(&sum)).unwrap().checksum, sum);
    let r = data::put_data(&c, "k", &octets, &body, &bytes("x")).unwrap_err();
    assert!(is_error(&r, 400, "Checksum mismatch"));
    let r = data::put_data(&c, "k", &octets, &body, &Some(vec![0xff])).unwrap_err();
    assert!(is_error(&r, 400, "Malformed X-Checksum header"));
    let r = data::put_data(&c, "k", &None, &body, &None).unwrap_err();
    assert!(is_error(&r, 415, "Content type must be application/octet-stream"));
    let r = data::put_data(&c, "k", &octets, &vec![0; 41], &None).unwrap_err();
    assert!(is_error(&r, 413, "Value exceeds 0MB limit"));
    let r = data::after_value_saved("sum".to_string(), Ok(Some((2, 9))));
    assert!(matches!(
        r.body,
        ReplyBody::Saved { version: 2, checksum, updated_at: 9 } if checksum == "sum"
    ));
    let r = data::after_value_saved("sum".to_string(), Ok(None));
    assert!(is_error(&r, 413, "Total storage limit exceeded"));
    let r = data::after_value_saved("sum".to_string(), Err(DbFailure));
    assert!(is_error(&r, 500, "Failed to save data"));
    assert_eq!(data::after_value_deleted(Ok(())).status, 204);
    assert!(is_error(&data::after_value_deleted(Err(DbFailure)), 500, "Failed to delete"));
}

#[test]
fn manifests_list_what_is_visible() {
    let item = |key: &str, size_bytes: i32| DataManifestEntry {
        key: key.to_string(),
        version: 1,
        checksum: String::new(),
        size_bytes,
        updated_at: 0,
    };
    let list = || vec![item("a", 5), item("dataStore/b", 7)];
    assert_eq!(manifest::listed_total(&list()), Some(12));
    let mut c = config();
    let r = manifest::get_manifest(&c, Ok(list()));
    assert!(matches!(r.body, ReplyBody::Manifest(m) if m.total_size == 12 && m.entries.len() == 2));
    c.datastore_enabled = false;
    let r = manifest::get_manifest(&c, Ok(list()));
    assert!(matches!(r.body, ReplyBody::Manifest(m) if m.total_size == 5 && m.entries.len() == 1));
    assert!(is_error(&manifest::get_manifest(&c, Err(DbFailure)), 500, "Failed to get manifest"));
}

#[test]
fn metrics_need_the_token() {
    let on = metrics::register(&some("true"), some("t"));
    assert!(on.enabled);
    assert!(metrics::refuse_metrics(&on, &bytes("Bearer t")).is_none());
    assert_eq!(metrics::refuse_metrics(&on, &bytes("Bearer u")).unwrap().status, 401);
    assert_eq!(metrics::refuse_metrics(&on, &bytes("t")).unwrap().status, 401);
    assert_eq!(metrics::refuse_metrics(&on, &None).unwrap().status, 401);
    for off in [
        metrics::register(&some("true"), None),
        metrics::register(&some("true"), some("")),
        metrics::register(&None, some("t")),
    ] {
        assert!(!off.enabled);
        assert_eq!(metrics::refuse_metrics(&off, &bytes("Bearer t")).unwrap().status, 404);
    }
}

#[test]
fn counts_are_served_for_five_minutes() {
    let old = metrics::no_counts();
    let counts = UserCounts { total: 9, week: 3, month: 5, day: 1 };
    let fresh = metrics::refresh_counts(old, Ok(counts), 1000);
    assert_eq!(metrics::get_cached_user_counts(&fresh, 1299), Some(counts));
    assert_eq!(metrics::get_cached_user_counts(&fresh, 1300), None);
    assert_eq!(metrics::get_cached_user_counts(&fresh, 10), Some(counts));
    assert_eq!(metrics::refresh_counts(fresh, Err(DbFailure), 2000), fresh);
    assert_eq!(
        metrics::get_user_counts(3_000_000_000),
        (2_913_600_000, 2_395_200_000, 408_000_000)
    );
    assert_eq!(metrics::count_from_row(Some(3)), 3);
    assert_eq!(metrics::count_from_row(Some(-1)), u64::MAX);
    assert_eq!(metrics::count_from_row(None), 0);
    let r = metrics::get_metrics(counts, 50, 20, 7);
    assert!(matches!(r.body, ReplyBody::Metrics { uptime_seconds: 30, timestamp_ms: 7, .. }));
    let r = metrics::get_metrics(counts, 10, 20, 7);
    assert!(matches!(r.body, ReplyBody::Metrics { uptime_seconds: 0, .. }));
}

#[test]
fn health_and_root_are_answered() {
    let r = health::health_check(true);
    assert!(r.status == 200 && matches!(r.body, ReplyBody::Status("ok")));
    let r = health::health_check(false);
    assert!(r.status == 503 && matches!(r.body, ReplyBody::Status("unavailable")));
    assert!(health::is_safe_redirect_url("https://x.example/a?b"));
    assert!(health::is_safe_redirect_url("http://x"));
    for bad in ["ftp://x", "javascript:x", "https://x y", "https://x\n", "https://x\u{85}", ""] {
        assert!(!health::is_safe_redirect_url(bad));
        assert_eq!(health::redirect_target(some(bad)), None);
    }
    let target = health::redirect_target(some("http://x"));
    let r = health::root_redirect(&target);
    assert!(r.status == 307 && matches!(r.body, ReplyBody::Location(s) if s == "http://x"));
    let r = health::root_redirect(&None);
    assert!(r.status == 200 && matches!(r.body, ReplyBody::Service("equicloud")));
    let r = account::v1_status_pong();
    assert!(matches!(r.body, ReplyBody::Pong { status: "ok", service: "equicloud" }));
    let (r, forget) = account::delete_all_user_data(Ok(()));
    assert!(r.status == 204 && forget);
    let (r, forget) = account::delete_all_user_data(Err(DbFailure));
    assert!(is_error(&r, 500, "Failed to delete account") && !forget);
}

#[test]
fn origins_are_configured() {
    assert!(matches!(server::configure_cors(&None), CorsPolicy::Closed));
    assert!(matches!(server::configure_cors(&some("*")), CorsPolicy::Permissive));
    assert!(matches!(server::configure_cors(&some("\u{1}")), CorsPolicy::Closed));
    let r = server::configure_cors(&some("https://a, \u{1} ,https://b"));
    assert!(matches!(
        r,
        CorsPolicy::Origins(list) if list == [b"https://a".to_vec(), b"https://b".to_vec()]
    ));
}

#[test]
fn the_server_is_configured() {
    assert_eq!(server::rate_limit_params(&None, &None), (50, 150));
    assert_eq!(server::rate_limit_params(&some("7"), &some("x")), (7, 150));
    assert_eq!(server::rate_limit_mode(&None, &None), RateLimitMode::Peer);
    assert_eq!(server::rate_limit_mode(&None, &some("true")), RateLimitMode::Proxy);
    assert_eq!(server::rate_limit_mode(&some("false"), &some("true")), RateLimitMode::Off);
    assert_eq!(server::bind_address(&None, &some("99")), "0.0.0.0:99");
    assert_eq!(server::max_body_size(&config()), 4196);
    assert_eq!(server::watch_database(0, false), (1, false));
    assert_eq!(server::watch_database(2, false), (3, true));
    assert_eq!(server::watch_database(2, true), (0, false));
    let vars = ConnectionVars {
        uri: None,
        username: some("u"),
        password: None,
        pool_size: some("0"),
        connection_timeout_ms: some("9"),
        request_timeout_ms: None,
        local_dc: some(""),
    };
    let s = server::create_database_connection(vars);
    assert_eq!(s.uri, "127.0.0.1:9042");
    assert_eq!(s.credentials, None);
    assert_eq!((s.pool_size, s.connection_timeout_ms, s.request_timeout_ms), (4, 9, 5000));
    assert_eq!(s.local_dc, None);
}

#[test]
fn written_settings_are_read_back() {
    let saved = settings::after_settings_saved(Ok(1234));
    let stored = settings::settings_from_row(vec![4, 5], 1234);
    assert_eq!(stored.written, "1234");
    let early = settings::get_settings(&Ok(some("1234")), &Some(saved.headers[0].value.clone()));
    assert_eq!(early.unwrap().status, 304);
    let read = settings::after_settings_read(Ok(Some(stored)));
    assert_eq!(read.headers[1].value, saved.headers[0].value);
    assert!(matches!(read.body, ReplyBody::Bytes(b) if b == [4, 5]));
}
