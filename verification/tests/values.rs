use equicloud::database::{self, DataRow, DatabaseError, DatabaseService, FirstColumn, Statement};
use equicloud::sync::ValidUpload;
use equicloud::types::base64_serde;
use equicloud::types::{Config, EnvVars, KeyValidationError};
use equicloud::utils;
use equicloud::{keys, numbers, variables};

fn config() -> Config {
    Config {
        max_backup_size_bytes: 100,
        max_key_size_bytes: 40,
        max_datastore_key_size_bytes: 60,
        compression_enabled: true,
        compression_level: 3,
        datastore_enabled: true,
        discord_client_id: "id".to_string(),
        discord_client_secret: "hush".to_string(),
        server_fqdn: "https://cloud.example".to_string(),
        discord_allowed_user_ids: None,
        discord_allow_all_users: false,
        max_sync_uploads: 5,
        max_sync_manifest_entries: 6,
    }
}

fn no_vars() -> EnvVars {
    EnvVars {
        max_backup_size_bytes: None,
        max_key_size_bytes: None,
        max_datastore_key_size_bytes: None,
        compression_enabled: None,
        compression_level: None,
        datastore_enabled: None,
        discord_client_id: None,
        discord_client_secret: None,
        server_fqdn: None,
        discord_allowed_user_ids: None,
        discord_allow_all_users: None,
        max_sync_uploads: None,
        max_sync_manifest_entries: None,
    }
}

fn some(s: &str) -> Option<String> {
    Some(s.to_string())
}

#[test]
fn user_hash_is_the_head_of_the_digest() {
    assert_eq!(utils::hash_user_id("abc"), "settings:ba7816bf8f01cfea");
    assert_eq!(utils::hash_user_id(""), "settings:e3b0c44298fc1c14");
}

#[test]
fn checksum_is_half_of_the_digest() {
    assert_eq!(utils::compute_checksum(b"abc"), "ba7816bf8f01cfea414140de5dae2223");
    assert_eq!(utils::compute_checksum(b""), "e3b0c44298fc1c149afbf4c8996fb924");
}

#[test]
fn digests_are_cut_and_written_in_hexadecimal() {
    let sum: Vec<u8> = (0..32).collect();
    assert_eq!(utils::user_hash_of_digest(&sum), "settings:0001020304050607");
    assert_eq!(utils::checksum_of_digest(&sum), "000102030405060708090a0b0c0d0e0f");
}

#[test]
fn compressed_values_read_back() {
    let data = vec![7u8; 5000];
    let stored = utils::compress(&config(), &data);
    assert!(stored.len() < data.len());
    assert!(utils::starts_with_zstd_magic(&stored));
    assert_eq!(utils::decompress(&stored), data);
}

#[test]
fn large_values_read_back() {
    let data = vec![9u8; 3_000_000];
    let stored = utils::compress(&config(), &data);
    assert_eq!(utils::decompress(&stored), data);
}

#[test]
fn short_values_are_stored_as_they_are() {
    assert_eq!(utils::compress(&config(), b"abc"), b"abc".to_vec());
    assert_eq!(utils::compress(&config(), b""), Vec::<u8>::new());
    assert_eq!(utils::decompress(b"abc"), b"abc".to_vec());
}

#[test]
fn uncompressed_storage_keeps_the_bytes() {
    let mut c = config();
    c.compression_enabled = false;
    let data = vec![7u8; 5000];
    assert_eq!(utils::compress(&c, &data), data);
}

#[test]
fn values_that_look_packed_are_packed_once_more() {
    let mut c = config();
    c.compression_enabled = false;
    let data = vec![0x28, 0xb5, 0x2f, 0xfd, 1, 2, 3];
    let stored = utils::compress(&c, &data);
    assert_ne!(stored, data);
    assert_eq!(utils::decompress(&stored), data);
}

#[test]
fn broken_frames_are_read_as_they_are() {
    let data = vec![0x28, 0xb5, 0x2f, 0xfd, 1, 2, 3];
    assert_eq!(utils::decompress(&data), data);
}

#[test]
fn failed_compression_stores_the_value() {
    assert_eq!(utils::choose_stored_form(b"hello", true, None), b"hello".to_vec());
    assert_eq!(utils::choose_stored_form(b"hello", true, Some(vec![1, 2])), vec![1, 2]);
    assert_eq!(utils::choose_stored_form(b"hello", true, Some(vec![1; 5])), b"hello".to_vec());
    assert_eq!(utils::choose_stored_form(b"hello", false, Some(vec![1])), b"hello".to_vec());
}

#[test]
fn keys_are_validated() {
    assert_eq!(utils::validate_key(""), Err(KeyValidationError::Empty));
    assert_eq!(utils::validate_key(&"a".repeat(256)), Ok(()));
    assert_eq!(utils::validate_key(&"a".repeat(257)), Err(KeyValidationError::TooLong));
    assert_eq!(utils::validate_key("plain-Key_1.json"), Ok(()));
    assert_eq!(utils::validate_key("dataStore/foo.bar"), Ok(()));
    for bad in [
        "a b", "a\u{e9}", "a..b", "/a", "a/", "a//b", ".a", "a/.b", "a/.", "a?b", "a\\b",
    ] {
        assert_eq!(utils::validate_key(bad), Err(KeyValidationError::InvalidChars));
    }
    assert_eq!(utils::validate_key(&"\u{e9}".repeat(129)), Err(KeyValidationError::TooLong));
}

#[test]
fn key_errors_have_messages() {
    assert_eq!(KeyValidationError::Empty.message(), "Key cannot be empty");
    assert_eq!(KeyValidationError::TooLong.message(), "Key name exceeds 256 characters");
    assert_eq!(
        KeyValidationError::InvalidChars.message(),
        "Key contains invalid characters (allowed: alphanumeric, _, -, ., /; no `..` traversal)"
    );
}

#[test]
fn base64_text_reads_back() {
    assert_eq!(base64_serde::serialize(&b"foobar".to_vec()), "Zm9vYmFy");
    assert_eq!(base64_serde::serialize(&b"fooba".to_vec()), "Zm9vYmE=");
    assert_eq!(base64_serde::serialize(&b"foob".to_vec()), "Zm9vYg==");
    assert_eq!(base64_serde::serialize(&vec![0xfb, 0xff]), "+/8=");
    assert_eq!(base64_serde::deserialize("Zm9vYg=="), Some(b"foob".to_vec()));
    assert_eq!(base64_serde::deserialize(""), Some(vec![]));
    assert_eq!(base64_serde::deserialize("Zm9vYg"), None);
    assert_eq!(base64_serde::deserialize("Zm9vYh=="), None);
    assert_eq!(base64_serde::deserialize("Zm9v YmFy"), None);
}

#[test]
fn numbers_are_written_and_read() {
    assert_eq!(numbers::format_u64(0), "0");
    assert_eq!(numbers::format_u64(u64::MAX), "18446744073709551615");
    assert_eq!(numbers::format_i64(i64::MIN), "-9223372036854775808");
    assert_eq!(numbers::format_i64(-10), "-10");
    assert_eq!(numbers::parse_unsigned("+007", 10), Some(7));
    assert_eq!(numbers::parse_unsigned("11", 10), None);
    assert_eq!(numbers::parse_unsigned("-1", 10), None);
    assert_eq!(numbers::parse_unsigned("+", 10), None);
    assert_eq!(numbers::parse_unsigned("", 10), None);
    assert_eq!(numbers::parse_unsigned("99999999999999999999999", u64::MAX), None);
    assert_eq!(numbers::parse_i32("-2147483648"), Some(i32::MIN));
    assert_eq!(numbers::parse_i32("2147483648"), None);
    assert_eq!(numbers::parse_i32("-0"), Some(0));
    assert_eq!(numbers::parse_i32("+-5"), None);
    assert_eq!(numbers::parse_bool("true"), Some(true));
    assert_eq!(numbers::parse_bool("True"), None);
}

#[test]
fn unreadable_variables_take_their_default() {
    assert_eq!(variables::parse_env_usize(&some("12"), 4), 12);
    assert_eq!(variables::parse_env_usize(&some("twelve"), 4), 4);
    assert_eq!(variables::parse_env_usize(&some(""), 4), 4);
    assert_eq!(variables::parse_env_usize(&None, 4), 4);
    assert_eq!(variables::parse_env_u64(&some("18446744073709551615"), 1), u64::MAX);
    assert_eq!(variables::parse_env_u32(&some("4294967296"), 1), 1);
    assert_eq!(variables::parse_env_i32(&some("-3"), 1), -3);
    assert!(!variables::parse_env_bool(&some("false"), true));
    assert!(variables::parse_env_bool(&some("yes"), true));
}

#[test]
fn configuration_has_defaults() {
    let c = Config::from_env(&no_vars());
    assert_eq!(c.max_backup_size_bytes, 67_108_864);
    assert_eq!(c.compression_level, 3);
    assert!(c.compression_enabled);
    assert!(c.datastore_enabled);
    assert!(!c.discord_allow_all_users);
    assert_eq!(c.discord_client_id, "");
    assert_eq!(c.discord_allowed_user_ids, None);
}

#[test]
fn configuration_follows_the_variables() {
    let mut v = no_vars();
    v.compression_level = some("99");
    v.max_key_size_bytes = some("17");
    v.datastore_enabled = some("false");
    v.discord_allowed_user_ids = some("1,2");
    v.server_fqdn = some("https://x");
    let c = Config::from_env(&v);
    assert_eq!(c.compression_level, 22);
    assert_eq!(c.max_key_size_bytes, 17);
    assert!(!c.datastore_enabled);
    assert_eq!(c.discord_allowed_user_ids, some("1,2"));
    assert_eq!(c.redirect_uri(), "https://x/v1/oauth/callback");
    v.compression_level = some("-4");
    assert_eq!(Config::from_env(&v).compression_level, 1);
}

#[test]
fn limits_depend_on_the_kind_of_key() {
    let mut c = config();
    assert_eq!(keys::max_size_for_key(&c, "plain"), 40);
    assert_eq!(keys::max_size_for_key(&c, "dataStore/x"), 60);
    assert_eq!(keys::max_size_for_key(&c, "dataStore"), 40);
    assert!(!keys::is_blocked_key(&c, "dataStore/x"));
    c.datastore_enabled = false;
    assert!(keys::is_blocked_key(&c, "dataStore/x"));
    assert!(!keys::is_blocked_key(&c, "plain"));
    assert_eq!(keys::too_large_message(10 * 1024 * 1024 + 5), "Value exceeds 10MB limit");
}

#[test]
fn database_errors_have_messages() {
    assert_eq!(database::value_too_large(2 * 1024 * 1024).message(), "Value exceeds 2MB limit");
    assert_eq!(
        DatabaseError::InvalidKey(KeyValidationError::Empty).message(),
        "Key cannot be empty"
    );
    assert_eq!(
        database::size_to_i32(2147483648).unwrap_err().message(),
        "value size 2147483648 exceeds i32::MAX"
    );
    assert_eq!(database::size_to_i32(2147483647).unwrap(), i32::MAX);
    assert_eq!(
        DatabaseError::KeyContention.message(),
        "Failed to save key after 5 concurrent-write retries"
    );
    assert_eq!(
        DatabaseError::SettingsContention.message(),
        "Failed to save user settings after 5 retries"
    );
    assert_eq!(DatabaseError::MissingApplied.message(), "LWT result missing [applied] column");
    assert_eq!(
        DatabaseError::SecretVanished.message(),
        "auth row vanished between LWT and re-read"
    );
    assert_eq!(DatabaseError::Query("down".to_string()).message(), "down");
}

#[test]
fn conditional_writes_say_whether_they_were_applied() {
    assert!(database::is_lwt_applied(FirstColumn::Boolean(true)).unwrap());
    assert!(!database::is_lwt_applied(FirstColumn::Boolean(false)).unwrap());
    for column in [FirstColumn::Missing, FirstColumn::Null, FirstColumn::Other] {
        assert!(matches!(
            database::is_lwt_applied(column),
            Err(DatabaseError::MissingApplied)
        ));
    }
}

#[test]
fn statements_name_the_hashed_user() {
    let db = DatabaseService::new(config());
    let hashed = "settings:ba7816bf8f01cfea";
    assert!(matches!(db.get_settings_metadata("abc"), Statement::UserUpdatedAt { id } if id == hashed));
    assert!(matches!(db.get_user_settings("abc"), Statement::UserSettings { id } if id == hashed));
    assert!(matches!(db.get_data_manifest("abc"), Statement::DataManifest { id } if id == hashed));
    assert!(matches!(db.get_user_auth_secret("abc"), Statement::AuthSecret { id } if id == hashed));
    let batch = db.delete_user_account("abc");
    assert_eq!(batch.len(), 3);
    assert!(matches!(&batch[0], Statement::DeleteUser { id } if id == hashed));
    assert!(matches!(&batch[1], Statement::DeleteAllData { id } if id == hashed));
    assert!(matches!(&batch[2], Statement::DeleteAuth { id } if id == hashed));
    assert!(matches!(
        db.delete_data_key("abc", "k").unwrap(),
        Statement::DeleteDataKey { id, key } if id == hashed && key == "k"
    ));
    assert!(matches!(
        db.get_data_key_metadata("abc", "..").unwrap_err(),
        DatabaseError::InvalidKey(KeyValidationError::InvalidChars)
    ));
    let (total, size) = db.get_user_size_and_key_size("abc", "k").unwrap();
    assert!(matches!(total, Statement::TotalSize { id } if id == hashed));
    assert!(matches!(size, Statement::SizeOfKey { key, .. } if key == "k"));
}

#[test]
fn one_bad_key_stops_a_bulk_read() {
    let db = DatabaseService::new(config());
    let names = vec!["a".to_string(), "b".to_string()];
    let all = db.get_data_keys("abc", &names).unwrap();
    assert_eq!(all.len(), 2);
    assert!(matches!(&all[1], Statement::DataKey { key, .. } if key == "b"));
    let names = vec!["a".to_string(), "".to_string(), "/".to_string()];
    assert!(matches!(
        db.get_data_keys("abc", &names).unwrap_err(),
        DatabaseError::InvalidKey(KeyValidationError::Empty)
    ));
    assert!(db.get_data_keys("abc", &vec![]).unwrap().is_empty());
}

#[test]
fn values_are_prepared_for_saving() {
    let db = DatabaseService::new(config());
    let p = db.save_data_key("abc", "k", &vec![1; 40], "sum").unwrap();
    assert_eq!(p.id, "settings:ba7816bf8f01cfea");
    assert_eq!((p.key.as_str(), p.checksum.as_str(), p.size_bytes), ("k", "sum", 40));
    assert_eq!(utils::decompress(&p.stored), vec![1; 40]);
    assert!(matches!(
        db.save_data_key("abc", "k", &vec![1; 41], "sum"),
        Err(DatabaseError::ValueTooLarge(40))
    ));
    assert!(matches!(
        db.save_data_key("abc", "", &vec![1; 41], "sum"),
        Err(DatabaseError::InvalidKey(KeyValidationError::Empty))
    ));
}

#[test]
fn settings_and_secrets_are_prepared() {
    let db = DatabaseService::new(config());
    let p = db.save_user_settings("abc", vec![1, 2]);
    assert_eq!((p.id.as_str(), p.settings), ("settings:ba7816bf8f01cfea", vec![1, 2]));
    let row = db.get_or_create_user_auth_secret("abc", "s", 8);
    assert_eq!((row.id.as_str(), row.secret.as_str()), ("settings:ba7816bf8f01cfea", "s"));
    assert_eq!((row.created_at, row.updated_at), (8, 8));
}

#[test]
fn batches_leave_out_what_is_too_large() {
    let db = DatabaseService::new(config());
    let upload = |key: &str, len: usize| ValidUpload {
        key: key.to_string(),
        value: vec![2; len],
        checksum: "c".to_string(),
    };
    let list = vec![upload("a", 10), upload("b", 41), upload("dataStore/c", 41)];
    let ready = db.save_data_keys_batch("abc", &list);
    let names: Vec<&str> = ready.iter().map(|p| p.key.as_str()).collect();
    assert_eq!(names, ["a", "dataStore/c"]);
    assert_eq!(ready[1].size_bytes, 41);
}

#[test]
fn rows_become_values() {
    let value = vec![5u8; 900];
    let row = DataRow {
        key: "k".to_string(),
        stored: utils::compress(&config(), &value),
        version: 3,
        checksum: "c".to_string(),
        size_bytes: 900,
        created_at: 1,
        updated_at: 2,
    };
    let entry = database::entry_from_row(row);
    assert_eq!(entry.value, value);
    assert_eq!((entry.version, entry.size_bytes, entry.created_at, entry.updated_at), (3, 900, 1, 2));
    let tag = database::metadata_from_row((3, "c".to_string(), 900, 2));
    assert_eq!(
        (tag.version, tag.checksum, tag.size_bytes, tag.updated_at),
        (entry.version, entry.checksum, entry.size_bytes, entry.updated_at)
    );
    assert_eq!(database::written_text(Some(-5)), some("-5"));
    assert_eq!(database::written_text(None), None);
    assert_eq!(database::sum_from_row(Some(Some(9))), 9);
    assert_eq!(database::sum_from_row(Some(None)), 0);
    assert_eq!(database::sum_from_row(None), 0);
    assert_eq!(database::size_from_row(Some(4)), 4);
    assert_eq!(database::size_from_row(None), 0);
}
