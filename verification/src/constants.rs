//! Limits, defaults and addresses that the whole service shares.
use vstd::prelude::*;

verus! {

/// The longest key, in bytes.
pub const MAX_KEY_NAME_LEN: usize = 256;

/// How many bytes of a SHA-256 digest make up a checksum.
pub const CHECKSUM_BYTES: usize = 16;

/// The largest value that a read will unpack, in bytes.
pub const MAX_DECOMPRESSION_SIZE: usize = 134_217_728;

/// The default limit on one user's data, in bytes.
pub const DEFAULT_MAX_BACKUP_SIZE: usize = 67_108_864;

/// The default limit on the value of a plain key, in bytes.
pub const MAX_KEY_SIZE: usize = 10_485_760;

/// The default limit on the value of a data store key, in bytes.
pub const MAX_DATASTORE_KEY_SIZE: usize = 33_554_432;

pub const DEFAULT_COMPRESSION_ENABLED: bool = true;

pub const DEFAULT_ZSTD_COMPRESSION_LEVEL: i32 = 3;

pub const DEFAULT_DATASTORE_ENABLED: bool = true;

pub const DEFAULT_MAX_SYNC_UPLOADS: usize = 1000;

pub const DEFAULT_MAX_SYNC_MANIFEST_ENTRIES: usize = 10_000;

pub const DEFAULT_HOST: &'static str = "0.0.0.0";

pub const DEFAULT_PORT: &'static str = "8080";

pub const DEFAULT_SCYLLA_URI: &'static str = "127.0.0.1:9042";

pub const DB_HEALTH_CHECK_INTERVAL_SECS: u64 = 30;

pub const MS_PER_DAY: i64 = 86_400_000;

pub const MS_PER_WEEK: i64 = 604_800_000;

pub const MS_PER_MONTH: i64 = 2_592_000_000;

pub const DISCORD_TOKEN_URL: &'static str = "https://discord.com/api/oauth2/token";

pub const DISCORD_TOKEN_REVOKE_URL: &'static str = "https://discord.com/api/oauth2/token/revoke";

pub const DISCORD_USER_URL: &'static str = "https://discord.com/api/users/@me";

} // verus!
