//! The service's configuration and the ways in which a key can be refused.
use crate::constants;
use crate::numbers;
use crate::text;
use crate::variables;
use vstd::prelude::*;

verus! {

/// Why a key was refused.
#[derive(Debug, Clone, Copy, PartialEq, Eq, Structural)]
pub enum KeyValidationError {
    Empty,
    TooLong,
    InvalidChars,
}

/// What a client is told about a refused key.
pub open spec fn key_error_text(e: KeyValidationError) -> Seq<char> {
    match e {
        KeyValidationError::Empty => "Key cannot be empty"@,
        KeyValidationError::TooLong => "Key name exceeds 256 characters"@,
        KeyValidationError::InvalidChars =>
            "Key contains invalid characters (allowed: alphanumeric, _, -, ., /; no `..` traversal)"@,
    }
}

impl KeyValidationError {
    /// What a client is told about a refused key.
    pub fn message(self) -> (r: &'static str)
        ensures
            r@ == key_error_text(self),
    {
        match self {
            KeyValidationError::Empty => "Key cannot be empty",
            KeyValidationError::TooLong => "Key name exceeds 256 characters",
            KeyValidationError::InvalidChars =>
                "Key contains invalid characters (allowed: alphanumeric, _, -, ., /; no `..` traversal)",
        }
    }
}

/// The configuration of the service.
#[derive(Debug, Clone)]
pub struct Config {
    pub max_backup_size_bytes: usize,
    pub max_key_size_bytes: usize,
    pub max_datastore_key_size_bytes: usize,
    pub compression_enabled: bool,
    pub compression_level: i32,
    pub datastore_enabled: bool,
    pub discord_client_id: String,
    pub discord_client_secret: String,
    pub server_fqdn: String,
    pub discord_allowed_user_ids: Option<String>,
    pub discord_allow_all_users: bool,
    pub max_sync_uploads: usize,
    pub max_sync_manifest_entries: usize,
}

/// The text of each variable that the configuration is read from, `None` where
/// the variable is not set.
#[derive(Debug)]
pub struct EnvVars {
    pub max_backup_size_bytes: Option<String>,
    pub max_key_size_bytes: Option<String>,
    pub max_datastore_key_size_bytes: Option<String>,
    pub compression_enabled: Option<String>,
    pub compression_level: Option<String>,
    pub datastore_enabled: Option<String>,
    pub discord_client_id: Option<String>,
    pub discord_client_secret: Option<String>,
    pub server_fqdn: Option<String>,
    pub discord_allowed_user_ids: Option<String>,
    pub discord_allow_all_users: Option<String>,
    pub max_sync_uploads: Option<String>,
    pub max_sync_manifest_entries: Option<String>,
}

/// A compression level brought into the range that zstd has names for.
pub open spec fn clamped_level(level: i32) -> i32 {
    if level < 1 {
        1
    } else if level > 22 {
        22
    } else {
        level
    }
}

/// The text of a variable, or nothing where it is not set.
pub open spec fn or_empty(value: Option<Seq<char>>) -> Seq<char> {
    match value {
        Some(v) => v,
        None => Seq::empty(),
    }
}

fn text_or_empty(value: &Option<String>) -> (r: String)
    ensures
        r@ == or_empty(text::option_view(*value)),
{
    match value {
        Some(v) => v.clone(),
        None => String::new(),
    }
}

fn clone_option(value: &Option<String>) -> (r: Option<String>)
    ensures
        text::option_view(r) == text::option_view(*value),
{
    match value {
        Some(v) => Some(v.clone()),
        None => None,
    }
}

/// Whether a configuration is what the variables give.
pub open spec fn configured(vars: EnvVars, c: Config) -> bool {
    &&& c.max_backup_size_bytes == variables::env_unsigned(
        text::option_view(vars.max_backup_size_bytes),
        constants::DEFAULT_MAX_BACKUP_SIZE as nat,
        usize::MAX as nat,
    )
    &&& c.max_key_size_bytes == variables::env_unsigned(
        text::option_view(vars.max_key_size_bytes),
        constants::MAX_KEY_SIZE as nat,
        usize::MAX as nat,
    )
    &&& c.max_datastore_key_size_bytes == variables::env_unsigned(
        text::option_view(vars.max_datastore_key_size_bytes),
        constants::MAX_DATASTORE_KEY_SIZE as nat,
        usize::MAX as nat,
    )
    &&& c.compression_enabled == variables::env_bool(
        text::option_view(vars.compression_enabled),
        constants::DEFAULT_COMPRESSION_ENABLED,
    )
    &&& c.compression_level == clamped_level(
        variables::env_i32(
            text::option_view(vars.compression_level),
            constants::DEFAULT_ZSTD_COMPRESSION_LEVEL,
        ),
    )
    &&& c.datastore_enabled == variables::env_bool(
        text::option_view(vars.datastore_enabled),
        constants::DEFAULT_DATASTORE_ENABLED,
    )
    &&& c.discord_client_id@ == or_empty(text::option_view(vars.discord_client_id))
    &&& c.discord_client_secret@ == or_empty(text::option_view(vars.discord_client_secret))
    &&& c.server_fqdn@ == or_empty(text::option_view(vars.server_fqdn))
    &&& text::option_view(c.discord_allowed_user_ids) == text::option_view(
        vars.discord_allowed_user_ids,
    )
    &&& c.discord_allow_all_users == variables::env_bool(
        text::option_view(vars.discord_allow_all_users),
        false,
    )
    &&& c.max_sync_uploads == variables::env_unsigned(
        text::option_view(vars.max_sync_uploads),
        constants::DEFAULT_MAX_SYNC_UPLOADS as nat,
        usize::MAX as nat,
    )
    &&& c.max_sync_manifest_entries == variables::env_unsigned(
        text::option_view(vars.max_sync_manifest_entries),
        constants::DEFAULT_MAX_SYNC_MANIFEST_ENTRIES as nat,
        usize::MAX as nat,
    )
}

impl Config {
    /// The configuration that the variables give. What is missing or does not
    /// read as it should takes its default; the compression level is clamped.
    pub fn from_env(vars: &EnvVars) -> (r: Self)
        ensures
            r.max_backup_size_bytes == variables::env_unsigned(
                text::option_view(vars.max_backup_size_bytes),
                constants::DEFAULT_MAX_BACKUP_SIZE as nat,
                usize::MAX as nat,
            ),
            r.max_key_size_bytes == variables::env_unsigned(
                text::option_view(vars.max_key_size_bytes),
                constants::MAX_KEY_SIZE as nat,
                usize::MAX as nat,
            ),
            r.max_datastore_key_size_bytes == variables::env_unsigned(
                text::option_view(vars.max_datastore_key_size_bytes),
                constants::MAX_DATASTORE_KEY_SIZE as nat,
                usize::MAX as nat,
            ),
            r.compression_enabled == variables::env_bool(
                text::option_view(vars.compression_enabled),
                constants::DEFAULT_COMPRESSION_ENABLED,
            ),
            r.compression_level == clamped_level(
                variables::env_i32(
                    text::option_view(vars.compression_level),
                    constants::DEFAULT_ZSTD_COMPRESSION_LEVEL,
                ),
            ),
            r.datastore_enabled == variables::env_bool(
                text::option_view(vars.datastore_enabled),
                constants::DEFAULT_DATASTORE_ENABLED,
            ),
            r.discord_client_id@ == or_empty(text::option_view(vars.discord_client_id)),
            r.discord_client_secret@ == or_empty(text::option_view(vars.discord_client_secret)),
            r.server_fqdn@ == or_empty(text::option_view(vars.server_fqdn)),
            text::option_view(r.discord_allowed_user_ids) == text::option_view(
                vars.discord_allowed_user_ids,
            ),
            r.discord_allow_all_users == variables::env_bool(
                text::option_view(vars.discord_allow_all_users),
                false,
            ),
            r.max_sync_uploads == variables::env_unsigned(
                text::option_view(vars.max_sync_uploads),
                constants::DEFAULT_MAX_SYNC_UPLOADS as nat,
                usize::MAX as nat,
            ),
            r.max_sync_manifest_entries == variables::env_unsigned(
                text::option_view(vars.max_sync_manifest_entries),
                constants::DEFAULT_MAX_SYNC_MANIFEST_ENTRIES as nat,
                usize::MAX as nat,
            ),
            configured(*vars, r),
    {
        let level: i32 = variables::parse_env_i32(
            &vars.compression_level,
            constants::DEFAULT_ZSTD_COMPRESSION_LEVEL,
        );
        Config {
            max_backup_size_bytes: variables::parse_env_usize(
                &vars.max_backup_size_bytes,
                constants::DEFAULT_MAX_BACKUP_SIZE,
            ),
            max_key_size_bytes: variables::parse_env_usize(
                &vars.max_key_size_bytes,
                constants::MAX_KEY_SIZE,
            ),
            max_datastore_key_size_bytes: variables::parse_env_usize(
                &vars.max_datastore_key_size_bytes,
                constants::MAX_DATASTORE_KEY_SIZE,
            ),
            compression_enabled: variables::parse_env_bool(
                &vars.compression_enabled,
                constants::DEFAULT_COMPRESSION_ENABLED,
            ),
            compression_level: if level < 1 {
                1
            } else if level > 22 {
                22
            } else {
                level
            },
            datastore_enabled: variables::parse_env_bool(
                &vars.datastore_enabled,
                constants::DEFAULT_DATASTORE_ENABLED,
            ),
            discord_client_id: text_or_empty(&vars.discord_client_id),
            discord_client_secret: text_or_empty(&vars.discord_client_secret),
            server_fqdn: text_or_empty(&vars.server_fqdn),
            discord_allowed_user_ids: clone_option(&vars.discord_allowed_user_ids),
            discord_allow_all_users: variables::parse_env_bool(
                &vars.discord_allow_all_users,
                false,
            ),
            max_sync_uploads: variables::parse_env_usize(
                &vars.max_sync_uploads,
                constants::DEFAULT_MAX_SYNC_UPLOADS,
            ),
            max_sync_manifest_entries: variables::parse_env_usize(
                &vars.max_sync_manifest_entries,
                constants::DEFAULT_MAX_SYNC_MANIFEST_ENTRIES,
            ),
        }
    }

    /// Where Discord sends a user back to.
    pub fn redirect_uri(&self) -> (r: String)
        ensures
            r@ == self.server_fqdn@ + "/v1/oauth/callback"@,
    {
        text::concat(self.server_fqdn.as_str(), "/v1/oauth/callback")
    }
}

/// Whether a limit is the number that its variable says in decimal, or the default where
/// the variable is not set.
pub open spec fn limit_is(variable: Option<String>, said: nat, limit: nat, default: nat) -> bool {
    match variable {
        Some(s) => s@ == numbers::decimal(said) && said <= usize::MAX ==> limit == said,
        None => limit == default,
    }
}

/// Whether a switch is what its variable says, or the default where the variable is not
/// set or says neither `true` nor `false`.
pub open spec fn switch_is(variable: Option<String>, on: bool, default: bool) -> bool {
    match variable {
        Some(s) => {
            &&& s@ == "true"@ ==> on
            &&& s@ == "false"@ ==> !on
            &&& s@ != "true"@ && s@ != "false"@ ==> on == default
        },
        None => on == default,
    }
}

/// Every limit and every switch is what its own variable says, and has its default where
/// that is not set.
pub proof fn law_each_variable_sets_its_own_field(vars: EnvVars, c: Config, said: nat)
    requires
        configured(vars, c),
    ensures
        limit_is(vars.max_backup_size_bytes, said, c.max_backup_size_bytes as nat, 67_108_864),
        limit_is(vars.max_key_size_bytes, said, c.max_key_size_bytes as nat, 10_485_760),
        limit_is(
            vars.max_datastore_key_size_bytes,
            said,
            c.max_datastore_key_size_bytes as nat,
            33_554_432,
        ),
        limit_is(vars.max_sync_uploads, said, c.max_sync_uploads as nat, 1000),
        limit_is(vars.max_sync_manifest_entries, said, c.max_sync_manifest_entries as nat, 10_000),
        switch_is(vars.compression_enabled, c.compression_enabled, true),
        switch_is(vars.datastore_enabled, c.datastore_enabled, true),
        switch_is(vars.discord_allow_all_users, c.discord_allow_all_users, false),
        vars.discord_client_id is Some ==> c.discord_client_id@ == vars.discord_client_id->0@,
        vars.discord_client_id is None ==> c.discord_client_id@.len() == 0,
        vars.discord_client_secret is Some ==> c.discord_client_secret@
            == vars.discord_client_secret->0@,
        vars.discord_client_secret is None ==> c.discord_client_secret@.len() == 0,
        vars.server_fqdn is Some ==> c.server_fqdn@ == vars.server_fqdn->0@,
        vars.server_fqdn is None ==> c.server_fqdn@.len() == 0,
        c.discord_allowed_user_ids is Some <==> vars.discord_allowed_user_ids is Some,
        vars.discord_allowed_user_ids is Some ==> c.discord_allowed_user_ids->0@
            == vars.discord_allowed_user_ids->0@,
{
    numbers::law_decimal_reads_back(said);
    lemma_switch(vars.compression_enabled, true);
    lemma_switch(vars.datastore_enabled, true);
    lemma_switch(vars.discord_allow_all_users, false);
}

proof fn lemma_switch(variable: Option<String>, default: bool)
    ensures
        switch_is(variable, variables::env_bool(text::option_view(variable), default), default),
{
    match variable {
        Some(s) => {
            variables::law_variable_gives_the_truth_that_it_says(default, s@);
        },
        None => {},
    }
}

/// The compression level is always one that zstd has a name for: what its variable says,
/// the lowest where that is below it, the highest where that is above it, and 3 where
/// nothing is said.
pub proof fn law_compression_level_has_a_name(vars: EnvVars, c: Config, said: i32)
    requires
        configured(vars, c),
    ensures
        1 <= c.compression_level <= 22,
        vars.compression_level is None ==> c.compression_level == 3,
        vars.compression_level is Some && vars.compression_level->0@ == numbers::signed_decimal(
            said as int,
        ) ==> {
            &&& 1 <= said <= 22 ==> c.compression_level == said
            &&& said < 1 ==> c.compression_level == 1
            &&& said > 22 ==> c.compression_level == 22
        },
{
    variables::law_variable_gives_the_signed_number_that_it_says(said as int, 3, seq![]);
}

} // verus!
