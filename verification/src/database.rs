//! What is asked of the database, and what its answers come to.
use crate::constants;
use crate::keys;
use crate::numbers;
use crate::sync::{ValidUpload, ValidUploadView};
use crate::text;
use crate::types::config::{self, Config, KeyValidationError};
use crate::types::data::{DataEntry, DataEntryView, SavedEntry, SavedEntryView};
use crate::utils;
use vstd::prelude::*;

verus! {

/// Why a request to the database came to nothing.
#[derive(Debug)]
pub enum DatabaseError {
    InvalidKey(KeyValidationError),
    /// The value goes beyond this limit.
    ValueTooLarge(usize),
    /// The value has this length, which no stored size can express.
    SizeOverflow(usize),
    /// Others kept writing the same key.
    KeyContention,
    /// Others kept writing the same settings.
    SettingsContention,
    /// The answer to a conditional write does not say whether it was applied.
    MissingApplied,
    /// A secret that was there a moment ago is gone.
    SecretVanished,
    /// The database did not answer; the text says why.
    Query(String),
}

/// What is said of an error.
pub open spec fn error_text(e: DatabaseError) -> Seq<char> {
    match e {
        DatabaseError::InvalidKey(k) => config::key_error_text(k),
        DatabaseError::ValueTooLarge(limit) => keys::too_large_text(limit),
        DatabaseError::SizeOverflow(len) => "value size "@ + numbers::decimal(len as nat)
            + " exceeds i32::MAX"@,
        DatabaseError::KeyContention => "Failed to save key after 5 concurrent-write retries"@,
        DatabaseError::SettingsContention => "Failed to save user settings after 5 retries"@,
        DatabaseError::MissingApplied => "LWT result missing [applied] column"@,
        DatabaseError::SecretVanished => "auth row vanished between LWT and re-read"@,
        DatabaseError::Query(s) => s@,
    }
}

impl DatabaseError {
    /// What is said of an error.
    pub fn message(&self) -> (r: String)
        ensures
            r@ == error_text(*self),
    {
        match self {
            DatabaseError::InvalidKey(k) => k.message().to_owned(),
            DatabaseError::ValueTooLarge(limit) => keys::too_large_message(*limit),
            DatabaseError::SizeOverflow(len) => {
                let mut out = "value size ".to_owned();
                let digits = numbers::format_u64(*len as u64);
                out.append(digits.as_str());
                out.append(" exceeds i32::MAX");
                out
            },
            DatabaseError::KeyContention =>
                "Failed to save key after 5 concurrent-write retries".to_owned(),
            DatabaseError::SettingsContention =>
                "Failed to save user settings after 5 retries".to_owned(),
            DatabaseError::MissingApplied => "LWT result missing [applied] column".to_owned(),
            DatabaseError::SecretVanished =>
                "auth row vanished between LWT and re-read".to_owned(),
            DatabaseError::Query(s) => s.clone(),
        }
    }
}

/// Whether a key is accepted.
pub fn check_key(key: &str) -> (r: Result<(), DatabaseError>)
    ensures
        r == (match utils::key_error(key@) {
            Some(e) => Err::<(), DatabaseError>(DatabaseError::InvalidKey(e)),
            None => Ok::<(), DatabaseError>(()),
        }),
{
    match utils::validate_key(key) {
        Ok(()) => Ok(()),
        Err(e) => Err(DatabaseError::InvalidKey(e)),
    }
}

/// The error for a value that goes beyond a limit.
pub fn value_too_large(max_size: usize) -> (r: DatabaseError)
    ensures
        r == DatabaseError::ValueTooLarge(max_size),
{
    DatabaseError::ValueTooLarge(max_size)
}

/// A length as a stored size.
pub fn size_to_i32(len: usize) -> (r: Result<i32, DatabaseError>)
    ensures
        len <= i32::MAX ==> r == Ok::<i32, DatabaseError>(len as i32),
        len > i32::MAX ==> r == Err::<i32, DatabaseError>(DatabaseError::SizeOverflow(len)),
{
    if len <= 0x7fff_ffff {
        Ok(len as i32)
    } else {
        Err(DatabaseError::SizeOverflow(len))
    }
}

/// The first column of the first row of an answer.
#[derive(Debug, Clone, Copy, PartialEq, Eq, Structural)]
pub enum FirstColumn {
    Missing,
    Null,
    Boolean(bool),
    Other,
}

/// Whether a conditional write was applied, as far as the answer says it.
pub open spec fn applied_said(column: FirstColumn) -> Result<bool, DatabaseError> {
    match column {
        FirstColumn::Boolean(b) => Ok(b),
        _ => Err(DatabaseError::MissingApplied),
    }
}

/// Whether a conditional write was applied.
pub fn is_lwt_applied(column: FirstColumn) -> (r: Result<bool, DatabaseError>)
    ensures
        r == (match column {
            FirstColumn::Boolean(b) => Ok::<bool, DatabaseError>(b),
            _ => Err::<bool, DatabaseError>(DatabaseError::MissingApplied),
        }),
        r == applied_said(column),
{
    match column {
        FirstColumn::Boolean(b) => Ok(b),
        _ => Err(DatabaseError::MissingApplied),
    }
}

/// A request to the database that reads or deletes.
#[derive(Debug)]
pub enum Statement {
    UserUpdatedAt { id: String },
    UserSettings { id: String },
    DeleteUser { id: String },
    AuthSecret { id: String },
    DeleteAuth { id: String },
    DataManifest { id: String },
    DeleteAllData { id: String },
    TotalSize { id: String },
    DataKey { id: String, key: String },
    DataKeyMetadata { id: String, key: String },
    DeleteDataKey { id: String, key: String },
    SizeOfKey { id: String, key: String },
}

/// What [`Statement`] holds.
pub enum StatementView {
    UserUpdatedAt { id: Seq<char> },
    UserSettings { id: Seq<char> },
    DeleteUser { id: Seq<char> },
    AuthSecret { id: Seq<char> },
    DeleteAuth { id: Seq<char> },
    DataManifest { id: Seq<char> },
    DeleteAllData { id: Seq<char> },
    TotalSize { id: Seq<char> },
    DataKey { id: Seq<char>, key: Seq<char> },
    DataKeyMetadata { id: Seq<char>, key: Seq<char> },
    DeleteDataKey { id: Seq<char>, key: Seq<char> },
    SizeOfKey { id: Seq<char>, key: Seq<char> },
}

impl View for Statement {
    type V = StatementView;

    open spec fn view(&self) -> StatementView {
        match *self {
            Statement::UserUpdatedAt { id } => StatementView::UserUpdatedAt { id: id@ },
            Statement::UserSettings { id } => StatementView::UserSettings { id: id@ },
            Statement::DeleteUser { id } => StatementView::DeleteUser { id: id@ },
            Statement::AuthSecret { id } => StatementView::AuthSecret { id: id@ },
            Statement::DeleteAuth { id } => StatementView::DeleteAuth { id: id@ },
            Statement::DataManifest { id } => StatementView::DataManifest { id: id@ },
            Statement::DeleteAllData { id } => StatementView::DeleteAllData { id: id@ },
            Statement::TotalSize { id } => StatementView::TotalSize { id: id@ },
            Statement::DataKey { id, key } => StatementView::DataKey {
                id: id@,
                key: key@,
            },
            Statement::DataKeyMetadata { id, key } => StatementView::DataKeyMetadata {
                id: id@,
                key: key@,
            },
            Statement::DeleteDataKey { id, key } => StatementView::DeleteDataKey {
                id: id@,
                key: key@,
            },
            Statement::SizeOfKey { id, key } => StatementView::SizeOfKey {
                id: id@,
                key: key@,
            },
        }
    }
}

/// A stored value as a row of the database holds it.
#[derive(Debug)]
pub struct DataRow {
    pub key: String,
    pub stored: Vec<u8>,
    pub version: i64,
    pub checksum: String,
    pub size_bytes: i32,
    pub created_at: i64,
    pub updated_at: i64,
}

/// The value that a row stands for.
pub open spec fn row_entry(row: DataRow) -> DataEntryView {
    DataEntryView {
        key: row.key@,
        value: utils::unpacked(row.stored@),
        version: row.version,
        checksum: row.checksum@,
        size_bytes: row.size_bytes,
        created_at: row.created_at,
        updated_at: row.updated_at,
    }
}

/// The value that a row stands for.
pub fn entry_from_row(row: DataRow) -> (r: DataEntry)
    ensures
        r@ == row_entry(row),
{
    DataEntry {
        key: row.key,
        value: utils::decompress(row.stored.as_slice()),
        version: row.version,
        checksum: row.checksum,
        size_bytes: row.size_bytes,
        created_at: row.created_at,
        updated_at: row.updated_at,
    }
}

/// The description of a value as the columns of a row give it.
#[derive(Debug)]
pub struct DataMetadata {
    pub version: i64,
    pub checksum: String,
    pub size_bytes: i32,
    pub updated_at: i64,
}

/// What [`DataMetadata`] holds.
pub struct DataMetadataView {
    pub version: i64,
    pub checksum: Seq<char>,
    pub size_bytes: i32,
    pub updated_at: i64,
}

impl View for DataMetadata {
    type V = DataMetadataView;

    open spec fn view(&self) -> DataMetadataView {
        DataMetadataView {
            version: self.version,
            checksum: self.checksum@,
            size_bytes: self.size_bytes,
            updated_at: self.updated_at,
        }
    }
}

/// The description that four columns give.
pub open spec fn columns_metadata(columns: (i64, Seq<char>, i32, i64)) -> DataMetadataView {
    DataMetadataView {
        version: columns.0,
        checksum: columns.1,
        size_bytes: columns.2,
        updated_at: columns.3,
    }
}

/// The description that the four columns of a row give: version, checksum, size and
/// time.
pub fn metadata_from_row(row: (i64, String, i32, i64)) -> (r: DataMetadata)
    ensures
        r@ == (DataMetadataView {
            version: row.0,
            checksum: row.1@,
            size_bytes: row.2,
            updated_at: row.3,
        }),
        r@ == columns_metadata((row.0, row.1@, row.2, row.3)),
{
    DataMetadata { version: row.0, checksum: row.1, size_bytes: row.2, updated_at: row.3 }
}

/// What a row says of its value without the value.
pub open spec fn row_metadata(row: DataRow) -> DataMetadataView {
    DataMetadataView {
        version: row.version,
        checksum: row.checksum@,
        size_bytes: row.size_bytes,
        updated_at: row.updated_at,
    }
}

/// What a request for a value comes to, where `row` is stored for its key.
pub open spec fn value_answer(key: Seq<char>, row: Option<DataRow>) -> Result<
    Option<DataEntryView>,
    Seq<char>,
> {
    match utils::key_error(key) {
        Some(e) => Err(error_text(DatabaseError::InvalidKey(e))),
        None => match row {
            Some(row) => Ok(Some(row_entry(row))),
            None => Ok(None),
        },
    }
}

/// What a request for the description of a value comes to, where `row` is stored for
/// its key.
pub open spec fn metadata_answer(key: Seq<char>, row: Option<DataRow>) -> Result<
    Option<DataMetadataView>,
    Seq<char>,
> {
    match utils::key_error(key) {
        Some(e) => Err(error_text(DatabaseError::InvalidKey(e))),
        None => match row {
            Some(row) => Ok(Some(row_metadata(row))),
            None => Ok(None),
        },
    }
}

/// The description of a value agrees with the value: it is there for the same keys,
/// refused with the same text, and says of version, checksum, size and time what the
/// value says.
pub proof fn law_metadata_agrees_with_value(key: Seq<char>, row: Option<DataRow>)
    ensures
        match value_answer(key, row) {
            Ok(Some(e)) => metadata_answer(key, row) == Ok::<Option<DataMetadataView>, Seq<char>>(
                Some(
                    DataMetadataView {
                        version: e.version,
                        checksum: e.checksum,
                        size_bytes: e.size_bytes,
                        updated_at: e.updated_at,
                    },
                ),
            ),
            Ok(None) => metadata_answer(key, row) == Ok::<Option<DataMetadataView>, Seq<char>>(
                None,
            ),
            Err(text) => metadata_answer(key, row) == Err::<Option<DataMetadataView>, Seq<char>>(
                text,
            ),
        },
        utils::key_error(key) matches Some(x) ==> value_answer(key, row) == Err::<
            Option<DataEntryView>,
            Seq<char>,
        >(config::key_error_text(x)),
{
}

/// The time of a write as clients see it, where there was one.
pub open spec fn shown_time(updated_at: Option<i64>) -> Option<Seq<char>> {
    match updated_at {
        Some(t) => Some(numbers::signed_decimal(t as int)),
        None => None,
    }
}

/// The time of a write as clients see it.
pub fn written_text(updated_at: Option<i64>) -> (r: Option<String>)
    ensures
        text::option_view(r) == (match updated_at {
            Some(t) => Some(numbers::signed_decimal(t as int)),
            None => None,
        }),
        text::option_view(r) == shown_time(updated_at),
{
    match updated_at {
        Some(t) => Some(numbers::format_i64(t)),
        None => None,
    }
}

/// The sum of sizes that a row says.
pub open spec fn sum_said(row: Option<Option<i64>>) -> i64 {
    match row {
        Some(Some(sum)) => sum,
        _ => 0i64,
    }
}

/// The size that a row says.
pub open spec fn size_said(row: Option<i32>) -> i64 {
    match row {
        Some(size) => size as i64,
        None => 0i64,
    }
}

/// The sum of sizes that a row gives; no row and no sum count as nothing stored.
pub fn sum_from_row(row: Option<Option<i64>>) -> (r: i64)
    ensures
        r == (match row {
            Some(Some(sum)) => sum,
            _ => 0i64,
        }),
        r == sum_said(row),
{
    match row {
        Some(Some(sum)) => sum,
        _ => 0,
    }
}

/// The size that a row gives for a key; no row counts as nothing stored.
pub fn size_from_row(row: Option<i32>) -> (r: i64)
    ensures
        r == (match row {
            Some(size) => size as i64,
            None => 0i64,
        }),
        r == size_said(row),
{
    match row {
        Some(size) => size as i64,
        None => 0,
    }
}

/// A value that is ready to be written.
#[derive(Debug)]
pub struct PreparedSave {
    pub id: String,
    pub key: String,
    pub stored: Vec<u8>,
    pub checksum: String,
    pub size_bytes: i32,
}

/// What is said of a prepared value once it was written.
pub open spec fn saved_of(p: PreparedSave, version: i64, at: i64) -> SavedEntryView {
    SavedEntryView {
        key: p.key@,
        version,
        checksum: p.checksum@,
        size_bytes: p.size_bytes,
        updated_at: at,
    }
}

/// The saved entry of a value that was written with this version at this time.
pub fn saved_entry(p: PreparedSave, version: i64, at: i64) -> (r: SavedEntry)
    ensures
        r@ == (SavedEntryView {
            key: p.key@,
            version,
            checksum: p.checksum@,
            size_bytes: p.size_bytes,
            updated_at: at,
        }),
        r@ == saved_of(p, version, at),
{
    SavedEntry {
        key: p.key,
        version,
        checksum: p.checksum,
        size_bytes: p.size_bytes,
        updated_at: at,
    }
}

/// Settings that are ready to be written.
#[derive(Debug)]
pub struct PreparedSettings {
    pub id: String,
    pub settings: Vec<u8>,
}

/// A new secret that is offered to the database: it is stored if the user has none.
#[derive(Debug)]
pub struct SecretInsert {
    pub id: String,
    pub secret: String,
    pub created_at: i64,
    pub updated_at: i64,
}

/// Why a value is not written, or `None` if it is.
pub open spec fn save_error(config: Config, key: Seq<char>, len: nat) -> Option<DatabaseError> {
    if utils::key_error(key) is Some {
        Some(DatabaseError::InvalidKey(utils::key_error(key)->0))
    } else if len > keys::size_limit(config, key) {
        Some(DatabaseError::ValueTooLarge(keys::size_limit(config, key)))
    } else if len > i32::MAX {
        Some(DatabaseError::SizeOverflow(len as usize))
    } else {
        None
    }
}

/// Whether `p` is ready to write this value for this user.
pub open spec fn prepares(
    config: Config,
    user_id: Seq<char>,
    upload: ValidUploadView,
    p: PreparedSave,
) -> bool {
    &&& p.id@ == utils::user_hash(user_id)
    &&& p.key@ == upload.key
    &&& utils::stores(config, upload.value, p.stored@)
    &&& p.checksum@ == upload.checksum
    &&& p.size_bytes == upload.value.len()
}

/// The values of a batch that are written, in order.
pub open spec fn written_of_batch(config: Config, uploads: Seq<ValidUploadView>) -> Seq<
    ValidUploadView,
> {
    uploads.filter(|u: ValidUploadView| writable(config, u))
}

/// Whether `list` is ready to write the values of a batch, one after the other.
pub open spec fn prepares_batch(
    config: Config,
    user_id: Seq<char>,
    uploads: Seq<ValidUploadView>,
    list: Seq<PreparedSave>,
) -> bool {
    &&& list.len() == written_of_batch(config, uploads).len()
    &&& forall|i: int|
        0 <= i < list.len() ==> prepares(
            config,
            user_id,
            written_of_batch(config, uploads)[i],
            #[trigger] list[i],
        )
}

/// Whether `p` is ready to write these settings for this user.
pub open spec fn prepares_settings(
    user_id: Seq<char>,
    settings: Seq<u8>,
    p: PreparedSettings,
) -> bool {
    p.id@ == utils::user_hash(user_id) && p.settings@ == settings
}

/// Whether `i` offers this secret for this user at this time.
pub open spec fn offers(user_id: Seq<char>, secret: Seq<char>, now: i64, i: SecretInsert) -> bool {
    &&& i.id@ == utils::user_hash(user_id)
    &&& i.secret@ == secret
    &&& i.created_at == now
    &&& i.updated_at == now
}

/// Whether a value of a batch can be written at all.
pub open spec fn writable(config: Config, upload: ValidUploadView) -> bool {
    upload.value.len() <= keys::size_limit(config, upload.key) && upload.value.len() <= i32::MAX
}

/// The statement that asks when a user's settings were written.
pub open spec fn settings_time_of(user_id: Seq<char>) -> StatementView {
    StatementView::UserUpdatedAt { id: utils::user_hash(user_id) }
}

/// The statement that asks for a user's settings.
pub open spec fn settings_of(user_id: Seq<char>) -> StatementView {
    StatementView::UserSettings { id: utils::user_hash(user_id) }
}

/// The statement that asks for the secret that a user logs in with.
pub open spec fn secret_of(user_id: Seq<char>) -> StatementView {
    StatementView::AuthSecret { id: utils::user_hash(user_id) }
}

/// The statement that asks for the descriptions of all of a user's values.
pub open spec fn listing_of(user_id: Seq<char>) -> StatementView {
    StatementView::DataManifest { id: utils::user_hash(user_id) }
}

/// The statement that asks for the sum of the sizes of a user's values.
pub open spec fn total_of(user_id: Seq<char>) -> StatementView {
    StatementView::TotalSize { id: utils::user_hash(user_id) }
}

/// The statement that deletes a user's settings.
pub open spec fn settings_deletion(user_id: Seq<char>) -> StatementView {
    StatementView::DeleteUser { id: utils::user_hash(user_id) }
}

/// The statement that deletes the secret that a user logs in with.
pub open spec fn secret_deletion(user_id: Seq<char>) -> StatementView {
    StatementView::DeleteAuth { id: utils::user_hash(user_id) }
}

/// The statement that deletes all of a user's values.
pub open spec fn values_deletion(user_id: Seq<char>) -> StatementView {
    StatementView::DeleteAllData { id: utils::user_hash(user_id) }
}

/// The statement that asks for a value.
pub open spec fn value_of(user_id: Seq<char>, key: Seq<char>) -> StatementView {
    StatementView::DataKey { id: utils::user_hash(user_id), key }
}

/// The statement that asks for the description of a value.
pub open spec fn metadata_of(user_id: Seq<char>, key: Seq<char>) -> StatementView {
    StatementView::DataKeyMetadata { id: utils::user_hash(user_id), key }
}

/// The statement that asks for the size of a value.
pub open spec fn size_of(user_id: Seq<char>, key: Seq<char>) -> StatementView {
    StatementView::SizeOfKey { id: utils::user_hash(user_id), key }
}

/// The statement that deletes a value.
pub open spec fn value_deletion(user_id: Seq<char>, key: Seq<char>) -> StatementView {
    StatementView::DeleteDataKey { id: utils::user_hash(user_id), key }
}

/// The statements that ask for several values, in the order of their keys.
pub open spec fn values_of(user_id: Seq<char>, names: Seq<Seq<char>>) -> Seq<StatementView> {
    names.map_values(|key: Seq<char>| value_of(user_id, key))
}

/// The statements that delete everything that is stored for a user.
pub open spec fn account_batch(user_id: Seq<char>) -> Seq<StatementView> {
    seq![
        (StatementView::DeleteUser { id: utils::user_hash(user_id) }),
        (StatementView::DeleteAllData { id: utils::user_hash(user_id) }),
        (StatementView::DeleteAuth { id: utils::user_hash(user_id) }),
    ]
}

/// What is asked of the database on behalf of users.
#[derive(Debug)]
pub struct DatabaseService {
    pub config: Config,
}

impl DatabaseService {
    /// A service with the given configuration.
    pub fn new(config: Config) -> (r: Self)
        ensures
            r.config == config,
    {
        DatabaseService { config }
    }

    /// Asks when a user's settings were written.
    pub fn get_settings_metadata(&self, user_id: &str) -> (r: Statement)
        ensures
            r@ == (StatementView::UserUpdatedAt { id: utils::user_hash(user_id@) }),
            r@ == settings_time_of(user_id@),
    {
        Statement::UserUpdatedAt { id: utils::hash_user_id(user_id) }
    }

    /// Asks for a user's settings.
    pub fn get_user_settings(&self, user_id: &str) -> (r: Statement)
        ensures
            r@ == (StatementView::UserSettings { id: utils::user_hash(user_id@) }),
            r@ == settings_of(user_id@),
    {
        Statement::UserSettings { id: utils::hash_user_id(user_id) }
    }

    /// Deletes a user's settings.
    pub fn delete_user_settings(&self, user_id: &str) -> (r: Statement)
        ensures
            r@ == (StatementView::DeleteUser { id: utils::user_hash(user_id@) }),
            r@ == settings_deletion(user_id@),
    {
        Statement::DeleteUser { id: utils::hash_user_id(user_id) }
    }

    /// Asks for the secret that a user logs in with.
    pub fn get_user_auth_secret(&self, user_id: &str) -> (r: Statement)
        ensures
            r@ == (StatementView::AuthSecret { id: utils::user_hash(user_id@) }),
            r@ == secret_of(user_id@),
    {
        Statement::AuthSecret { id: utils::hash_user_id(user_id) }
    }

    /// Deletes the secret that a user logs in with.
    pub fn delete_user_auth(&self, user_id: &str) -> (r: Statement)
        ensures
            r@ == (StatementView::DeleteAuth { id: utils::user_hash(user_id@) }),
            r@ == secret_deletion(user_id@),
    {
        Statement::DeleteAuth { id: utils::hash_user_id(user_id) }
    }

    /// Asks for the descriptions of all of a user's values.
    pub fn get_data_manifest(&self, user_id: &str) -> (r: Statement)
        ensures
            r@ == (StatementView::DataManifest { id: utils::user_hash(user_id@) }),
            r@ == listing_of(user_id@),
    {
        Statement::DataManifest { id: utils::hash_user_id(user_id) }
    }

    /// Deletes all of a user's values.
    pub fn delete_all_data(&self, user_id: &str) -> (r: Statement)
        ensures
            r@ == (StatementView::DeleteAllData { id: utils::user_hash(user_id@) }),
            r@ == values_deletion(user_id@),
    {
        Statement::DeleteAllData { id: utils::hash_user_id(user_id) }
    }

    /// Asks for the sum of the sizes of a user's values.
    pub fn get_user_total_size(&self, user_id: &str) -> (r: Statement)
        ensures
            r@ == (StatementView::TotalSize { id: utils::user_hash(user_id@) }),
            r@ == total_of(user_id@),
    {
        Statement::TotalSize { id: utils::hash_user_id(user_id) }
    }

    /// Asks for the description of a value, without the value.
    pub fn get_data_key_metadata(&self, user_id: &str, key: &str) -> (r: Result<
        Statement,
        DatabaseError,
    >)
        ensures
            match utils::key_error(key@) {
                Some(e) => r == Err::<Statement, DatabaseError>(DatabaseError::InvalidKey(e)),
                None => r is Ok && r->Ok_0@ == (StatementView::DataKeyMetadata {
                    id: utils::user_hash(user_id@),
                    key: key@,
                }),
            },
            r is Ok <==> utils::key_error(key@) is None,
            r matches Ok(s) ==> s@ == metadata_of(user_id@, key@),
    {
        match check_key(key) {
            Ok(()) => Ok(
                Statement::DataKeyMetadata { id: utils::hash_user_id(user_id), key: key.to_owned() },
            ),
            Err(e) => Err(e),
        }
    }

    /// Asks for a value.
    pub fn get_data_key(&self, user_id: &str, key: &str) -> (r: Result<Statement, DatabaseError>)
        ensures
            match utils::key_error(key@) {
                Some(e) => r == Err::<Statement, DatabaseError>(DatabaseError::InvalidKey(e)),
                None => r is Ok && r->Ok_0@ == (StatementView::DataKey {
                    id: utils::user_hash(user_id@),
                    key: key@,
                }),
            },
            r is Ok <==> utils::key_error(key@) is None,
            r matches Ok(s) ==> s@ == value_of(user_id@, key@),
    {
        match check_key(key) {
            Ok(()) => Ok(
                Statement::DataKey { id: utils::hash_user_id(user_id), key: key.to_owned() },
            ),
            Err(e) => Err(e),
        }
    }

    /// Deletes a value.
    pub fn delete_data_key(&self, user_id: &str, key: &str) -> (r: Result<Statement, DatabaseError>)
        ensures
            match utils::key_error(key@) {
                Some(e) => r == Err::<Statement, DatabaseError>(DatabaseError::InvalidKey(e)),
                None => r is Ok && r->Ok_0@ == (StatementView::DeleteDataKey {
                    id: utils::user_hash(user_id@),
                    key: key@,
                }),
            },
            r is Ok <==> utils::key_error(key@) is None,
            r matches Ok(s) ==> s@ == value_deletion(user_id@, key@),
    {
        match check_key(key) {
            Ok(()) => Ok(
                Statement::DeleteDataKey { id: utils::hash_user_id(user_id), key: key.to_owned() },
            ),
            Err(e) => Err(e),
        }
    }

    /// Deletes everything that is stored for a user: settings, values and secret.
    pub fn delete_user_account(&self, user_id: &str) -> (r: Vec<Statement>)
        ensures
            r@.map_values(|s: Statement| s@) == seq![
                (StatementView::DeleteUser { id: utils::user_hash(user_id@) }),
                (StatementView::DeleteAllData { id: utils::user_hash(user_id@) }),
                (StatementView::DeleteAuth { id: utils::user_hash(user_id@) }),
            ],
            r@.map_values(|s: Statement| s@) == account_batch(user_id@),
    {
        let first = self.delete_user_settings(user_id);
        let second = self.delete_all_data(user_id);
        let third = self.delete_user_auth(user_id);
        let mut batch: Vec<Statement> = Vec::new();
        batch.push(first);
        batch.push(second);
        batch.push(third);
        assert(batch@.map_values(|s: Statement| s@) =~= seq![
            (StatementView::DeleteUser { id: utils::user_hash(user_id@) }),
            (StatementView::DeleteAllData { id: utils::user_hash(user_id@) }),
            (StatementView::DeleteAuth { id: utils::user_hash(user_id@) }),
        ]);
        batch
    }

    /// Asks for several values, or for none of them if one of the keys is invalid.
    pub fn get_data_keys(&self, user_id: &str, names: &Vec<String>) -> (r: Result<
        Vec<Statement>,
        DatabaseError,
    >)
        ensures
            match first_key_error(text::string_views(names@)) {
                Some(e) => r == Err::<Vec<Statement>, DatabaseError>(DatabaseError::InvalidKey(e)),
                None => r is Ok && r->Ok_0@.map_values(|s: Statement| s@) == text::string_views(
                    names@,
                ).map_values(
                    |key: Seq<char>|
                        StatementView::DataKey { id: utils::user_hash(user_id@), key },
                ),
            },
            r matches Ok(list) ==> list@.map_values(|s: Statement| s@) == values_of(
                user_id@,
                text::string_views(names@),
            ),
    {
        let ghost all = text::string_views(names@);
        let ghost expected = all.map_values(
            |key: Seq<char>| StatementView::DataKey { id: utils::user_hash(user_id@), key },
        );
        let mut out: Vec<Statement> = Vec::new();
        let mut i: usize = 0;
        assert(all.skip(0) =~= all);
        while i < names.len()
            invariant
                all == text::string_views(names@),
                expected == all.map_values(
                    |key: Seq<char>| StatementView::DataKey { id: utils::user_hash(user_id@), key },
                ),
                i <= names@.len(),
                first_key_error(all) == first_key_error(all.skip(i as int)),
                out@.map_values(|s: Statement| s@) == expected.take(i as int),
            decreases names@.len() - i,
        {
            assert(all.skip(i as int)[0] == names@[i as int]@);
            assert(all.skip(i as int).skip(1) =~= all.skip(i + 1));
            match self.get_data_key(user_id, names[i].as_str()) {
                Ok(statement) => {
                    let ghost before = out@.map_values(|s: Statement| s@);
                    let ghost shown = statement@;
                    out.push(statement);
                    assert(out@.map_values(|s: Statement| s@) =~= before.push(shown));
                    assert(out@.map_values(|s: Statement| s@) =~= expected.take(i + 1));
                },
                Err(e) => {
                    return Err(e);
                },
            }
            i = i + 1;
        }
        assert(out@.map_values(|s: Statement| s@) =~= expected);
        assert(values_of(user_id@, all) =~= expected);
        Ok(out)
    }

    /// Asks for the sum of the sizes of a user's values and the size of one.
    pub fn get_user_size_and_key_size(&self, user_id: &str, key: &str) -> (r: Result<
        (Statement, Statement),
        DatabaseError,
    >)
        ensures
            match utils::key_error(key@) {
                Some(e) => r == Err::<(Statement, Statement), DatabaseError>(
                    DatabaseError::InvalidKey(e),
                ),
                None => {
                    &&& r is Ok
                    &&& r->Ok_0.0@ == (StatementView::TotalSize { id: utils::user_hash(user_id@) })
                    &&& r->Ok_0.1@ == (StatementView::SizeOfKey {
                        id: utils::user_hash(user_id@),
                        key: key@,
                    })
                },
            },
            r matches Ok(both) ==> both.0@ == total_of(user_id@) && both.1@ == size_of(
                user_id@,
                key@,
            ),
    {
        match check_key(key) {
            Ok(()) => Ok(
                (
                    self.get_user_total_size(user_id),
                    Statement::SizeOfKey { id: utils::hash_user_id(user_id), key: key.to_owned() },
                ),
            ),
            Err(e) => Err(e),
        }
    }

    /// Makes settings ready to be written.
    pub fn save_user_settings(&self, user_id: &str, settings: Vec<u8>) -> (r: PreparedSettings)
        ensures
            r.id@ == utils::user_hash(user_id@),
            r.settings == settings,
            prepares_settings(user_id@, settings@, r),
    {
        PreparedSettings { id: utils::hash_user_id(user_id), settings }
    }

    /// Offers a new secret for a user.
    pub fn get_or_create_user_auth_secret(&self, user_id: &str, offered: &str, now: i64) -> (r:
        SecretInsert)
        ensures
            r.id@ == utils::user_hash(user_id@),
            r.secret@ == offered@,
            r.created_at == now,
            r.updated_at == now,
            offers(user_id@, offered@, now, r),
    {
        SecretInsert {
            id: utils::hash_user_id(user_id),
            secret: offered.to_owned(),
            created_at: now,
            updated_at: now,
        }
    }

    /// Makes a value ready to be written, or says why it is not written.
    pub fn save_data_key(
        &self,
        user_id: &str,
        key: &str,
        value: &Vec<u8>,
        checksum: &str,
    ) -> (r: Result<PreparedSave, DatabaseError>)
        ensures
            match save_error(self.config, key@, value@.len()) {
                Some(e) => r == Err::<PreparedSave, DatabaseError>(e),
                None => r is Ok && prepares(
                    self.config,
                    user_id@,
                    (ValidUploadView { key: key@, value: value@, checksum: checksum@ }),
                    r->Ok_0,
                ),
            },
    {
        if let Err(e) = check_key(key) {
            return Err(e);
        }
        let max_size: usize = keys::max_size_for_key(&self.config, key);
        if value.len() > max_size {
            return Err(value_too_large(max_size));
        }
        match size_to_i32(value.len()) {
            Ok(size_bytes) => Ok(
                PreparedSave {
                    id: utils::hash_user_id(user_id),
                    key: key.to_owned(),
                    stored: utils::compress(&self.config, value.as_slice()),
                    checksum: checksum.to_owned(),
                    size_bytes,
                },
            ),
            Err(e) => Err(e),
        }
    }

    /// Makes a batch of values ready to be written. A value that is too large is
    /// left out.
    pub fn save_data_keys_batch(&self, user_id: &str, entries: &Vec<ValidUpload>) -> (r: Vec<
        PreparedSave,
    >)
        ensures
            ({
                let kept = entries@.map_values(|u: ValidUpload| u@).filter(
                    |u: ValidUploadView| writable(self.config, u),
                );
                &&& r@.len() == kept.len()
                &&& forall|i: int|
                    0 <= i < kept.len() ==> prepares(
                        self.config,
                        user_id@,
                        kept[i],
                        #[trigger] r@[i],
                    )
            }),
            prepares_batch(self.config, user_id@, entries@.map_values(|u: ValidUpload| u@), r@),
    {
        let ghost all = entries@.map_values(|u: ValidUpload| u@);
        let ghost p = |u: ValidUploadView| writable(self.config, u);
        let mut out: Vec<PreparedSave> = Vec::new();
        let mut i: usize = 0;
        proof {
            reveal(Seq::filter);
            assert(all.take(0) =~= Seq::<ValidUploadView>::empty());
        }
        while i < entries.len()
            invariant
                all == entries@.map_values(|u: ValidUpload| u@),
                p == (|u: ValidUploadView| writable(self.config, u)),
                i <= entries@.len(),
                out@.len() == all.take(i as int).filter(p).len(),
                forall|k: int|
                    0 <= k < out@.len() ==> prepares(
                        self.config,
                        user_id@,
                        all.take(i as int).filter(p)[k],
                        #[trigger] out@[k],
                    ),
            decreases entries@.len() - i,
        {
            let entry = &entries[i];
            proof {
                assert(all[i as int] == entry@);
                crate::sync::lemma_filter_step(all, i as int, p);
            }
            let limit: usize = keys::max_size_for_key(&self.config, entry.key.as_str());
            if entry.value.len() <= limit {
                if let Ok(size_bytes) = size_to_i32(entry.value.len()) {
                    out.push(
                        PreparedSave {
                            id: utils::hash_user_id(user_id),
                            key: entry.key.clone(),
                            stored: utils::compress(&self.config, entry.value.as_slice()),
                            checksum: entry.checksum.clone(),
                            size_bytes,
                        },
                    );
                }
            }
            i = i + 1;
        }
        assert(all.take(i as int) =~= all);
        out
    }
}

/// The first error among the keys, if there is one.
pub open spec fn first_key_error(names: Seq<Seq<char>>) -> Option<KeyValidationError>
    decreases names.len(),
{
    if names.len() == 0 {
        None
    } else if utils::key_error(names[0]) is Some {
        utils::key_error(names[0])
    } else {
        first_key_error(names.skip(1))
    }
}

/// What was written is read back: a row that holds what was prepared for a value
/// stands for that value, unless the value is larger than a read unpacks, or it looks
/// like a zstd frame and had to be stored as it is.
pub proof fn law_saved_value_reads_back(
    config: Config,
    user_id: Seq<char>,
    upload: ValidUploadView,
    p: PreparedSave,
    row: DataRow,
)
    requires
        prepares(config, user_id, upload, p),
        row.stored@ == p.stored@,
        upload.value.len() <= constants::MAX_DECOMPRESSION_SIZE,
        !utils::has_magic(upload.value) || p.stored@ != upload.value,
    ensures
        row_entry(row).value == upload.value,
{
}

/// A value that was checked before is never left out of a batch.
pub proof fn law_checked_upload_is_written(config: Config, upload: ValidUploadView)
    requires
        save_error(config, upload.key, upload.value.len()) is None,
    ensures
        writable(config, upload),
{
}

/// A value is written just if its key is accepted, it is no larger than keys of its kind
/// allow, and its length can be stored in 31 bits; a refusal says the first of these that
/// fails. A batch leaves out just the values that are too large in either way.
pub proof fn law_value_is_written_just_if_it_fits(config: Config, upload: ValidUploadView)
    requires
        upload.value.len() <= usize::MAX,
    ensures
        ({
            let len = upload.value.len();
            let limit = if "dataStore/"@.is_prefix_of(upload.key) {
                config.max_datastore_key_size_bytes
            } else {
                config.max_key_size_bytes
            };
            let error = save_error(config, upload.key, len);
            let bad_key = utils::key_error(upload.key);
            &&& error is None <==> bad_key is None && len <= limit && len <= 0x7fff_ffff
            &&& bad_key is Some ==> error == Some(DatabaseError::InvalidKey(bad_key->0))
            &&& bad_key is None && len > limit ==> error == Some(
                DatabaseError::ValueTooLarge(limit),
            )
            &&& bad_key is None && len <= limit && len > 0x7fff_ffff ==> error == Some(
                DatabaseError::SizeOverflow(len as usize),
            )
            &&& writable(config, upload) <==> len <= limit && len <= 0x7fff_ffff
        }),
{
}

/// Several values are asked for just if each of their keys is accepted; else the error is
/// that of the first key that is not.
pub proof fn law_first_bad_key_is_named(names: Seq<Seq<char>>)
    ensures
        match first_key_error(names) {
            None => forall|i: int|
                0 <= i < names.len() ==> utils::key_error(#[trigger] names[i]) is None,
            Some(e) => exists|i: int|
                {
                    &&& 0 <= i < names.len()
                    &&& utils::key_error(#[trigger] names[i]) == Some(e)
                    &&& forall|j: int| 0 <= j < i ==> utils::key_error(#[trigger] names[j]) is None
                },
        },
    decreases names.len(),
{
    if names.len() > 0 {
        let rest = names.skip(1);
        law_first_bad_key_is_named(rest);
        if utils::key_error(names[0]) is Some {
            assert(utils::key_error(names[0]) == first_key_error(names));
        } else {
            match first_key_error(rest) {
                None => {
                    assert forall|i: int| 0 <= i < names.len() implies utils::key_error(
                        #[trigger] names[i],
                    ) is None by {
                        if i > 0 {
                            assert(rest[i - 1] == names[i]);
                        }
                    }
                },
                Some(e) => {
                    let i = choose|i: int|
                        {
                            &&& 0 <= i < rest.len()
                            &&& utils::key_error(#[trigger] rest[i]) == Some(e)
                            &&& forall|j: int|
                                0 <= j < i ==> utils::key_error(#[trigger] rest[j]) is None
                        };
                    assert(names[i + 1] == rest[i]);
                    assert forall|j: int| 0 <= j < i + 1 implies utils::key_error(
                        #[trigger] names[j],
                    ) is None by {
                        if j > 0 {
                            assert(rest[j - 1] == names[j]);
                        }
                    }
                },
            }
        }
    }
}

/// A row stands for what its columns say, its stored bytes unpacked, and its description
/// for the same without the bytes.
pub proof fn law_row_stands_for_its_columns(key: Seq<char>, row: DataRow)
    requires
        utils::key_error(key) is None,
    ensures
        value_answer(key, Some(row)) is Ok && value_answer(key, Some(row))->Ok_0 is Some,
        ({
            let e = value_answer(key, Some(row))->Ok_0->0;
            &&& e.key == row.key@
            &&& e.version == row.version
            &&& e.checksum == row.checksum@
            &&& e.size_bytes == row.size_bytes
            &&& e.created_at == row.created_at
            &&& e.updated_at == row.updated_at
            &&& row.stored@.len() < 4 || row.stored@[0] != 0x28 ==> e.value == row.stored@
        }),
        value_answer(key, None) == Ok::<Option<DataEntryView>, Seq<char>>(None),
{
    utils::law_what_is_no_frame_is_read_as_it_is(row.stored@);
}

/// The time of a write is shown in decimal, from which it can be read back.
pub proof fn law_time_is_shown_in_decimal(t: i64)
    ensures
        shown_time(Some(t)) is Some,
        numbers::signed_value(shown_time(Some(t))->0) == Some(t as int),
        shown_time(None) is None,
{
    numbers::law_decimal_reads_back((if t < 0 {
        -t
    } else {
        t as int
    }) as nat);
}

/// What is said of a saved value is what was prepared for it, with the version and the time
/// of the write.
pub proof fn law_saved_entry_says_what_was_written(
    config: Config,
    user_id: Seq<char>,
    upload: ValidUploadView,
    p: PreparedSave,
    version: i64,
    at: i64,
)
    requires
        prepares(config, user_id, upload, p),
    ensures
        saved_of(p, version, at).key == upload.key,
        saved_of(p, version, at).checksum == upload.checksum,
        saved_of(p, version, at).size_bytes == upload.value.len(),
        saved_of(p, version, at).version == version,
        saved_of(p, version, at).updated_at == at,
{
}

/// Where nothing is stored the sizes are nothing; else they are what the rows say. A write
/// was applied or not as the answer says, and an answer that says neither is an error.
pub proof fn law_rows_are_taken_at_their_word(sum: i64, size: i32, b: bool)
    ensures
        sum_said(Some(Some(sum))) == sum,
        sum_said(Some(None)) == 0,
        sum_said(None) == 0,
        size_said(Some(size)) == size,
        size_said(None) == 0,
        applied_said(FirstColumn::Boolean(b)) == Ok::<bool, DatabaseError>(b),
        applied_said(FirstColumn::Missing) is Err,
        applied_said(FirstColumn::Null) is Err,
        applied_said(FirstColumn::Other) is Err,
{
}

/// The description that is read alone is the one that the whole row gives.
pub proof fn law_description_is_the_same_when_read_alone(row: DataRow)
    ensures
        columns_metadata((row.version, row.checksum@, row.size_bytes, row.updated_at))
            == row_metadata(row),
        row_metadata(row).version == row_entry(row).version,
        row_metadata(row).checksum == row_entry(row).checksum,
        row_metadata(row).size_bytes == row_entry(row).size_bytes,
        row_metadata(row).updated_at == row_entry(row).updated_at,
{
}

/// A batch prepares each value that fits, under its own key, for the user who sent it, and
/// none that does not: one more value adds itself at the end where it fits.
pub proof fn law_batch_prepares_each_value_that_fits(
    config: Config,
    user_id: Seq<char>,
    uploads: Seq<ValidUploadView>,
    list: Seq<PreparedSave>,
    u: ValidUploadView,
    p: PreparedSave,
)
    requires
        prepares_batch(config, user_id, uploads, list),
    ensures
        prepares_batch(config, user_id, seq![], seq![]),
        ({
            let limit = if "dataStore/"@.is_prefix_of(u.key) {
                config.max_datastore_key_size_bytes
            } else {
                config.max_key_size_bytes
            };
            let fits = u.value.len() <= limit && u.value.len() <= 0x7fff_ffff;
            &&& fits && prepares(config, user_id, u, p) ==> prepares_batch(
                config,
                user_id,
                uploads.push(u),
                list.push(p),
            )
            &&& !fits ==> prepares_batch(config, user_id, uploads.push(u), list)
        }),
        prepares(config, user_id, u, p) ==> p.id@ == utils::user_hash(user_id) && p.key@ == u.key
            && p.checksum@ == u.checksum && p.size_bytes == u.value.len(),
{
    let keep = |u: ValidUploadView| writable(config, u);
    reveal(Seq::filter);
    assert(Seq::<ValidUploadView>::empty().filter(keep).len() == 0);
    assert(uploads.push(u).drop_last() =~= uploads);
    let before = written_of_batch(config, uploads);
    let after = written_of_batch(config, uploads.push(u));
    if writable(config, u) {
        assert(after =~= before.push(u));
        if prepares(config, user_id, u, p) {
            let more = list.push(p);
            assert forall|i: int| 0 <= i < more.len() implies prepares(
                config,
                user_id,
                after[i],
                #[trigger] more[i],
            ) by {
                if i < list.len() {
                    assert(more[i] == list[i] && after[i] == before[i]);
                }
            }
        }
    } else {
        assert(after =~= before);
    }
}

} // verus!
