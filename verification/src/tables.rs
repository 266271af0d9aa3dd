//! What the statements and the writes of the service do to the tables of the database, and
//! what follows from it: users read what they wrote, and nothing of others is touched.
use crate::database::{self, PreparedSave, PreparedSettings, SecretInsert, StatementView};
use crate::rounds::{self, BoundSettingsView, BoundWriteView, DataWrite, SettingsState};
use crate::sync::ValidUploadView;
use crate::types::config::Config;
use crate::utils;
use vstd::prelude::*;

verus! {

/// A row of the table of values.
pub struct ValueRow {
    pub stored: Seq<u8>,
    pub version: i64,
    pub checksum: Seq<char>,
    pub size_bytes: i32,
    pub created_at: i64,
    pub updated_at: i64,
}

/// The tables: settings with the time of their last write, by user; values, by user and
/// key; secrets, by user.
pub struct Tables {
    pub settings: Map<Seq<char>, (Seq<u8>, i64)>,
    pub values: Map<(Seq<char>, Seq<char>), ValueRow>,
    pub secrets: Map<Seq<char>, Seq<char>>,
}

/// The tables after a conditional write of a value.
pub open spec fn after_write(t: Tables, write: BoundWriteView) -> Tables {
    match write {
        BoundWriteView::Insert {
            id,
            key,
            stored,
            version,
            checksum,
            size_bytes,
            created_at,
            updated_at,
        } => if t.values.contains_key((id, key)) {
            t
        } else {
            let row = ValueRow { stored, version, checksum, size_bytes, created_at, updated_at };
            Tables { values: t.values.insert((id, key), row), ..t }
        },
        BoundWriteView::Update {
            stored,
            version,
            checksum,
            size_bytes,
            updated_at,
            id,
            key,
            expected,
        } => if t.values.contains_key((id, key)) && t.values[(id, key)].version == expected {
            let created_at = t.values[(id, key)].created_at;
            let row = ValueRow { stored, version, checksum, size_bytes, created_at, updated_at };
            Tables { values: t.values.insert((id, key), row), ..t }
        } else {
            t
        },
    }
}

/// The tables after a conditional write of settings.
pub open spec fn after_settings_write(t: Tables, write: BoundSettingsView) -> Tables {
    match write {
        BoundSettingsView::Update { settings, updated_at, id } => if t.settings.contains_key(id) {
            Tables { settings: t.settings.insert(id, (settings, updated_at)), ..t }
        } else {
            t
        },
        BoundSettingsView::Insert { id, settings, created_at: _, updated_at } =>
            if t.settings.contains_key(id) {
            t
        } else {
            Tables { settings: t.settings.insert(id, (settings, updated_at)), ..t }
        },
    }
}

/// The tables after a secret was offered.
pub open spec fn after_offer(t: Tables, offer: SecretInsert) -> Tables {
    if t.secrets.contains_key(offer.id@) {
        t
    } else {
        Tables { secrets: t.secrets.insert(offer.id@, offer.secret@), ..t }
    }
}

/// The tables after a statement. Only those that delete change anything.
pub open spec fn after_statement(t: Tables, s: StatementView) -> Tables {
    match s {
        StatementView::DeleteUser { id } => Tables { settings: t.settings.remove(id), ..t },
        StatementView::DeleteAllData { id } => Tables {
            values: t.values.restrict(t.values.dom().filter(|at: (Seq<char>, Seq<char>)| at.0 != id)),
            ..t
        },
        StatementView::DeleteAuth { id } => Tables { secrets: t.secrets.remove(id), ..t },
        StatementView::DeleteDataKey { id, key } => Tables { values: t.values.remove((id, key)), ..t },
        _ => t,
    }
}

/// The row that a statement reads from the table of values, if there is one.
pub open spec fn value_read(t: Tables, s: StatementView) -> Option<ValueRow> {
    match s {
        StatementView::DataKey { id, key } => if t.values.contains_key((id, key)) {
            Some(t.values[(id, key)])
        } else {
            None
        },
        StatementView::DataKeyMetadata { id, key } => if t.values.contains_key((id, key)) {
            Some(t.values[(id, key)])
        } else {
            None
        },
        StatementView::SizeOfKey { id, key } => if t.values.contains_key((id, key)) {
            Some(t.values[(id, key)])
        } else {
            None
        },
        _ => None,
    }
}

/// The settings and their time that a statement reads, if there are any.
pub open spec fn settings_read(t: Tables, s: StatementView) -> Option<(Seq<u8>, i64)> {
    match s {
        StatementView::UserSettings { id } => if t.settings.contains_key(id) {
            Some(t.settings[id])
        } else {
            None
        },
        StatementView::UserUpdatedAt { id } => if t.settings.contains_key(id) {
            Some(t.settings[id])
        } else {
            None
        },
        _ => None,
    }
}

/// The secret that a statement reads, if there is one.
pub open spec fn secret_read(t: Tables, s: StatementView) -> Option<Seq<char>> {
    match s {
        StatementView::AuthSecret { id } => if t.secrets.contains_key(id) {
            Some(t.secrets[id])
        } else {
            None
        },
        _ => None,
    }
}

/// A user reads the value that they wrote: where the row is as the write expects it, the
/// statements that ask for the value, its description and its size find the columns of the
/// write. The row of every other key or user stays as it was.
pub proof fn law_user_reads_the_value_that_they_wrote(
    t: Tables,
    config: Config,
    user_id: Seq<char>,
    upload: ValidUploadView,
    p: PreparedSave,
    read: Option<i64>,
    now: i64,
    other_user: Seq<char>,
    other_key: Seq<char>,
)
    requires
        database::prepares(config, user_id, upload, p),
        read matches Some(v) ==> v < i64::MAX,
        ({
            let row = value_read(t, database::value_of(user_id, upload.key));
            match read {
                Some(v) => row is Some && row->0.version == v,
                None => row is None,
            }
        }),
    ensures
        ({
            let after = after_write(t, rounds::bound(p, rounds::write_for(read, now)));
            let row = value_read(after, database::value_of(user_id, upload.key));
            &&& row is Some
            &&& utils::stores(config, upload.value, row->0.stored)
            &&& row->0.checksum == upload.checksum
            &&& row->0.size_bytes == upload.value.len()
            &&& row->0.updated_at == now
            &&& read is None ==> row->0.version == 1 && row->0.created_at == now
            &&& read matches Some(v) ==> row->0.version == v + 1 && row->0.created_at == value_read(
                t,
                database::value_of(user_id, upload.key),
            )->0.created_at
            &&& value_read(after, database::metadata_of(user_id, upload.key)) == row
            &&& value_read(after, database::size_of(user_id, upload.key)) == row
            &&& other_key != upload.key || utils::user_hash(other_user) != utils::user_hash(user_id)
                ==> value_read(after, database::value_of(other_user, other_key)) == value_read(
                t,
                database::value_of(other_user, other_key),
            )
            &&& after.settings == t.settings
            &&& after.secrets == t.secrets
        }),
{
}

/// A write that finds another version than it expects, or a row where it expects none,
/// changes nothing.
pub proof fn law_write_over_a_changed_row_does_nothing(
    t: Tables,
    p: PreparedSave,
    expected: i64,
    version: i64,
    at: i64,
)
    requires
        t.values.contains_key((p.id@, p.key@)),
    ensures
        after_write(t, rounds::bound(p, DataWrite::Insert { version, at })) == t,
        t.values[(p.id@, p.key@)].version != expected ==> after_write(
            t,
            rounds::bound(p, DataWrite::Update { expected, version, at }),
        ) == t,
{
}

/// A deleted value is gone, and every other value is still there.
pub proof fn law_deleted_value_is_gone(
    t: Tables,
    user_id: Seq<char>,
    key: Seq<char>,
    other_user: Seq<char>,
    other_key: Seq<char>,
)
    ensures
        ({
            let after = after_statement(t, database::value_deletion(user_id, key));
            &&& value_read(after, database::value_of(user_id, key)) is None
            &&& value_read(after, database::metadata_of(user_id, key)) is None
            &&& other_key != key || utils::user_hash(other_user) != utils::user_hash(user_id)
                ==> value_read(after, database::value_of(other_user, other_key)) == value_read(
                t,
                database::value_of(other_user, other_key),
            )
            &&& after.settings == t.settings
            &&& after.secrets == t.secrets
        }),
{
}

/// A user reads the settings that they wrote, with the time of the write, whether they had
/// any before or not: an update where there is a row, and an insert where there is none.
/// Once they are deleted there are none, and nothing else changed.
pub proof fn law_user_reads_the_settings_that_they_wrote(
    t: Tables,
    user_id: Seq<char>,
    settings: Seq<u8>,
    p: PreparedSettings,
    attempt: u32,
    now: i64,
    other_user: Seq<char>,
)
    requires
        database::prepares_settings(user_id, settings, p),
    ensures
        ({
            let updated = after_settings_write(
                t,
                rounds::bound_settings(p, SettingsState::Updating { attempt }, now)->0,
            );
            let after = after_settings_write(
                updated,
                rounds::bound_settings(p, SettingsState::Inserting { attempt }, now)->0,
            );
            let deleted = after_statement(after, database::settings_deletion(user_id));
            &&& settings_read(after, database::settings_of(user_id)) == Some((settings, now))
            &&& settings_read(after, database::settings_time_of(user_id)) == Some((settings, now))
            &&& settings_read(deleted, database::settings_of(user_id)) is None
            &&& settings_read(deleted, database::settings_time_of(user_id)) is None
            &&& utils::user_hash(other_user) != utils::user_hash(user_id) ==> settings_read(
                deleted,
                database::settings_of(other_user),
            ) == settings_read(t, database::settings_of(other_user))
            &&& deleted.values == t.values
            &&& deleted.secrets == t.secrets
        }),
{
}

/// The secret that is stored for a user is the first that was offered, until it is deleted.
pub proof fn law_first_offered_secret_is_stored(
    t: Tables,
    user_id: Seq<char>,
    first: Seq<char>,
    second: Seq<char>,
    now: i64,
    one: SecretInsert,
    two: SecretInsert,
)
    requires
        secret_read(t, database::secret_of(user_id)) is None,
        database::offers(user_id, first, now, one),
        database::offers(user_id, second, now, two),
    ensures
        ({
            let after = after_offer(after_offer(t, one), two);
            &&& secret_read(after, database::secret_of(user_id)) == Some(first)
            &&& secret_read(
                after_statement(after, database::secret_deletion(user_id)),
                database::secret_of(user_id),
            ) is None
        }),
{
}

/// The deletion of all values of a user leaves none of them, and all of everybody else's.
pub proof fn law_deletion_of_all_values_is_that_of_one_user(
    t: Tables,
    user_id: Seq<char>,
    other_user: Seq<char>,
    key: Seq<char>,
)
    ensures
        ({
            let after = after_statement(t, database::values_deletion(user_id));
            &&& value_read(after, database::value_of(user_id, key)) is None
            &&& utils::user_hash(other_user) != utils::user_hash(user_id) ==> value_read(
                after,
                database::value_of(other_user, key),
            ) == value_read(t, database::value_of(other_user, key))
            &&& after.settings == t.settings
            &&& after.secrets == t.secrets
        }),
{
}

/// Reading changes nothing, and what is read of a user is read under that user's name.
pub proof fn law_reading_changes_nothing(
    t: Tables,
    user_id: Seq<char>,
    key: Seq<char>,
    names: Seq<Seq<char>>,
    i: int,
)
    ensures
        after_statement(t, database::settings_time_of(user_id)) == t,
        after_statement(t, database::settings_of(user_id)) == t,
        after_statement(t, database::secret_of(user_id)) == t,
        after_statement(t, database::listing_of(user_id)) == t,
        after_statement(t, database::total_of(user_id)) == t,
        after_statement(t, database::value_of(user_id, key)) == t,
        after_statement(t, database::metadata_of(user_id, key)) == t,
        after_statement(t, database::size_of(user_id, key)) == t,
        database::listing_of(user_id) == (StatementView::DataManifest {
            id: utils::user_hash(user_id),
        }),
        database::total_of(user_id) == (StatementView::TotalSize { id: utils::user_hash(user_id) }),
        database::values_of(user_id, names).len() == names.len(),
        0 <= i < names.len() ==> value_read(t, database::values_of(user_id, names)[i])
            == value_read(t, database::value_of(user_id, names[i])),
{
}

/// The tables after several statements, one after the other.
pub open spec fn after_statements(t: Tables, batch: Seq<StatementView>) -> Tables
    decreases batch.len(),
{
    if batch.len() == 0 {
        t
    } else {
        after_statement(after_statements(t, batch.drop_last()), batch.last())
    }
}

/// The deletion of an account leaves nothing of its user, neither settings nor values nor
/// a secret, and touches nothing of anybody who is stored under another name.
pub proof fn law_deleted_account_leaves_nothing(
    t: Tables,
    user_id: Seq<char>,
    other_user: Seq<char>,
    key: Seq<char>,
)
    ensures
        ({
            let after = after_statements(t, database::account_batch(user_id));
            &&& settings_read(after, database::settings_of(user_id)) is None
            &&& value_read(after, database::value_of(user_id, key)) is None
            &&& secret_read(after, database::secret_of(user_id)) is None
            &&& utils::user_hash(other_user) != utils::user_hash(user_id) ==> {
                &&& settings_read(after, database::settings_of(other_user)) == settings_read(
                    t,
                    database::settings_of(other_user),
                )
                &&& value_read(after, database::value_of(other_user, key)) == value_read(
                    t,
                    database::value_of(other_user, key),
                )
                &&& secret_read(after, database::secret_of(other_user)) == secret_read(
                    t,
                    database::secret_of(other_user),
                )
            }
        }),
{
    let batch = database::account_batch(user_id);
    let two = batch.drop_last();
    let one = two.drop_last();
    assert(one.drop_last() =~= Seq::<StatementView>::empty());
    assert(batch.last() == batch[2] && two.last() == batch[1] && one.last() == batch[0]);
    reveal_with_fuel(after_statements, 4);
}

} // verus!
