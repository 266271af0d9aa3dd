//! Writes that are repeated until the database applies one: the rounds of a saved
//! value, of saved settings and of a new secret.
use crate::database::{DatabaseError, PreparedSave, PreparedSettings};
use crate::digest;
use crate::text;
use vstd::prelude::*;

verus! {

/// How often a conditional write is tried.
pub const LWT_MAX_RETRIES: u32 = 5;

/// A conditional write of a value: a new row, or the next version of a row that
/// still has the version that was read.
#[derive(Debug, Clone, Copy, PartialEq, Eq, Structural)]
pub enum DataWrite {
    Insert { version: i64, at: i64 },
    Update { expected: i64, version: i64, at: i64 },
}

/// The room that a user has, where it is limited.
#[derive(Debug, Clone, Copy, PartialEq, Eq, Structural)]
pub struct Room {
    /// The sum of the sizes of all of the user's values.
    pub total: i64,
    /// The size of the value that is to be written.
    pub new_size: i32,
    /// The limit on the sum.
    pub max_total: i64,
}

/// A conditional write of a value with everything that goes into it.
#[derive(Debug)]
pub enum BoundWrite<'a> {
    /// A new row, if there is none for the key.
    Insert {
        id: &'a str,
        key: &'a str,
        stored: &'a [u8],
        version: i64,
        checksum: &'a str,
        size_bytes: i32,
        created_at: i64,
        updated_at: i64,
    },
    /// New columns of the row of the key, if it has the expected version. The time at
    /// which the row was created stays.
    Update {
        stored: &'a [u8],
        version: i64,
        checksum: &'a str,
        size_bytes: i32,
        updated_at: i64,
        id: &'a str,
        key: &'a str,
        expected: i64,
    },
}

/// What [`BoundWrite`] holds.
pub enum BoundWriteView {
    Insert {
        id: Seq<char>,
        key: Seq<char>,
        stored: Seq<u8>,
        version: i64,
        checksum: Seq<char>,
        size_bytes: i32,
        created_at: i64,
        updated_at: i64,
    },
    Update {
        stored: Seq<u8>,
        version: i64,
        checksum: Seq<char>,
        size_bytes: i32,
        updated_at: i64,
        id: Seq<char>,
        key: Seq<char>,
        expected: i64,
    },
}

impl<'a> View for BoundWrite<'a> {
    type V = BoundWriteView;

    open spec fn view(&self) -> BoundWriteView {
        match *self {
            BoundWrite::Insert {
                id,
                key,
                stored,
                version,
                checksum,
                size_bytes,
                created_at,
                updated_at,
            } => BoundWriteView::Insert {
                id: id@,
                key: key@,
                stored: stored@,
                version,
                checksum: checksum@,
                size_bytes,
                created_at,
                updated_at,
            },
            BoundWrite::Update {
                stored,
                version,
                checksum,
                size_bytes,
                updated_at,
                id,
                key,
                expected,
            } => BoundWriteView::Update {
                stored: stored@,
                version,
                checksum: checksum@,
                size_bytes,
                updated_at,
                id: id@,
                key: key@,
                expected,
            },
        }
    }
}

/// Everything that goes into a write of a prepared value.
pub open spec fn bound(p: PreparedSave, write: DataWrite) -> BoundWriteView {
    match write {
        DataWrite::Insert { version, at } => BoundWriteView::Insert {
            id: p.id@,
            key: p.key@,
            stored: p.stored@,
            version,
            checksum: p.checksum@,
            size_bytes: p.size_bytes,
            created_at: at,
            updated_at: at,
        },
        DataWrite::Update { expected, version, at } => BoundWriteView::Update {
            stored: p.stored@,
            version,
            checksum: p.checksum@,
            size_bytes: p.size_bytes,
            updated_at: at,
            id: p.id@,
            key: p.key@,
            expected,
        },
    }
}

/// Everything that goes into a write of a prepared value.
pub fn bind_write<'a>(p: &'a PreparedSave, write: DataWrite) -> (r: BoundWrite<'a>)
    ensures
        r@ == bound(*p, write),
{
    match write {
        DataWrite::Insert { version, at } => BoundWrite::Insert {
            id: p.id.as_str(),
            key: p.key.as_str(),
            stored: p.stored.as_slice(),
            version,
            checksum: p.checksum.as_str(),
            size_bytes: p.size_bytes,
            created_at: at,
            updated_at: at,
        },
        DataWrite::Update { expected, version, at } => BoundWrite::Update {
            stored: p.stored.as_slice(),
            version,
            checksum: p.checksum.as_str(),
            size_bytes: p.size_bytes,
            updated_at: at,
            id: p.id.as_str(),
            key: p.key.as_str(),
            expected,
        },
    }
}

/// Where the saving of a value stands.
#[derive(Debug, Clone, Copy, PartialEq, Eq, Structural)]
pub enum SaveState {
    /// The version and the size of the row are to be read.
    Reading { attempt: u32 },
    /// The write is to be tried.
    Writing { attempt: u32, write: DataWrite },
    Saved { version: i64, at: i64 },
    OverQuota,
    Failed,
}

/// The write that follows from the version that was read.
pub open spec fn write_for(existing: Option<i64>, now: i64) -> DataWrite {
    match existing {
        None => DataWrite::Insert { version: 1, at: now },
        Some(v) => DataWrite::Update { expected: v, version: (v + 1) as i64, at: now },
    }
}

/// The sum of all sizes with the new value in place of the old one.
pub open spec fn total_after(room: Room, existing_size: int) -> int {
    room.total - existing_size + room.new_size
}

/// What follows once the row was read.
pub open spec fn next_after_read(
    attempt: u32,
    existing: Option<(i64, i32)>,
    room: Option<Room>,
    now: i64,
) -> SaveState {
    let size = match existing {
        Some((_, size)) => size as int,
        None => 0,
    };
    let version = match existing {
        Some((version, _)) => Some(version),
        None => None,
    };
    if room is Some && total_after(room->0, size) > room->0.max_total {
        SaveState::OverQuota
    } else {
        SaveState::Writing { attempt, write: write_for(version, now) }
    }
}

/// What follows once the write was tried.
pub open spec fn next_after_write(attempt: u32, write: DataWrite, applied: bool) -> SaveState {
    if applied {
        match write {
            DataWrite::Insert { version, at } => SaveState::Saved { version, at },
            DataWrite::Update { version, at, .. } => SaveState::Saved { version, at },
        }
    } else if attempt + 1 < LWT_MAX_RETRIES {
        SaveState::Reading { attempt: (attempt + 1) as u32 }
    } else {
        SaveState::Failed
    }
}

/// Where the saving of a value begins.
pub open spec fn first_state() -> SaveState {
    SaveState::Reading { attempt: 0 }
}

/// Begins to save a value.
pub fn begin_save() -> (r: SaveState)
    ensures
        r == (SaveState::Reading { attempt: 0 }),
        r == first_state(),
{
    SaveState::Reading { attempt: 0 }
}

/// Goes on once the version of the row was read, for a value that is saved whatever
/// room the user has.
pub fn save_data_key_lwt(attempt: u32, existing: Option<i64>, now: i64) -> (r: SaveState)
    requires
        existing matches Some(version) ==> version < i64::MAX,
    ensures
        r == (SaveState::Writing { attempt, write: write_for(existing, now) }),
        r == next_after_read(
            attempt,
            (match existing {
                Some(version) => Some((version, 0i32)),
                None => None,
            }),
            None,
            now,
        ),
{
    match existing {
        Some(version) => after_read(attempt, Some((version, 0)), None, now),
        None => after_read(attempt, None, None, now),
    }
}

/// Goes on once the row and the sum of all sizes were read, for a value that must
/// not take the user beyond a limit.
pub fn save_data_key_with_quota_check(
    attempt: u32,
    total: i64,
    existing: Option<(i64, i32)>,
    new_size: i32,
    max_total: i64,
    now: i64,
) -> (r: SaveState)
    requires
        existing matches Some((version, _)) ==> version < i64::MAX,
    ensures
        r == next_after_read(attempt, existing, Some(Room { total, new_size, max_total }), now),
{
    after_read(attempt, existing, Some(Room { total, new_size, max_total }), now)
}

/// Goes on once the row was read. Without `room` the sizes do not matter.
fn after_read(
    attempt: u32,
    existing: Option<(i64, i32)>,
    room: Option<Room>,
    now: i64,
) -> (r: SaveState)
    requires
        existing matches Some((version, _)) ==> version < i64::MAX,
    ensures
        r == next_after_read(attempt, existing, room, now),
{
    let size: i128 = match existing {
        Some((_, size)) => size as i128,
        None => 0,
    };
    if let Some(room) = room {
        let new_total: i128 = room.total as i128 - size + room.new_size as i128;
        if new_total > room.max_total as i128 {
            return SaveState::OverQuota;
        }
    }
    let write = match existing {
        None => DataWrite::Insert { version: 1, at: now },
        Some((version, _)) => DataWrite::Update { expected: version, version: version + 1, at: now },
    };
    SaveState::Writing { attempt, write }
}

/// Goes on once the write was tried.
pub fn after_write(attempt: u32, write: DataWrite, applied: bool) -> (r: SaveState)
    requires
        attempt < LWT_MAX_RETRIES,
    ensures
        r == next_after_write(attempt, write, applied),
{
    if applied {
        match write {
            DataWrite::Insert { version, at } => SaveState::Saved { version, at },
            DataWrite::Update { version, at, .. } => SaveState::Saved { version, at },
        }
    } else if attempt + 1 < LWT_MAX_RETRIES {
        SaveState::Reading { attempt: attempt + 1 }
    } else {
        SaveState::Failed
    }
}

/// What a saving came to: the version and the time that the value has then, `None`
/// where it would not fit, or the error of giving up. `None` while the saving goes on.
pub open spec fn save_outcome(state: SaveState) -> Option<
    Result<Option<(i64, i64)>, DatabaseError>,
> {
    match state {
        SaveState::Saved { version, at } => Some(Ok(Some((version, at)))),
        SaveState::OverQuota => Some(Ok(None)),
        SaveState::Failed => Some(Err(DatabaseError::KeyContention)),
        _ => None,
    }
}

/// The version and the time that a value was saved with, `None` where it would not
/// fit, or the error of giving up. Nothing is said while the saving goes on.
pub fn save_result(state: SaveState) -> (r: Option<Result<Option<(i64, i64)>, DatabaseError>>)
    ensures
        match state {
            SaveState::Saved { version, at } => r == Some(
                Ok::<Option<(i64, i64)>, DatabaseError>(Some((version, at))),
            ),
            SaveState::OverQuota => r == Some(Ok::<Option<(i64, i64)>, DatabaseError>(None)),
            SaveState::Failed => r == Some(
                Err::<Option<(i64, i64)>, DatabaseError>(DatabaseError::KeyContention),
            ),
            _ => r is None,
        },
        r == save_outcome(state),
{
    match state {
        SaveState::Saved { version, at } => Some(Ok(Some((version, at)))),
        SaveState::OverQuota => Some(Ok(None)),
        SaveState::Failed => Some(Err(DatabaseError::KeyContention)),
        _ => None,
    }
}

/// How many requests to the database a saving can still make.
pub open spec fn requests_left(state: SaveState) -> int {
    match state {
        SaveState::Reading { attempt } => 2 * (LWT_MAX_RETRIES - attempt),
        SaveState::Writing { attempt, .. } => 2 * (LWT_MAX_RETRIES - attempt) - 1,
        _ => 0,
    }
}

/// Saving ends: it makes at most five reads and five writes.
pub proof fn law_saving_ends(
    attempt: u32,
    existing: Option<(i64, i32)>,
    room: Option<Room>,
    now: i64,
    write: DataWrite,
    applied: bool,
)
    requires
        attempt < LWT_MAX_RETRIES,
    ensures
        requests_left(SaveState::Reading { attempt: 0 }) == 10,
        0 <= requests_left(next_after_read(attempt, existing, room, now)) < requests_left(
            SaveState::Reading { attempt },
        ),
        0 <= requests_left(next_after_write(attempt, write, applied)) < requests_left(
            SaveState::Writing { attempt, write },
        ),
        next_after_write(attempt, write, applied) matches SaveState::Reading { attempt: a } ==> a
            < LWT_MAX_RETRIES,
{
}

/// What a conditional write does to a row whose version is `row`: the version after
/// it, and whether it was applied.
pub open spec fn apply_write(row: Option<i64>, write: DataWrite) -> (Option<i64>, bool) {
    match write {
        DataWrite::Insert { version, .. } => if row is None {
            (Some(version), true)
        } else {
            (row, false)
        },
        DataWrite::Update { expected, version, .. } => if row == Some(expected) {
            (Some(version), true)
        } else {
            (row, false)
        },
    }
}

/// No write is lost: a value is only written over the version that was read, and
/// then has the next version. Where the row changed in between, nothing is written.
pub proof fn law_no_lost_update(read: Option<i64>, row: Option<i64>, now: i64)
    requires
        read matches Some(v) ==> v < i64::MAX,
    ensures
        ({
            let (after, applied) = apply_write(row, write_for(read, now));
            &&& applied <==> row == read
            &&& applied && read is Some ==> after == Some((read->0 + 1) as i64)
            &&& applied && read is None ==> after == Some(1i64)
            &&& !applied ==> after == row
        }),
{
}

/// A saved value has the version that the row then has.
pub proof fn law_saved_version_is_the_stored_one(
    attempt: u32,
    read: Option<i64>,
    row: Option<i64>,
    now: i64,
)
    ensures
        ({
            let write = write_for(read, now);
            let (after, applied) = apply_write(row, write);
            next_after_write(attempt, write, applied) matches SaveState::Saved { version, at }
                ==> after == Some(version) && at == now
        }),
{
}

/// A write is only tried if the value fits in the room that the user has.
pub proof fn law_writes_fit_in_the_room(
    attempt: u32,
    existing: Option<(i64, i32)>,
    room: Room,
    now: i64,
)
    ensures
        ({
            let size = match existing {
                Some((_, size)) => size as int,
                None => 0,
            };
            next_after_read(attempt, existing, Some(room), now) is Writing <==> total_after(
                room,
                size,
            ) <= room.max_total
        }),
{
}

/// What the database answers in one round of saving: the row, the room where it is
/// limited, the time, and whether the write was applied.
pub struct Round {
    pub existing: Option<(i64, i32)>,
    pub room: Option<Room>,
    pub now: i64,
    pub applied: bool,
}

/// Whether the value fits in the room that there is in a round.
pub open spec fn fits(round: Round) -> bool {
    next_after_read(0, round.existing, round.room, round.now) is Writing
}

/// The version and the time that a round writes.
pub open spec fn written_in(round: Round) -> (i64, i64) {
    match round.existing {
        Some((version, _)) => ((version + 1) as i64, round.now),
        None => (1, round.now),
    }
}

/// Where a saving ends up that begins in the given round and takes its answers from
/// `rounds`.
pub open spec fn run_rounds(attempt: u32, rounds: Seq<Round>) -> SaveState
    decreases rounds.len(),
{
    if rounds.len() == 0 {
        SaveState::Reading { attempt }
    } else {
        let round = rounds[0];
        match next_after_read(attempt, round.existing, round.room, round.now) {
            SaveState::Writing { attempt, write } => match next_after_write(
                attempt,
                write,
                round.applied,
            ) {
                SaveState::Reading { attempt } => run_rounds(attempt, rounds.skip(1)),
                done => done,
            },
            done => done,
        }
    }
}

/// What five rounds come to: the first round that the value does not fit in, or whose
/// write is applied, decides; where there is none, saving fails.
pub proof fn law_first_decisive_round_decides(attempt: u32, rounds: Seq<Round>)
    requires
        attempt < LWT_MAX_RETRIES,
        rounds.len() == LWT_MAX_RETRIES - attempt,
    ensures
        match run_rounds(attempt, rounds) {
            SaveState::Saved { version, at } => exists|i: int|
                {
                    &&& 0 <= i < rounds.len()
                    &&& fits(#[trigger] rounds[i])
                    &&& rounds[i].applied
                    &&& (version, at) == written_in(rounds[i])
                    &&& forall|j: int| 0 <= j < i ==> fits(#[trigger] rounds[j]) && !rounds[j].applied
                },
            SaveState::OverQuota => exists|i: int|
                {
                    &&& 0 <= i < rounds.len()
                    &&& !fits(#[trigger] rounds[i])
                    &&& forall|j: int| 0 <= j < i ==> fits(#[trigger] rounds[j]) && !rounds[j].applied
                },
            SaveState::Failed => forall|j: int|
                0 <= j < rounds.len() ==> fits(#[trigger] rounds[j]) && !rounds[j].applied,
            _ => false,
        },
    decreases rounds.len(),
{
    let round = rounds[0];
    let rest = rounds.skip(1);
    if fits(round) && !round.applied && attempt + 1 < LWT_MAX_RETRIES {
        law_first_decisive_round_decides((attempt + 1) as u32, rest);
        assert(run_rounds(attempt, rounds) == run_rounds((attempt + 1) as u32, rest));
        assert forall|j: int| 0 < j < rounds.len() implies #[trigger] rounds[j] == rest[j - 1] by {}
        match run_rounds(attempt, rounds) {
            SaveState::Saved { version, at } => {
                let i = choose|i: int|
                    {
                        &&& 0 <= i < rest.len()
                        &&& fits(#[trigger] rest[i])
                        &&& rest[i].applied
                        &&& (version, at) == written_in(rest[i])
                        &&& forall|j: int|
                            0 <= j < i ==> fits(#[trigger] rest[j]) && !rest[j].applied
                    };
                assert(rounds[i + 1] == rest[i]);
                assert forall|j: int| 0 <= j < i + 1 implies fits(#[trigger] rounds[j])
                    && !rounds[j].applied by {
                    if j > 0 {
                        assert(fits(rest[j - 1]));
                    }
                }
            },
            SaveState::OverQuota => {
                let i = choose|i: int|
                    {
                        &&& 0 <= i < rest.len()
                        &&& !fits(#[trigger] rest[i])
                        &&& forall|j: int|
                            0 <= j < i ==> fits(#[trigger] rest[j]) && !rest[j].applied
                    };
                assert(rounds[i + 1] == rest[i]);
                assert forall|j: int| 0 <= j < i + 1 implies fits(#[trigger] rounds[j])
                    && !rounds[j].applied by {
                    if j > 0 {
                        assert(fits(rest[j - 1]));
                    }
                }
            },
            _ => {
                assert forall|j: int| 0 <= j < rounds.len() implies fits(#[trigger] rounds[j])
                    && !rounds[j].applied by {
                    if j > 0 {
                        assert(fits(rest[j - 1]));
                    }
                }
            },
        }
    } else {
        assert(rounds[0] == round);
        if fits(round) && !round.applied {
            assert(rounds.len() == 1);
        }
    }
}

/// Where the saving of settings stands.
#[derive(Debug, Clone, Copy, PartialEq, Eq, Structural)]
pub enum SettingsState {
    /// The row is to be updated if there is one.
    Updating { attempt: u32 },
    /// The row is to be inserted if there is none.
    Inserting { attempt: u32 },
    Written,
    Failed,
}

/// A conditional write of settings with everything that goes into it.
#[derive(Debug)]
pub enum BoundSettings<'a> {
    /// New columns of the row of the user, if there is one.
    Update { settings: &'a [u8], updated_at: i64, id: &'a str },
    /// A new row, if the user has none.
    Insert { id: &'a str, settings: &'a [u8], created_at: i64, updated_at: i64 },
}

/// What [`BoundSettings`] holds.
pub enum BoundSettingsView {
    Update { settings: Seq<u8>, updated_at: i64, id: Seq<char> },
    Insert { id: Seq<char>, settings: Seq<u8>, created_at: i64, updated_at: i64 },
}

impl<'a> View for BoundSettings<'a> {
    type V = BoundSettingsView;

    open spec fn view(&self) -> BoundSettingsView {
        match *self {
            BoundSettings::Update { settings, updated_at, id } => BoundSettingsView::Update {
                settings: settings@,
                updated_at,
                id: id@,
            },
            BoundSettings::Insert { id, settings, created_at, updated_at } =>
                BoundSettingsView::Insert {
                id: id@,
                settings: settings@,
                created_at,
                updated_at,
            },
        }
    }
}

/// Everything that goes into the write that a state asks for, if it asks for one.
pub open spec fn bound_settings(
    p: PreparedSettings,
    state: SettingsState,
    now: i64,
) -> Option<BoundSettingsView> {
    match state {
        SettingsState::Updating { .. } => Some(
            BoundSettingsView::Update { settings: p.settings@, updated_at: now, id: p.id@ },
        ),
        SettingsState::Inserting { .. } => Some(
            BoundSettingsView::Insert {
                id: p.id@,
                settings: p.settings@,
                created_at: now,
                updated_at: now,
            },
        ),
        _ => None,
    }
}

/// The settings and the time that a row holds once a write was applied to it.
pub open spec fn settings_row(write: BoundSettingsView) -> (Seq<u8>, i64) {
    match write {
        BoundSettingsView::Update { settings, updated_at, .. } => (settings, updated_at),
        BoundSettingsView::Insert { settings, updated_at, .. } => (settings, updated_at),
    }
}

/// Everything that goes into the write that a state asks for, if it asks for one.
pub fn bind_settings<'a>(p: &'a PreparedSettings, state: SettingsState, now: i64) -> (r: Option<
    BoundSettings<'a>,
>)
    ensures
        match bound_settings(*p, state, now) {
            Some(write) => r is Some && r->0@ == write,
            None => r is None,
        },
{
    match state {
        SettingsState::Updating { .. } => Some(
            BoundSettings::Update {
                settings: p.settings.as_slice(),
                updated_at: now,
                id: p.id.as_str(),
            },
        ),
        SettingsState::Inserting { .. } => Some(
            BoundSettings::Insert {
                id: p.id.as_str(),
                settings: p.settings.as_slice(),
                created_at: now,
                updated_at: now,
            },
        ),
        _ => None,
    }
}

/// What follows once a write of settings was tried.
pub open spec fn next_settings(state: SettingsState, applied: bool) -> SettingsState {
    match state {
        SettingsState::Updating { attempt } => if applied {
            SettingsState::Written
        } else {
            SettingsState::Inserting { attempt }
        },
        SettingsState::Inserting { attempt } => if applied {
            SettingsState::Written
        } else if attempt + 1 < LWT_MAX_RETRIES {
            SettingsState::Updating { attempt: (attempt + 1) as u32 }
        } else {
            SettingsState::Failed
        },
        done => done,
    }
}

/// Where the saving of settings begins.
pub open spec fn first_settings_state() -> SettingsState {
    SettingsState::Updating { attempt: 0 }
}

/// Begins to save settings.
pub fn save_user_settings() -> (r: SettingsState)
    ensures
        r == (SettingsState::Updating { attempt: 0 }),
        r == first_settings_state(),
{
    SettingsState::Updating { attempt: 0 }
}

/// Goes on once a write of settings was tried.
pub fn after_settings_write(state: SettingsState, applied: bool) -> (r: SettingsState)
    ensures
        r == next_settings(state, applied),
{
    match state {
        SettingsState::Updating { attempt } => if applied {
            SettingsState::Written
        } else {
            SettingsState::Inserting { attempt }
        },
        SettingsState::Inserting { attempt } => if applied {
            SettingsState::Written
        } else if attempt < LWT_MAX_RETRIES - 1 {
            SettingsState::Updating { attempt: attempt + 1 }
        } else {
            SettingsState::Failed
        },
        done => done,
    }
}

/// What a saving of settings came to: the time that they were saved with, or the error
/// of giving up. `None` while the saving goes on.
pub open spec fn settings_outcome(state: SettingsState, now: i64) -> Option<
    Result<i64, DatabaseError>,
> {
    match state {
        SettingsState::Written => Some(Ok(now)),
        SettingsState::Failed => Some(Err(DatabaseError::SettingsContention)),
        _ => None,
    }
}

/// The time that settings were saved with, or the error of giving up. Nothing is
/// said while the saving goes on.
pub fn settings_result(state: SettingsState, now: i64) -> (r: Option<Result<i64, DatabaseError>>)
    ensures
        match state {
            SettingsState::Written => r == Some(Ok::<i64, DatabaseError>(now)),
            SettingsState::Failed => r == Some(
                Err::<i64, DatabaseError>(DatabaseError::SettingsContention),
            ),
            _ => r is None,
        },
        r == settings_outcome(state, now),
{
    match state {
        SettingsState::Written => Some(Ok(now)),
        SettingsState::Failed => Some(Err(DatabaseError::SettingsContention)),
        _ => None,
    }
}

/// How many writes a saving of settings can still make.
pub open spec fn settings_writes_left(state: SettingsState) -> int {
    match state {
        SettingsState::Updating { attempt } => 2 * (LWT_MAX_RETRIES - attempt),
        SettingsState::Inserting { attempt } => 2 * (LWT_MAX_RETRIES - attempt) - 1,
        _ => 0,
    }
}

/// Saving settings ends: it makes at most five updates and five inserts.
pub proof fn law_saving_settings_ends(state: SettingsState, applied: bool)
    requires
        state matches SettingsState::Updating { attempt } ==> attempt < LWT_MAX_RETRIES,
        state matches SettingsState::Inserting { attempt } ==> attempt < LWT_MAX_RETRIES,
        state is Updating || state is Inserting,
    ensures
        settings_writes_left(SettingsState::Updating { attempt: 0 }) == 10,
        0 <= settings_writes_left(next_settings(state, applied)) < settings_writes_left(state),
{
}

/// Whether a write of settings is applied to a row that is there or not.
pub open spec fn settings_applied(exists_row: bool, state: SettingsState) -> bool {
    match state {
        SettingsState::Updating { .. } => exists_row,
        SettingsState::Inserting { .. } => !exists_row,
        _ => false,
    }
}

/// Where nobody adds or deletes the row in between, one round is enough.
pub proof fn law_quiet_settings_round_writes(exists_row: bool, attempt: u32)
    ensures
        ({
            let first = SettingsState::Updating { attempt };
            let second = next_settings(first, settings_applied(exists_row, first));
            let third = next_settings(second, settings_applied(exists_row, second));
            third == SettingsState::Written
        }),
{
}

/// `rand::random` on an array of thirty-two bytes: nothing is said of the bytes,
/// which depend on chance.
#[verifier::external_body]
fn random_bytes() -> (r: [u8; 32]) {
    rand::random()
}

/// The secret that some bytes stand for.
pub fn secret_from_bytes(bytes: &[u8]) -> (r: String)
    ensures
        r@ == digest::hex_text(bytes@),
{
    digest::hex_of(bytes)
}

/// A new secret: thirty-two random bytes as hexadecimal text.
pub fn new_secret() -> (r: String)
    ensures
        exists|bytes: Seq<u8>| bytes.len() == 32 && r@ == #[trigger] digest::hex_text(bytes),
        r@.len() == 64,
{
    let bytes = random_bytes();
    let r = secret_from_bytes(bytes.as_slice());
    proof {
        digest::lemma_hex_len(bytes@);
    }
    r
}

/// What is known of a user's secret once one was offered: the offered one if it was
/// stored, nothing if the user had one before.
pub open spec fn secret_after_offer(offered: Seq<char>, applied: bool) -> Option<Seq<char>> {
    if applied {
        Some(offered)
    } else {
        None
    }
}

/// What follows once a new secret was offered: the secret itself if it was stored,
/// `None` if the user had one before, which is then to be read.
pub fn get_or_create_user_auth_secret(offered: String, applied: bool) -> (r: Option<String>)
    ensures
        applied ==> r == Some(offered),
        text::option_view(r) == secret_after_offer(offered@, applied),
{
    if applied {
        Some(offered)
    } else {
        None
    }
}

/// The secret of a user who had one, where `read` is what the database then says it is.
pub open spec fn secret_read(read: Option<Seq<char>>) -> Result<Seq<char>, DatabaseError> {
    match read {
        Some(secret) => Ok(secret),
        None => Err(DatabaseError::SecretVanished),
    }
}

/// The secret that was there before.
pub fn existing_secret(read: Option<String>) -> (r: Result<String, DatabaseError>)
    ensures
        match read {
            Some(secret) => r == Ok::<String, DatabaseError>(secret),
            None => r == Err::<String, DatabaseError>(DatabaseError::SecretVanished),
        },
        match secret_read(text::option_view(read)) {
            Ok(secret) => r is Ok && r->Ok_0@ == secret,
            Err(e) => r == Err::<String, DatabaseError>(e),
        },
{
    match read {
        Some(secret) => Ok(secret),
        None => Err(DatabaseError::SecretVanished),
    }
}

/// What a login does to the secret that is stored for its user: an offered secret is
/// stored if there is none.
pub open spec fn stored_after_login(stored: Option<Seq<char>>, offered: Seq<char>) -> Option<
    Seq<char>,
> {
    if stored is None {
        Some(offered)
    } else {
        stored
    }
}

/// The secret that a login gives: the offered one if that was stored, and what is read
/// back if it was not.
pub open spec fn secret_of_login(stored: Option<Seq<char>>, offered: Seq<char>) -> Option<
    Seq<char>,
> {
    match secret_after_offer(offered, stored is None) {
        Some(secret) => Some(secret),
        None => match secret_read(stored_after_login(stored, offered)) {
            Ok(secret) => Some(secret),
            Err(_) => None,
        },
    }
}

/// A second login gives the same secret as the first, whatever is offered in it, and
/// changes nothing.
pub proof fn law_second_login_gives_the_same_secret(
    stored: Option<Seq<char>>,
    first_offer: Seq<char>,
    second_offer: Seq<char>,
)
    ensures
        ({
            let after = stored_after_login(stored, first_offer);
            &&& secret_of_login(stored, first_offer) is Some
            &&& secret_of_login(stored, first_offer) == after
            &&& secret_of_login(after, second_offer) == secret_of_login(stored, first_offer)
            &&& stored_after_login(after, second_offer) == after
        }),
{
}

/// A login gives the secret that was stored before it, and the offered one where there
/// was none; that secret is stored after it.
pub proof fn law_login_gives_the_stored_secret(stored: Option<Seq<char>>, offered: Seq<char>)
    ensures
        stored is Some ==> secret_of_login(stored, offered) == stored,
        stored is None ==> secret_of_login(stored, offered) == Some(offered),
        stored_after_login(stored, offered) == secret_of_login(stored, offered),
{
}

/// A saving that found no row, or a row of this version and size, is over quota just if
/// the sum of all sizes, less the old size of the value and with the new one, is beyond
/// the limit. Else it writes: a first version where there is no row, and one more than
/// the version that was read, on condition that the row still has that, where there is.
pub proof fn law_reading_decides_on_the_write(
    attempt: u32,
    version: i64,
    size: i32,
    room: Room,
    now: i64,
)
    requires
        version < i64::MAX,
    ensures
        next_after_read(attempt, None, Some(room), now) == SaveState::OverQuota <==> room.total
            + room.new_size > room.max_total,
        next_after_read(attempt, Some((version, size)), Some(room), now) == SaveState::OverQuota
            <==> room.total + room.new_size - size > room.max_total,
        ({
            let new_row = SaveState::Writing {
                attempt,
                write: DataWrite::Insert { version: 1, at: now },
            };
            let next = SaveState::Writing {
                attempt,
                write: DataWrite::Update {
                    expected: version,
                    version: (version + 1) as i64,
                    at: now,
                },
            };
            &&& next_after_read(attempt, None, None, now) == new_row
            &&& next_after_read(attempt, Some((version, size)), None, now) == next
            &&& room.total + room.new_size <= room.max_total ==> next_after_read(
                attempt,
                None,
                Some(room),
                now,
            ) == new_row
            &&& room.total + room.new_size - size <= room.max_total ==> next_after_read(
                attempt,
                Some((version, size)),
                Some(room),
                now,
            ) == next
        }),
{
}

/// A saving that goes through five rounds without its write being applied fails, and not
/// before; one whose write is applied is saved with the version and the time of that
/// write; and what a saving came to says just that.
pub proof fn law_saving_is_tried_five_times(
    attempt: u32,
    write: DataWrite,
    version: i64,
    expected: i64,
    at: i64,
)
    requires
        attempt < 5,
        write == (DataWrite::Insert { version, at }) || write == (DataWrite::Update {
            expected,
            version,
            at,
        }),
    ensures
        attempt < 4 ==> next_after_write(attempt, write, false) == (SaveState::Reading {
            attempt: (attempt + 1) as u32,
        }),
        attempt == 4 ==> next_after_write(attempt, write, false) == SaveState::Failed,
        next_after_write(attempt, write, true) == (SaveState::Saved { version, at }),
        save_outcome(next_after_write(attempt, write, true)) == Some(
            Ok::<Option<(i64, i64)>, DatabaseError>(Some((version, at))),
        ),
        attempt < 4 ==> save_outcome(next_after_write(attempt, write, false)) is None,
        attempt == 4 ==> save_outcome(next_after_write(attempt, write, false)) == Some(
            Err::<Option<(i64, i64)>, DatabaseError>(DatabaseError::KeyContention),
        ),
        save_outcome(SaveState::OverQuota) == Some(Ok::<Option<(i64, i64)>, DatabaseError>(None)),
        save_outcome(SaveState::Writing { attempt, write }) is None,
        save_outcome(SaveState::Reading { attempt }) is None,
{
}

/// Settings are updated first and inserted where there was no row to update. An applied
/// write ends the saving, with the time of the write; five rounds without one end it with
/// an error, and not before.
pub proof fn law_settings_are_tried_five_times(attempt: u32, now: i64)
    requires
        attempt < 5,
    ensures
        ({
            let update = SettingsState::Updating { attempt };
            let insert = SettingsState::Inserting { attempt };
            &&& next_settings(update, true) == SettingsState::Written
            &&& next_settings(insert, true) == SettingsState::Written
            &&& next_settings(update, false) == insert
            &&& attempt < 4 ==> next_settings(insert, false) == (SettingsState::Updating {
                attempt: (attempt + 1) as u32,
            })
            &&& attempt == 4 ==> next_settings(insert, false) == SettingsState::Failed
            &&& settings_outcome(next_settings(insert, true), now) == Some(
                Ok::<i64, DatabaseError>(now),
            )
            &&& settings_outcome(next_settings(update, true), now) == Some(
                Ok::<i64, DatabaseError>(now),
            )
            &&& attempt == 4 ==> settings_outcome(next_settings(insert, false), now) == Some(
                Err::<i64, DatabaseError>(DatabaseError::SettingsContention),
            )
            &&& settings_outcome(update, now) is None
            &&& settings_outcome(insert, now) is None
        }),
{
}

/// Every write of a value goes to the row of the user and the key that it was prepared
/// for, with the stored bytes, the checksum and the size that were prepared. A new row is
/// created at the time of the write; an update asks for the version that was read.
pub proof fn law_write_goes_to_its_own_row(
    p: PreparedSave,
    version: i64,
    expected: i64,
    at: i64,
)
    ensures
        match bound(p, DataWrite::Insert { version, at }) {
            BoundWriteView::Insert {
                id,
                key,
                stored,
                version: v,
                checksum,
                size_bytes,
                created_at,
                updated_at,
            } => {
                &&& id == p.id@ && key == p.key@ && stored == p.stored@ && checksum == p.checksum@
                &&& size_bytes == p.size_bytes && v == version && created_at == at && updated_at
                    == at
            },
            _ => false,
        },
        match bound(p, DataWrite::Update { expected, version, at }) {
            BoundWriteView::Update {
                stored,
                version: v,
                checksum,
                size_bytes,
                updated_at,
                id,
                key,
                expected: e,
            } => {
                &&& id == p.id@ && key == p.key@ && stored == p.stored@ && checksum == p.checksum@
                &&& size_bytes == p.size_bytes && v == version && updated_at == at && e == expected
            },
            _ => false,
        },
{
}

/// Every write of settings goes to the row of the user that they were prepared for, with
/// the bytes that were prepared and the time of the write.
pub proof fn law_settings_write_goes_to_its_own_row(p: PreparedSettings, attempt: u32, now: i64)
    ensures
        bound_settings(p, SettingsState::Updating { attempt }, now) == Some(
            BoundSettingsView::Update { settings: p.settings@, updated_at: now, id: p.id@ },
        ),
        bound_settings(p, SettingsState::Inserting { attempt }, now) == Some(
            BoundSettingsView::Insert {
                id: p.id@,
                settings: p.settings@,
                created_at: now,
                updated_at: now,
            },
        ),
        bound_settings(p, SettingsState::Written, now) is None,
        bound_settings(p, SettingsState::Failed, now) is None,
{
}

/// A saving begins with a read and has all of its five rounds before it; a saving of
/// settings begins with an update and has all of its five rounds before it.
pub proof fn law_saving_begins_with_all_its_rounds()
    ensures
        first_state() is Reading,
        requests_left(first_state()) == 2 * 5,
        first_settings_state() is Updating,
        settings_writes_left(first_settings_state()) == 2 * 5,
{
}

} // verus!
