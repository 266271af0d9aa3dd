//! A user's values, one per key.
use crate::constants;
use crate::database::{self, DataMetadata, DataMetadataView, DataRow, PreparedSave};
use crate::digest;
use crate::headers;
use crate::keys;
use crate::numbers;
use crate::reply::{self, Reply, ReplyBody, ReplyBodyView, ReplyHeader, ReplyHeaderView, ReplyView};
use crate::rounds::{self, BoundWriteView, DataWrite, Room, SaveState};
use crate::sync::{self, ValidUploadView};
use crate::text;
use crate::types::config::{self, Config};
use crate::types::data::{DataEntry, DataEntryView, DbFailure};
use crate::utils;
use vstd::prelude::*;
use vstd::utf8::encode_utf8;

verus! {

/// The refusal of a key, or `None` if it can be used.
pub open spec fn key_refusal(config: Config, key: Seq<char>) -> Option<ReplyView> {
    if utils::key_error(key) is Some {
        Some(reply::error_view(400, config::key_error_text(utils::key_error(key)->0)))
    } else if keys::blocked(config, key) {
        Some(reply::error_view(403, "DataStore sync is disabled"@))
    } else {
        None
    }
}

/// Refuses a key of the data store where that is switched off.
pub fn datastore_blocked(config: &Config, key: &str) -> (r: Option<Reply>)
    ensures
        r is Some <==> keys::blocked(*config, key@),
        r matches Some(v) ==> v@ == reply::error_view(403, "DataStore sync is disabled"@),
{
    if keys::is_blocked_key(config, key) {
        Some(reply::err(403, "DataStore sync is disabled"))
    } else {
        None
    }
}

fn refuse_key(config: &Config, key: &str) -> (r: Option<Reply>)
    ensures
        match key_refusal(*config, key@) {
            Some(v) => r is Some && r->0@ == v,
            None => r is None,
        },
{
    match utils::validate_key(key) {
        Ok(()) => datastore_blocked(config, key),
        Err(e) => Some(reply::err(400, e.message())),
    }
}

/// How a read begins: whether the description of the value is to be read first, or the
/// refusal.
pub open spec fn read_step(config: Config, key: Seq<char>, conditional: bool) -> Result<
    bool,
    ReplyView,
> {
    match key_refusal(config, key) {
        Some(v) => Err(v),
        None => Ok(conditional),
    }
}

/// Begins to read a value: whether its description is to be read first, or the
/// refusal.
pub fn get_data(config: &Config, key: &str, if_none_match: &Option<Vec<u8>>) -> (r: Result<
    bool,
    Reply,
>)
    ensures
        match key_refusal(*config, key@) {
            Some(v) => r is Err && r->Err_0@ == v,
            None => r == Ok::<bool, Reply>(*if_none_match is Some),
        },
        match read_step(*config, key@, *if_none_match is Some) {
            Ok(first) => r == Ok::<bool, Reply>(first),
            Err(v) => r is Err && r->Err_0@ == v,
        },
{
    match refuse_key(config, key) {
        Some(v) => Err(v),
        None => Ok(if_none_match.is_some()),
    }
}

/// The headers that describe a value, behind those in `before`.
pub open spec fn value_headers(
    before: Seq<ReplyHeaderView>,
    checksum: Seq<char>,
    version: i64,
) -> Seq<ReplyHeaderView> {
    headers::with_text(
        headers::with_text(before, "ETag"@, checksum),
        "X-Version"@,
        numbers::signed_decimal(version as int),
    )
}

fn push_value_headers(list: &mut Vec<ReplyHeader>, checksum: &str, version: i64)
    ensures
        final(list)@.map_values(|h: ReplyHeader| h@) == value_headers(
            old(list)@.map_values(|h: ReplyHeader| h@),
            checksum@,
            version,
        ),
{
    headers::push_text(list, "ETag", checksum);
    let digits = headers::itoa_i64(version);
    headers::push_text(list, "X-Version", digits.as_str());
}

/// The reply to a conditional read that is answered without reading the value, or `None`
/// where the value is to be read.
pub open spec fn unread_reply(
    metadata: Result<Option<DataMetadataView>, DbFailure>,
    if_none_match: Option<Seq<u8>>,
) -> Option<ReplyView> {
    match metadata {
        Ok(Some(tag)) => if headers::optional_text(if_none_match) == Some(tag.checksum) {
            Some(
                ReplyView {
                    status: 304,
                    headers: value_headers(seq![], tag.checksum, tag.version),
                    body: ReplyBodyView::Empty,
                },
            )
        } else {
            None
        },
        Ok(None) => Some(reply::status_view(404)),
        Err(_) => Some(reply::error_view(500, "Failed to read data"@)),
    }
}

/// What the result of reading a description holds.
pub open spec fn metadata_view(metadata: Result<Option<DataMetadata>, DbFailure>) -> Result<
    Option<DataMetadataView>,
    DbFailure,
> {
    match metadata {
        Ok(Some(tag)) => Ok(Some(tag@)),
        Ok(None) => Ok(None),
        Err(e) => Err(e),
    }
}

/// Answers a conditional read without reading the value, where that is possible: the
/// client has the value, there is none, or the description could not be read.
pub fn after_metadata(
    metadata: &Result<Option<DataMetadata>, DbFailure>,
    if_none_match: &Option<Vec<u8>>,
) -> (r: Option<Reply>)
    ensures
        match *metadata {
            Ok(Some(tag)) => if headers::optional_text(headers::bytes_view(*if_none_match)) == Some(
                tag.checksum@,
            ) {
                r is Some && r->0@ == (ReplyView {
                    status: 304,
                    headers: value_headers(seq![], tag.checksum@, tag.version),
                    body: ReplyBodyView::Empty,
                })
            } else {
                r is None
            },
            Ok(None) => r is Some && r->0@ == reply::status_view(404),
            Err(_) => r is Some && r->0@ == reply::error_view(500, "Failed to read data"@),
        },
        match unread_reply(metadata_view(*metadata), headers::bytes_view(*if_none_match)) {
            Some(v) => r is Some && r->0@ == v,
            None => r is None,
        },
{
    match metadata {
        Ok(Some(tag)) => {
            if !headers::header_str_eq(if_none_match, tag.checksum.as_str()) {
                return None;
            }
            let mut list: Vec<ReplyHeader> = Vec::new();
            assert(list@.map_values(|h: ReplyHeader| h@) =~= seq![]);
            push_value_headers(&mut list, tag.checksum.as_str(), tag.version);
            Some(Reply { status: 304, headers: list, body: ReplyBody::Empty })
        },
        Ok(None) => Some(reply::status_only(404)),
        Err(_) => Some(reply::err(500, "Failed to read data")),
    }
}

/// The reply that carries a value.
pub open spec fn value_reply(entry: DataEntryView) -> ReplyView {
    ReplyView {
        status: 200,
        headers: value_headers(
            seq![headers::octet_stream_header()],
            entry.checksum,
            entry.version,
        ),
        body: ReplyBodyView::Bytes(entry.value),
    }
}

/// The reply to a read.
pub open spec fn read_reply(read: Result<Option<DataEntryView>, DbFailure>) -> ReplyView {
    match read {
        Ok(Some(entry)) => value_reply(entry),
        Ok(None) => reply::status_view(404),
        Err(_) => reply::error_view(500, "Failed to read data"@),
    }
}

/// What the result of reading a value holds.
pub open spec fn entry_view(read: Result<Option<DataEntry>, DbFailure>) -> Result<
    Option<DataEntryView>,
    DbFailure,
> {
    match read {
        Ok(Some(entry)) => Ok(Some(entry@)),
        Ok(None) => Ok(None),
        Err(e) => Err(e),
    }
}

/// Answers a read.
pub fn after_value_read(read: Result<Option<DataEntry>, DbFailure>) -> (r: Reply)
    ensures
        r@ == (match read {
            Ok(Some(entry)) => value_reply(entry@),
            Ok(None) => reply::status_view(404),
            Err(_) => reply::error_view(500, "Failed to read data"@),
        }),
        r@ == read_reply(entry_view(read)),
{
    match read {
        Ok(Some(entry)) => {
            let mut list: Vec<ReplyHeader> = Vec::new();
            assert(list@.map_values(|h: ReplyHeader| h@) =~= seq![]);
            headers::push_octet_stream(&mut list);
            assert(list@.map_values(|h: ReplyHeader| h@) =~= seq![headers::octet_stream_header()]);
            push_value_headers(&mut list, entry.checksum.as_str(), entry.version);
            Reply { status: 200, headers: list, body: ReplyBody::Bytes(entry.value) }
        },
        Ok(None) => reply::status_only(404),
        Err(_) => reply::err(500, "Failed to read data"),
    }
}

/// The refusal of a new value, or `None` if it is to be stored.
pub open spec fn put_refusal(
    config: Config,
    key: Seq<char>,
    content_type: Option<Seq<u8>>,
    body: Seq<u8>,
    x_checksum: Option<Seq<u8>>,
) -> Option<ReplyView> {
    let limit = keys::size_limit(config, key);
    if key_refusal(config, key) is Some {
        key_refusal(config, key)
    } else if !headers::octet_stream(content_type) {
        Some(reply::error_view(415, "Content type must be application/octet-stream"@))
    } else if body.len() > limit {
        Some(reply::error_view(413, keys::too_large_text(limit)))
    } else if x_checksum is Some && headers::header_text(x_checksum->0) is None {
        Some(reply::error_view(400, "Malformed X-Checksum header"@))
    } else if x_checksum is Some && headers::header_text(x_checksum->0)->0 != utils::checksum_of(
        body,
    ) {
        Some(reply::error_view(400, "Checksum mismatch"@))
    } else {
        None
    }
}

/// A value that is to be stored: its checksum, and the limit that the sum of all sizes
/// has to stay within.
#[derive(Debug)]
pub struct PutPlan {
    pub checksum: String,
    pub max_total: i64,
}

/// What [`PutPlan`] holds.
pub struct PutPlanView {
    pub checksum: Seq<char>,
    pub max_total: i64,
}

impl View for PutPlan {
    type V = PutPlanView;

    open spec fn view(&self) -> PutPlanView {
        PutPlanView { checksum: self.checksum@, max_total: self.max_total }
    }
}

/// What a value is saved under.
pub open spec fn put_plan(config: Config, body: Seq<u8>) -> PutPlanView {
    PutPlanView { checksum: utils::checksum_of(body), max_total: sync::quota(config) }
}

/// Begins to store a value: its checksum and the limit that it is saved under, or the
/// refusal.
pub fn put_data(
    config: &Config,
    key: &str,
    content_type: &Option<Vec<u8>>,
    body: &Vec<u8>,
    x_checksum: &Option<Vec<u8>>,
) -> (r: Result<PutPlan, Reply>)
    ensures
        match put_refusal(
            *config,
            key@,
            headers::bytes_view(*content_type),
            body@,
            headers::bytes_view(*x_checksum),
        ) {
            Some(v) => r is Err && r->Err_0@ == v,
            None => {
                &&& r is Ok
                &&& r->Ok_0.checksum@ == utils::checksum_of(body@)
                &&& r->Ok_0.max_total == sync::quota(*config)
            },
        },
        r matches Ok(plan) ==> plan@ == put_plan(*config, body@),
{
    if let Some(refused) = refuse_key(config, key) {
        return Err(refused);
    }
    if !headers::content_type_is_octet_stream(content_type) {
        return Err(reply::err(415, "Content type must be application/octet-stream"));
    }
    let limit: usize = keys::max_size_for_key(config, key);
    if body.len() > limit {
        let message = keys::too_large_message(limit);
        return Err(reply::err(413, message.as_str()));
    }
    let computed = utils::compute_checksum(body.as_slice());
    if x_checksum.is_some() {
        match headers::text_of(x_checksum) {
            Some(provided) => if !text::str_eq(provided.as_str(), computed.as_str()) {
                return Err(reply::err(400, "Checksum mismatch"));
            },
            None => {
                return Err(reply::err(400, "Malformed X-Checksum header"));
            },
        }
    }
    Ok(PutPlan { checksum: computed, max_total: sync::total_limit(config) })
}

/// The reply to a write of a value with this checksum.
pub open spec fn saved_reply(
    checksum: Seq<char>,
    saved: Result<Option<(i64, i64)>, DbFailure>,
) -> ReplyView {
    match saved {
        Ok(Some((version, updated_at))) => reply::plain_reply(
            200,
            ReplyBodyView::Saved { version, checksum, updated_at },
        ),
        Ok(None) => reply::error_view(413, "Total storage limit exceeded"@),
        Err(_) => reply::error_view(500, "Failed to save data"@),
    }
}

/// Answers a write: the version and the time that the value was saved with, `None`
/// where it did not fit.
pub fn after_value_saved(checksum: String, saved: Result<Option<(i64, i64)>, DbFailure>) -> (r:
    Reply)
    ensures
        r@ == (match saved {
            Ok(Some((version, updated_at))) => reply::plain_reply(
                200,
                ReplyBodyView::Saved { version, checksum: checksum@, updated_at },
            ),
            Ok(None) => reply::error_view(413, "Total storage limit exceeded"@),
            Err(_) => reply::error_view(500, "Failed to save data"@),
        }),
        r@ == saved_reply(checksum@, saved),
{
    match saved {
        Ok(Some((version, updated_at))) => reply::plain(
            200,
            ReplyBody::Saved { version, checksum, updated_at },
        ),
        Ok(None) => reply::err(413, "Total storage limit exceeded"),
        Err(_) => reply::err(500, "Failed to save data"),
    }
}

/// Begins to delete a value: the refusal, or `None` if it is to be deleted.
pub fn delete_data(config: &Config, key: &str) -> (r: Option<Reply>)
    ensures
        match key_refusal(*config, key@) {
            Some(v) => r is Some && r->0@ == v,
            None => r is None,
        },
{
    refuse_key(config, key)
}

/// The reply to a deletion.
pub open spec fn deleted_reply(deleted: Result<(), DbFailure>) -> ReplyView {
    match deleted {
        Ok(_) => reply::status_view(204),
        Err(_) => reply::error_view(500, "Failed to delete"@),
    }
}

/// Answers a deletion.
pub fn after_value_deleted(deleted: Result<(), DbFailure>) -> (r: Reply)
    ensures
        r@ == (match deleted {
            Ok(_) => reply::status_view(204),
            Err(_) => reply::error_view(500, "Failed to delete"@),
        }),
        r@ == deleted_reply(deleted),
{
    match deleted {
        Ok(_) => reply::status_only(204),
        Err(_) => reply::err(500, "Failed to delete"),
    }
}

/// While the data store is switched off, its keys can be neither read nor written
/// nor deleted.
pub proof fn law_blocked_key_is_refused(
    config: Config,
    key: Seq<char>,
    content_type: Option<Seq<u8>>,
    body: Seq<u8>,
    x_checksum: Option<Seq<u8>>,
)
    requires
        keys::blocked(config, key),
    ensures
        key_refusal(config, key) is Some,
        put_refusal(config, key, content_type, body, x_checksum) == key_refusal(config, key),
        utils::key_error(key) is None ==> key_refusal(config, key)->0.status == 403,
{
}

/// Whether a row holds what a write bound to its columns.
pub open spec fn holds_write(row: DataRow, write: BoundWriteView) -> bool {
    match write {
        BoundWriteView::Insert {
            id: _,
            key,
            stored,
            version,
            checksum,
            size_bytes,
            created_at,
            updated_at,
        } => {
            &&& row.key@ == key
            &&& row.stored@ == stored
            &&& row.version == version
            &&& row.checksum@ == checksum
            &&& row.size_bytes == size_bytes
            &&& row.created_at == created_at
            &&& row.updated_at == updated_at
        },
        BoundWriteView::Update {
            stored,
            version,
            checksum,
            size_bytes,
            updated_at,
            id: _,
            key,
            expected: _,
        } => {
            &&& row.key@ == key
            &&& row.stored@ == stored
            &&& row.version == version
            &&& row.checksum@ == checksum
            &&& row.size_bytes == size_bytes
            &&& row.updated_at == updated_at
        },
    }
}

proof fn lemma_checksum_is_visible(data: Seq<u8>)
    ensures
        forall|k: int|
            0 <= k < utils::checksum_of(data).len() ==> ' ' <= #[trigger] utils::checksum_of(
                data,
            )[k] <= '~',
{
    digest::lemma_hex_digits(digest::sha256(data).take(constants::CHECKSUM_BYTES as int));
}

/// A value that was put is read back. Let a value be prepared, bound to a write of some
/// version and found again as the row that the write left. Then a read is answered with
/// status 200 and a body of exactly the bytes that were put, under their content type,
/// their checksum and the version of the write; and a client that shows this checksum is
/// told with status 304, and without the bytes, that it has them. This leaves out values
/// that are larger than a read unpacks, and those that begin as a zstd frame and had to
/// be stored as they are.
pub proof fn law_put_value_is_read_back(
    config: Config,
    user_id: Seq<char>,
    key: Seq<char>,
    body: Seq<u8>,
    p: PreparedSave,
    write: DataWrite,
    version: i64,
    at: i64,
    row: DataRow,
)
    requires
        database::prepares(
            config,
            user_id,
            ValidUploadView { key, value: body, checksum: utils::checksum_of(body) },
            p,
        ),
        write == (DataWrite::Insert { version, at }) || exists|expected: i64|
            write == (DataWrite::Update { expected, version, at }),
        holds_write(row, rounds::bound(p, write)),
        body.len() <= constants::MAX_DECOMPRESSION_SIZE,
        body.len() < 4 || body[0] != 0x28 || body[1] != 0xb5 || body[2] != 0x2f || body[3] != 0xfd
            || p.stored@ != body,
    ensures
        ({
            let read = read_reply(Ok(Some(database::row_entry(row))));
            let tag = ReplyHeaderView {
                name: "ETag"@,
                value: encode_utf8(utils::checksum_of(body)),
            };
            let number = ReplyHeaderView {
                name: "X-Version"@,
                value: encode_utf8(numbers::signed_decimal(version as int)),
            };
            let kind = ReplyHeaderView {
                name: "Content-Type"@,
                value: encode_utf8("application/octet-stream"@),
            };
            let early = unread_reply(
                Ok(Some(database::row_metadata(row))),
                Some(encode_utf8(utils::checksum_of(body))),
            );
            &&& read.status == 200
            &&& read.body == ReplyBodyView::Bytes(body)
            &&& read.headers == seq![kind, tag, number]
            &&& early is Some
            &&& early->0.status == 304
            &&& early->0.headers == seq![tag, number]
            &&& early->0.body == ReplyBodyView::Empty
            &&& database::row_entry(row).key == key
            &&& database::row_entry(row).size_bytes == body.len()
            &&& database::row_entry(row).updated_at == at
        }),
{
    let checksum = utils::checksum_of(body);
    let upload = ValidUploadView { key, value: body, checksum };
    utils::lemma_magic(body);
    database::law_saved_value_reads_back(config, user_id, upload, p, row);
    lemma_checksum_is_visible(body);
    headers::lemma_visible_text_is_sent(checksum);
    crate::routes::settings::lemma_decimal_can_be_sent(version);
    let tag = ReplyHeaderView { name: "ETag"@, value: encode_utf8(checksum) };
    let number = ReplyHeaderView {
        name: "X-Version"@,
        value: encode_utf8(numbers::signed_decimal(version as int)),
    };
    assert(row.checksum@ == checksum && row.version == version);
    assert(seq![headers::octet_stream_header()].push(tag).push(number) =~= seq![
        headers::octet_stream_header(),
        tag,
        number,
    ]);
    assert(Seq::<ReplyHeaderView>::empty().push(tag).push(number) =~= seq![tag, number]);
}

/// A value is stored just if its key is accepted and in use, its content type names raw
/// bytes, it is no larger than keys of its kind allow, and its checksum header, if there
/// is one, says the checksum of the value character for character.
pub proof fn law_put_needs_the_right_checksum(
    config: Config,
    key: Seq<char>,
    content_type: Option<Seq<u8>>,
    body: Seq<u8>,
    x_checksum: Option<Seq<u8>>,
)
    ensures
        ({
            let refusal = put_refusal(config, key, content_type, body, x_checksum);
            let stores = "dataStore/"@.is_prefix_of(key);
            let usable = utils::key_error(key) is None && (config.datastore_enabled || !stores);
            let typed = headers::octet_stream(content_type);
            let fits = body.len() <= (if stores {
                config.max_datastore_key_size_bytes
            } else {
                config.max_key_size_bytes
            });
            let checksum = utils::checksum_of(body);
            let agrees = x_checksum is Some ==> x_checksum->0.len() == checksum.len() && forall|
                k: int,
            |
                0 <= k < checksum.len() ==> (#[trigger] x_checksum->0[k]) as u32
                    == checksum[k] as u32;
            &&& refusal is None <==> usable && typed && fits && agrees
            &&& utils::key_error(key) is Some ==> refusal->0.status == 400
            &&& utils::key_error(key) is None && !usable ==> refusal->0.status == 403
            &&& usable && !typed ==> refusal->0.status == 415
            &&& usable && typed && !fits ==> refusal->0.status == 413
            &&& usable && typed && fits && !agrees ==> refusal->0.status == 400
            &&& usable && typed && fits && !agrees && headers::header_text(x_checksum->0) is Some
                ==> refusal->0.body == ReplyBodyView::Error("Checksum mismatch"@)
        }),
{
    lemma_checksum_is_visible(body);
    if x_checksum is Some {
        headers::law_header_says_a_text_byte_for_byte(x_checksum->0, utils::checksum_of(body));
    }
}

/// A conditional read is answered without the value just if there is none, its
/// description could not be read, or the client shows the checksum of the value,
/// character for character.
pub proof fn law_conditional_read_goes_by_the_checksum(
    body: Seq<u8>,
    tag: DataMetadataView,
    if_none_match: Option<Seq<u8>>,
)
    requires
        tag.checksum == utils::checksum_of(body),
    ensures
        ({
            let early = unread_reply(Ok(Some(tag)), if_none_match);
            &&& early is Some <==> if_none_match is Some && if_none_match->0.len()
                == tag.checksum.len() && forall|k: int|
                0 <= k < tag.checksum.len() ==> (#[trigger] if_none_match->0[k]) as u32
                    == tag.checksum[k] as u32
            &&& early is Some ==> early->0.status == 304 && early->0.body == ReplyBodyView::Empty
        }),
        unread_reply(Ok(None), if_none_match) is Some,
        unread_reply(Ok(None), if_none_match)->0.status == 404,
        unread_reply(Err(DbFailure), if_none_match) is Some,
        unread_reply(Err(DbFailure), if_none_match)->0.status == 500,
{
    lemma_checksum_is_visible(body);
    if if_none_match is Some {
        headers::law_header_says_a_text_byte_for_byte(if_none_match->0, tag.checksum);
    }
}

/// A write is answered with the version and the time that the value was saved with and
/// with its checksum; with status 413 where it did not fit; and with status 500 where the
/// database failed. Nothing is answered with status 200 but a value that was saved.
pub proof fn law_write_is_answered_by_what_was_saved(
    checksum: Seq<char>,
    version: i64,
    at: i64,
    saved: Result<Option<(i64, i64)>, DbFailure>,
)
    ensures
        saved == Ok::<Option<(i64, i64)>, DbFailure>(Some((version, at))) <==> {
            &&& saved_reply(checksum, saved).status == 200
            &&& saved_reply(checksum, saved).body == (ReplyBodyView::Saved {
                version,
                checksum,
                updated_at: at,
            })
        },
        saved_reply(checksum, saved).status == 200 <==> saved is Ok && saved->Ok_0 is Some,
        saved_reply(checksum, saved).status == 413 <==> saved is Ok && saved->Ok_0 is None,
        saved_reply(checksum, saved).status == 500 <==> saved is Err,
        read_reply(Ok(None)).status == 404,
        read_reply(Err(DbFailure)).status == 500,
{
}

/// A value that is put is only written where the user's data stay within the limit with it:
/// under the limit of its plan, a saving is over quota just if the sum of all sizes, less
/// the old size of the value and with the new one, is more than a user may store.
pub proof fn law_put_stays_within_the_limit(
    config: Config,
    body: Seq<u8>,
    attempt: u32,
    total: i64,
    existing: Option<(i64, i32)>,
    new_size: i32,
    now: i64,
)
    requires
        new_size == body.len(),
        config.max_backup_size_bytes <= i64::MAX,
    ensures
        ({
            let plan = put_plan(config, body);
            let room = Room { total, new_size, max_total: plan.max_total };
            let old_size = match existing {
                Some((_, size)) => size as int,
                None => 0,
            };
            &&& plan.checksum == utils::checksum_of(body)
            &&& rounds::next_after_read(attempt, existing, Some(room), now) == SaveState::OverQuota
                <==> total - old_size + body.len() > config.max_backup_size_bytes
        }),
{
}

/// A key is refused with status 400 where it is not accepted, and with 403 where it belongs
/// to a data store that is switched off; every other key can be read, written and deleted.
/// The description of a value is read first just where the client makes a condition.
pub proof fn law_usable_keys_are_not_refused(config: Config, key: Seq<char>, conditional: bool)
    ensures
        ({
            let refusal = key_refusal(config, key);
            let off = !config.datastore_enabled && "dataStore/"@.is_prefix_of(key);
            &&& refusal is None <==> utils::key_error(key) is None && !off
            &&& utils::key_error(key) is Some ==> refusal->0.status == 400 && refusal->0.body
                == ReplyBodyView::Error(config::key_error_text(utils::key_error(key)->0))
            &&& utils::key_error(key) is None && off ==> refusal->0.status == 403
            &&& refusal is None ==> read_step(config, key, conditional) == Ok::<bool, ReplyView>(
                conditional,
            )
            &&& refusal is Some ==> read_step(config, key, conditional) == Err::<bool, ReplyView>(
                refusal->0,
            )
        }),
        deleted_reply(Ok(())).status == 204,
        deleted_reply(Ok(())).body == ReplyBodyView::Empty,
        deleted_reply(Err(DbFailure)).status == 500,
{
}

} // verus!
