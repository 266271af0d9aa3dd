//! A user's settings: one value with conditional reads and writes.
use crate::database::{self, PreparedSettings};
use crate::headers;
use crate::numbers;
use crate::reply::{self, Reply, ReplyBody, ReplyBodyView, ReplyHeader, ReplyHeaderView, ReplyView};
use crate::rounds::{self, SettingsState};
use crate::text;
use crate::types::config::Config;
use crate::types::data::DbFailure;
use vstd::prelude::*;
use vstd::utf8::encode_utf8;

verus! {

/// The tags that a header lists.
pub open spec fn tag_list(raw: Seq<char>) -> Seq<Seq<char>> {
    text::split_on(raw, |c: char| c == ',')
}

/// Whether a tag is a star or the tag of what is stored.
pub open spec fn tag_fits(tag: Seq<char>, written: Seq<char>) -> bool {
    text::trimmed(tag) == "*"@ || text::trimmed(tag) == written
}

/// Whether one of the tags that a header lists fits.
pub open spec fn list_matches(raw: Seq<char>, written: Seq<char>) -> bool {
    exists|i: int| 0 <= i < tag_list(raw).len() && #[trigger] tag_fits(tag_list(raw)[i], written)
}

/// Whether a header is there and one of the tags that it lists fits.
pub open spec fn tags_match(header: Option<Seq<char>>, written: Seq<char>) -> bool {
    match header {
        Some(raw) => list_matches(raw, written),
        None => false,
    }
}

/// Whether a list of tags holds a star or the tag of what is stored.
pub fn etag_matches(header_value: Option<&str>, written: &str) -> (r: bool)
    ensures
        r == tags_match(
            match header_value {
                Some(s) => Some(s@),
                None => None,
            },
            written@,
        ),
{
    let raw = match header_value {
        Some(s) => s,
        None => {
            return false;
        },
    };
    let tags = text::split_char(raw, ',');
    let ghost pieces = tag_list(raw@);
    let mut i: usize = 0;
    while i < tags.len()
        invariant
            text::views(tags@) == pieces,
            pieces == tag_list(raw@),
            header_value == Some(raw),
            i <= tags@.len(),
            forall|j: int|
                0 <= j < i ==> !#[trigger] tag_fits(pieces[j], written@),
        decreases tags@.len() - i,
    {
        let tag = text::trim(tags[i]);
        assert(text::views(tags@).len() == tags@.len());
        assert(text::views(tags@)[i as int] == tags@[i as int]@);
        if text::str_eq(tag, "*") || text::str_eq(tag, written) {
            assert(tag_fits(tag_list(raw@)[i as int], written@));
            assert(list_matches(raw@, written@));
            return true;
        }
        i = i + 1;
    }
    assert(text::views(tags@).len() == tags@.len());
    false
}

/// Whether the tags of a header match what is stored.
fn header_matches(header: &Option<Vec<u8>>, written: &str) -> (r: bool)
    ensures
        r == tags_match(headers::optional_text(headers::bytes_view(*header)), written@),
{
    match headers::text_of(header) {
        Some(s) => etag_matches(Some(s.as_str()), written),
        None => etag_matches(None, written),
    }
}

/// When settings were written, as the database was asked.
pub open spec fn metadata_view(metadata: Result<Option<String>, DbFailure>) -> Result<
    Option<Seq<char>>,
    DbFailure,
> {
    match metadata {
        Ok(m) => Ok(text::option_view(m)),
        Err(e) => Err(e),
    }
}

/// The `ETag` header of what is stored.
pub open spec fn etag_headers(written: Seq<char>) -> Seq<ReplyHeaderView> {
    headers::with_text(seq![], "ETag"@, written)
}

fn etag_list(written: &str) -> (r: Vec<ReplyHeader>)
    ensures
        r@.map_values(|h: ReplyHeader| h@) == etag_headers(written@),
{
    let mut list: Vec<ReplyHeader> = Vec::new();
    assert(list@.map_values(|h: ReplyHeader| h@) =~= seq![]);
    headers::push_text(&mut list, "ETag", written);
    list
}

/// The reply to a request for the time of the settings.
pub open spec fn head_reply(
    metadata: Result<Option<Seq<char>>, DbFailure>,
    if_none_match: Option<Seq<char>>,
) -> ReplyView {
    match metadata {
        Ok(Some(written)) => if tags_match(if_none_match, written) {
            reply::status_view(304)
        } else {
            ReplyView { status: 204, headers: etag_headers(written), body: ReplyBodyView::Empty }
        },
        Ok(None) => reply::status_view(404),
        Err(_) => reply::status_view(500),
    }
}

/// Answers a request for the time of the settings.
pub fn head_settings(
    metadata: &Result<Option<String>, DbFailure>,
    if_none_match: &Option<Vec<u8>>,
) -> (r: Reply)
    ensures
        r@ == head_reply(
            metadata_view(*metadata),
            headers::optional_text(headers::bytes_view(*if_none_match)),
        ),
{
    match metadata {
        Ok(Some(written)) => {
            if header_matches(if_none_match, written.as_str()) {
                return reply::status_only(304);
            }
            Reply { status: 204, headers: etag_list(written.as_str()), body: ReplyBody::Empty }
        },
        Ok(None) => reply::status_only(404),
        Err(_) => reply::status_only(500),
    }
}

/// The reply to a request for the settings that does without reading them, or `None`
/// if they are to be read.
pub open spec fn early_reply(
    metadata: Result<Option<Seq<char>>, DbFailure>,
    if_none_match: Option<Seq<char>>,
) -> Option<ReplyView> {
    match metadata {
        Ok(Some(written)) => if tags_match(if_none_match, written) {
            Some(
                ReplyView {
                    status: 304,
                    headers: etag_headers(written),
                    body: ReplyBodyView::Empty,
                },
            )
        } else {
            None
        },
        Ok(None) => Some(reply::status_view(404)),
        Err(_) => Some(reply::error_view(500, "Failed to retrieve settings"@)),
    }
}

/// Answers a request for the settings without reading them, where that is possible.
pub fn get_settings(
    metadata: &Result<Option<String>, DbFailure>,
    if_none_match: &Option<Vec<u8>>,
) -> (r: Option<Reply>)
    ensures
        match early_reply(
            metadata_view(*metadata),
            headers::optional_text(headers::bytes_view(*if_none_match)),
        ) {
            Some(v) => r is Some && r->0@ == v,
            None => r is None,
        },
{
    match metadata {
        Ok(Some(written)) => {
            if header_matches(if_none_match, written.as_str()) {
                return Some(
                    Reply {
                        status: 304,
                        headers: etag_list(written.as_str()),
                        body: ReplyBody::Empty,
                    },
                );
            }
            None
        },
        Ok(None) => Some(reply::status_only(404)),
        Err(_) => Some(reply::err(500, "Failed to retrieve settings")),
    }
}

/// Settings and when they were written.
#[derive(Debug)]
pub struct StoredSettings {
    pub value: Vec<u8>,
    pub written: String,
}

/// What [`StoredSettings`] holds.
pub struct StoredSettingsView {
    pub value: Seq<u8>,
    pub written: Seq<char>,
}

impl View for StoredSettings {
    type V = StoredSettingsView;

    open spec fn view(&self) -> StoredSettingsView {
        StoredSettingsView { value: self.value@, written: self.written@ }
    }
}

/// The settings that a row stands for.
pub open spec fn row_settings(value: Seq<u8>, updated_at: i64) -> StoredSettingsView {
    StoredSettingsView { value, written: numbers::signed_decimal(updated_at as int) }
}

/// The settings that a row stands for.
pub fn settings_from_row(value: Vec<u8>, updated_at: i64) -> (r: StoredSettings)
    ensures
        r@ == row_settings(value@, updated_at),
{
    StoredSettings { value, written: numbers::format_i64(updated_at) }
}

/// The reply to a request for the settings once they were read.
pub open spec fn read_reply(read: Result<Option<StoredSettingsView>, DbFailure>) -> ReplyView {
    match read {
        Ok(Some(s)) => ReplyView {
            status: 200,
            headers: headers::with_text(
                seq![headers::octet_stream_header()],
                "ETag"@,
                s.written,
            ),
            body: ReplyBodyView::Bytes(s.value),
        },
        Ok(None) => reply::status_view(404),
        Err(_) => reply::error_view(500, "Failed to retrieve settings"@),
    }
}

/// What a result of reading settings holds.
pub open spec fn read_view(read: Result<Option<StoredSettings>, DbFailure>) -> Result<
    Option<StoredSettingsView>,
    DbFailure,
> {
    match read {
        Ok(Some(s)) => Ok(Some(s@)),
        Ok(None) => Ok(None),
        Err(e) => Err(e),
    }
}

/// Answers a request for the settings once they were read.
pub fn after_settings_read(read: Result<Option<StoredSettings>, DbFailure>) -> (r: Reply)
    ensures
        r@ == read_reply(read_view(read)),
{
    match read {
        Ok(Some(s)) => {
            let mut list: Vec<ReplyHeader> = Vec::new();
            assert(list@.map_values(|h: ReplyHeader| h@) =~= seq![]);
            headers::push_octet_stream(&mut list);
            assert(list@.map_values(|h: ReplyHeader| h@) =~= seq![headers::octet_stream_header()]);
            headers::push_text(&mut list, "ETag", s.written.as_str());
            Reply { status: 200, headers: list, body: ReplyBody::Bytes(s.value) }
        },
        Ok(None) => reply::status_only(404),
        Err(_) => reply::err(500, "Failed to retrieve settings"),
    }
}

/// The refusal of new settings before anything is read, or `None`.
pub open spec fn put_refusal(
    config: Config,
    content_type: Option<Seq<u8>>,
    len: nat,
) -> Option<ReplyView> {
    if !headers::octet_stream(content_type) {
        Some(reply::error_view(415, "Content type must be application/octet-stream"@))
    } else if len > config.max_backup_size_bytes {
        Some(reply::error_view(413, "Settings are too large"@))
    } else {
        None
    }
}

/// How a write of settings begins: whether the time of the old ones is to be read first,
/// or the refusal.
pub open spec fn put_step(
    config: Config,
    content_type: Option<Seq<u8>>,
    len: nat,
    conditional: bool,
) -> Result<bool, ReplyView> {
    match put_refusal(config, content_type, len) {
        Some(v) => Err(v),
        None => Ok(conditional),
    }
}

/// Begins to store new settings: whether the time of the old ones is to be read
/// first, or the refusal.
pub fn put_settings(
    config: &Config,
    content_type: &Option<Vec<u8>>,
    body: &Vec<u8>,
    if_match: &Option<Vec<u8>>,
) -> (r: Result<bool, Reply>)
    ensures
        match put_refusal(*config, headers::bytes_view(*content_type), body@.len()) {
            Some(v) => r is Err && r->Err_0@ == v,
            None => r == Ok::<bool, Reply>(*if_match is Some),
        },
        match put_step(
            *config,
            headers::bytes_view(*content_type),
            body@.len(),
            *if_match is Some,
        ) {
            Ok(first) => r == Ok::<bool, Reply>(first),
            Err(v) => r is Err && r->Err_0@ == v,
        },
{
    if !headers::content_type_is_octet_stream(content_type) {
        return Err(reply::err(415, "Content type must be application/octet-stream"));
    }
    if body.len() > config.max_backup_size_bytes {
        return Err(reply::err(413, "Settings are too large"));
    }
    Ok(if_match.is_some())
}

/// The refusal of a conditional write, or `None` if it goes on.
pub open spec fn match_refusal(
    metadata: Result<Option<Seq<char>>, DbFailure>,
    if_match: Option<Seq<char>>,
) -> Option<ReplyView> {
    match metadata {
        Ok(Some(written)) => if tags_match(if_match, written) {
            None
        } else {
            Some(reply::error_view(412, "Settings have changed since last read"@))
        },
        Ok(None) => Some(reply::error_view(412, "No existing settings to match against"@)),
        Err(_) => Some(reply::error_view(500, "Failed to read current settings"@)),
    }
}

/// Refuses a conditional write whose condition does not hold.
pub fn refuse_if_match(
    metadata: &Result<Option<String>, DbFailure>,
    if_match: &Option<Vec<u8>>,
) -> (r: Option<Reply>)
    ensures
        match match_refusal(
            metadata_view(*metadata),
            headers::optional_text(headers::bytes_view(*if_match)),
        ) {
            Some(v) => r is Some && r->0@ == v,
            None => r is None,
        },
{
    match metadata {
        Ok(Some(written)) => if header_matches(if_match, written.as_str()) {
            None
        } else {
            Some(reply::err(412, "Settings have changed since last read"))
        },
        Ok(None) => Some(reply::err(412, "No existing settings to match against")),
        Err(_) => Some(reply::err(500, "Failed to read current settings")),
    }
}

/// The reply to a write of settings.
pub open spec fn saved_reply(saved: Result<i64, DbFailure>) -> ReplyView {
    match saved {
        Ok(written) => ReplyView {
            status: 200,
            headers: etag_headers(numbers::signed_decimal(written as int)),
            body: ReplyBodyView::Written(written),
        },
        Err(_) => reply::error_view(500, "Failed to save settings"@),
    }
}

/// Answers a write of settings.
pub fn after_settings_saved(saved: Result<i64, DbFailure>) -> (r: Reply)
    ensures
        r@ == saved_reply(saved),
{
    match saved {
        Ok(written) => {
            let tag = headers::itoa_i64(written);
            Reply {
                status: 200,
                headers: etag_list(tag.as_str()),
                body: ReplyBody::Written(written),
            }
        },
        Err(_) => reply::err(500, "Failed to save settings"),
    }
}

/// The reply to a deletion of settings.
pub open spec fn deleted_reply(deleted: Result<(), DbFailure>) -> ReplyView {
    match deleted {
        Ok(_) => reply::status_view(204),
        Err(_) => reply::error_view(500, "Failed to delete settings"@),
    }
}

/// Answers a deletion of settings.
pub fn delete_settings(deleted: Result<(), DbFailure>) -> (r: Reply)
    ensures
        r@ == (match deleted {
            Ok(_) => reply::status_view(204),
            Err(_) => reply::error_view(500, "Failed to delete settings"@),
        }),
        r@ == deleted_reply(deleted),
{
    match deleted {
        Ok(_) => reply::status_only(204),
        Err(_) => reply::err(500, "Failed to delete settings"),
    }
}

/// Settings that were written are read back byte for byte, under the tag that the write
/// handed out, and a client that shows this tag is spared reading them.
pub proof fn law_written_settings_read_back(
    p: PreparedSettings,
    state: SettingsState,
    now: i64,
)
    requires
        rounds::bound_settings(p, state, now) is Some,
    ensures
        ({
            let row = rounds::settings_row(rounds::bound_settings(p, state, now)->0);
            let stored = row_settings(row.0, row.1);
            let tag = numbers::signed_decimal(now as int);
            let etag = ReplyHeaderView { name: "ETag"@, value: encode_utf8(tag) };
            let read = read_reply(Ok(Some(stored)));
            let early = early_reply(Ok(Some(stored.written)), Some(tag));
            &&& read.status == 200
            &&& read.body == ReplyBodyView::Bytes(p.settings@)
            &&& read.headers == seq![headers::octet_stream_header(), etag]
            &&& saved_reply(Ok(now)).headers == seq![etag]
            &&& early is Some && early->0.status == 304 && early->0.headers == seq![etag]
        }),
{
    let tag = numbers::signed_decimal(now as int);
    let etag = ReplyHeaderView { name: "ETag"@, value: encode_utf8(tag) };
    lemma_decimal_can_be_sent(now);
    law_tag_matches_its_own_time_only(now, now);
    assert(seq![headers::octet_stream_header()].push(etag) =~= seq![
        headers::octet_stream_header(),
        etag,
    ]);
    assert(Seq::<ReplyHeaderView>::empty().push(etag) =~= seq![etag]);
}

/// A number in decimal can be sent as a header value.
pub proof fn lemma_decimal_can_be_sent(i: i64)
    ensures
        headers::sendable(numbers::signed_decimal(i as int)),
{
    let n = (if i < 0 { -i } else { i as int }) as nat;
    let s = numbers::signed_decimal(i as int);
    let digits = numbers::decimal(n);
    numbers::lemma_decimal_digits(n);
    assert forall|k: int| 0 <= k < s.len() implies '-' <= #[trigger] s[k] <= '9' by {
        if i < 0 && k > 0 {
            assert(s[k] == digits[k - 1]);
        }
    }
    assert(vstd::utf8::is_ascii_chars(s));
    vstd::utf8::is_ascii_chars_encode_utf8(s);
    assert forall|k: int| 0 <= k < encode_utf8(s).len() implies headers::header_byte(
        #[trigger] encode_utf8(s)[k],
    ) by {
        assert(encode_utf8(s)[k] == s[k] as u8);
    }
}

/// The tag that a write or a read hands out matches as long as the settings are not
/// written again, and a tag of another time does not.
pub proof fn law_tag_matches_its_own_time_only(written: i64, now_stored: i64)
    ensures
        tags_match(
            Some(numbers::signed_decimal(written as int)),
            numbers::signed_decimal(now_stored as int),
        ) <==> written == now_stored,
{
    let tag = numbers::signed_decimal(written as int);
    let stored = numbers::signed_decimal(now_stored as int);
    let sep = |c: char| c == ',';
    numbers::lemma_decimal_digits((if written < 0 { -written } else { written as int }) as nat);
    assert forall|i: int| 0 <= i < tag.len() implies tag[i] != ',' && !text::whitespace(
        #[trigger] tag[i],
    ) && tag[i] != '*' by {
        let digits = numbers::decimal((if written < 0 { -written } else { written as int }) as nat);
        if written < 0 && i > 0 {
            assert(tag[i] == digits[i - 1]);
        }
    }
    lemma_no_separator(tag, sep);
    lemma_nothing_to_trim(tag);
    let tags = tag_list(tag);
    assert(tags.len() == 1 && tags[0] == tag);
    assert(text::trimmed(tags[0]) == tag);
    assert(tag_fits(tags[0], stored) <==> tag == "*"@ || tag == stored);
    assert(list_matches(tag, stored) <==> tag_fits(tags[0], stored));
    reveal_strlit("*");
    if tag == "*"@ {
        assert(tag[0] == '*');
    }
    if tag == stored {
        numbers::law_decimal_is_one_to_one(written as int, now_stored as int);
    }
}

proof fn lemma_no_separator(s: Seq<char>, sep: spec_fn(char) -> bool)
    requires
        forall|i: int| 0 <= i < s.len() ==> !sep(#[trigger] s[i]),
    ensures
        text::split_on(s, sep) == seq![s],
    decreases s.len(),
{
    if s.len() > 0 {
        let t = s.drop_last();
        assert forall|i: int| 0 <= i < t.len() implies !sep(#[trigger] t[i]) by {
            assert(t[i] == s[i]);
        }
        lemma_no_separator(t, sep);
        assert(!sep(s[s.len() - 1]));
        assert(t.push(s.last()) =~= s);
        assert(text::split_on(s, sep) =~= seq![s]);
    } else {
        assert(s =~= Seq::<char>::empty());
    }
}

proof fn lemma_nothing_to_trim(s: Seq<char>)
    requires
        s.len() > 0,
        !text::whitespace(s[0]),
        !text::whitespace(s.last()),
    ensures
        text::trimmed(s) == s,
{
}

/// A header matches just if, between two commas or an end of it, a star or the tag of what
/// is stored stands alone or with white space around. A header that is missing matches
/// nothing.
pub proof fn law_header_matches_by_one_of_its_tags(raw: Seq<char>, written: Seq<char>)
    ensures
        tags_match(Some(raw), written) <==> exists|a: int, b: int| #[trigger]
            text::between_commas(raw, a, b) && (text::trimmed(raw.subrange(a, b)) == seq!['*']
                || text::trimmed(raw.subrange(a, b)) == written),
        !tags_match(None, written),
{
    let tags = tag_list(raw);
    reveal_strlit("*");
    assert("*"@ =~= seq!['*']);
    if tags_match(Some(raw), written) {
        assert(list_matches(raw, written));
        let i = choose|i: int| 0 <= i < tags.len() && #[trigger] tag_fits(tags[i], written);
        assert(tags.contains(tags[i]));
        text::law_list_items_stand_between_commas(raw, tags[i]);
        let (a, b) = choose|a: int, b: int|
            #[trigger] text::between_commas(raw, a, b) && tags[i] == raw.subrange(a, b);
        assert(text::between_commas(raw, a, b) && (text::trimmed(raw.subrange(a, b)) == seq!['*']
            || text::trimmed(raw.subrange(a, b)) == written));
    }
    if exists|a: int, b: int| #[trigger]
        text::between_commas(raw, a, b) && (text::trimmed(raw.subrange(a, b)) == seq!['*']
            || text::trimmed(raw.subrange(a, b)) == written) {
        let (a, b) = choose|a: int, b: int| #[trigger]
            text::between_commas(raw, a, b) && (text::trimmed(raw.subrange(a, b)) == seq!['*']
                || text::trimmed(raw.subrange(a, b)) == written);
        let tag = raw.subrange(a, b);
        text::law_list_items_stand_between_commas(raw, tag);
        let i = choose|i: int| 0 <= i < tags.len() && tags[i] == tag;
        assert(tag_fits(tags[i], written));
        assert(list_matches(raw, written));
    }
}

/// A write on condition goes on just if there are settings and the header matches their
/// tag. Where they have changed, or there are none, it is refused with status 412, and
/// where nothing could be read, with 500: a client never overwrites settings that it has
/// not seen.
pub proof fn law_stale_settings_are_not_overwritten(
    metadata: Result<Option<Seq<char>>, DbFailure>,
    if_match: Option<Seq<char>>,
)
    ensures
        match_refusal(metadata, if_match) is None <==> metadata is Ok && metadata->Ok_0 is Some
            && tags_match(if_match, metadata->Ok_0->0),
        metadata is Ok && match_refusal(metadata, if_match) is Some ==> match_refusal(
            metadata,
            if_match,
        )->0.status == 412,
        metadata is Err ==> match_refusal(metadata, if_match)->0.status == 500,
{
}

/// A client that shows the tag of one time overwrites only settings that were written at
/// that time. A star overwrites whatever is there, but not nothing.
pub proof fn law_write_needs_the_tag_of_what_is_stored(seen: i64, stored: i64)
    ensures
        match_refusal(
            Ok(Some(numbers::signed_decimal(stored as int))),
            Some(numbers::signed_decimal(seen as int)),
        ) is None <==> seen == stored,
        match_refusal(Ok(Some(numbers::signed_decimal(stored as int))), Some("*"@)) is None,
        match_refusal(Ok(None), Some("*"@)) is Some,
{
    let star = "*"@;
    reveal_strlit("*");
    law_tag_matches_its_own_time_only(seen, stored);
    law_header_matches_by_one_of_its_tags(star, numbers::signed_decimal(stored as int));
    assert(star =~= seq!['*']);
    assert(!text::whitespace('*'));
    lemma_nothing_to_trim(star);
    assert(star.subrange(0, 1) =~= star);
    assert(text::between_commas(star, 0, 1));
}

/// Settings are not sent to a client that has them: a request for them, or for their time,
/// is answered with status 304 just if there are settings and the header matches their
/// tag. Where there are none the answer is 404; else they are to be read, or their tag is
/// sent.
pub proof fn law_client_that_has_the_settings_is_spared_them(
    metadata: Result<Option<Seq<char>>, DbFailure>,
    if_none_match: Option<Seq<char>>,
)
    ensures
        ({
            let head = head_reply(metadata, if_none_match);
            let early = early_reply(metadata, if_none_match);
            let there = metadata is Ok && metadata->Ok_0 is Some;
            let current = there && tags_match(if_none_match, metadata->Ok_0->0);
            &&& head.status == 304 <==> current
            &&& early is Some && early->0.status == 304 <==> current
            &&& there && !current ==> early is None && head.status == 204
            &&& there && !current && headers::sendable(metadata->Ok_0->0) ==> head.headers == seq![
                ReplyHeaderView { name: "ETag"@, value: encode_utf8(metadata->Ok_0->0) },
            ]
            &&& metadata is Ok && !there ==> head.status == 404 && early is Some && early->0.status
                == 404
            &&& metadata is Err ==> head.status == 500 && early is Some && early->0.status == 500
            &&& head.body == ReplyBodyView::Empty
            &&& metadata is Ok && early is Some ==> early->0.body == ReplyBodyView::Empty
        }),
{
    if let Ok(Some(written)) = metadata {
        let tag = ReplyHeaderView { name: "ETag"@, value: encode_utf8(written) };
        assert(Seq::<ReplyHeaderView>::empty().push(tag) =~= seq![tag]);
    }
}

/// New settings are stored just if their content type names raw bytes and they are no
/// larger than a user's data may be.
pub proof fn law_settings_are_refused_by_type_and_size(
    config: Config,
    content_type: Option<Seq<u8>>,
    len: nat,
)
    ensures
        ({
            let refusal = put_refusal(config, content_type, len);
            let typed = headers::octet_stream(content_type);
            &&& refusal is None <==> typed && len <= config.max_backup_size_bytes
            &&& !typed ==> refusal->0.status == 415
            &&& typed && len > config.max_backup_size_bytes ==> refusal->0.status == 413
            &&& refusal is None ==> put_step(config, content_type, len, true) == Ok::<
                bool,
                ReplyView,
            >(true) && put_step(config, content_type, len, false) == Ok::<bool, ReplyView>(false)
            &&& refusal is Some ==> put_step(config, content_type, len, true) == Err::<
                bool,
                ReplyView,
            >(refusal->0)
        }),
{
}

/// A write of settings is answered with the time that they were written at, which is also
/// their tag; a failure is answered as one, and so is a read that failed or found none.
pub proof fn law_saved_settings_are_answered_with_their_time(written: i64)
    ensures
        saved_reply(Ok(written)).status == 200,
        saved_reply(Ok(written)).body == ReplyBodyView::Written(written),
        saved_reply(Err(DbFailure)).status == 500,
        read_reply(Ok(None)).status == 404,
        read_reply(Err(DbFailure)).status == 500,
        deleted_reply(Ok(())).status == 204,
        deleted_reply(Err(DbFailure)).status == 500,
{
}

/// The tag of settings is the same however it is asked for: with the settings, or alone.
pub proof fn law_tag_is_the_same_however_it_is_asked_for(value: Seq<u8>, written: i64)
    ensures
        database::shown_time(Some(written)) == Some(row_settings(value, written).written),
        row_settings(value, written).value == value,
        head_reply(Ok(database::shown_time(Some(written))), None).headers == saved_reply(
            Ok(written),
        ).headers,
        match_refusal(
            Ok(database::shown_time(Some(written))),
            Some(row_settings(value, written).written),
        ) is None,
{
    law_tag_matches_its_own_time_only(written, written);
}

} // verus!
