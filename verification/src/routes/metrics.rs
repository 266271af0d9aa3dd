//! How many users there are, for those who hold the token.
use crate::auth;
use crate::constants;
use crate::headers;
use crate::reply::{self, Reply, ReplyBody, ReplyBodyView, UserCounts};
use crate::text;
use crate::types::data::DbFailure;
use crate::variables;
use vstd::prelude::*;

verus! {

/// How long counts are served before they are read again, in seconds.
pub const CACHE_TTL_SECS: u64 = 300;

/// Whether metrics are served, and to whom.
#[derive(Debug)]
pub struct MetricsConfig {
    pub enabled: bool,
    pub token: Option<String>,
}

/// The token that is configured, unless it is empty.
pub open spec fn usable_token(token: Option<Seq<char>>) -> Option<Seq<char>> {
    if token is Some && token->0.len() > 0 {
        token
    } else {
        None
    }
}

/// Whether metrics are configured as the variables say.
pub open spec fn registers(
    enabled: Option<Seq<char>>,
    token: Option<Seq<char>>,
    c: MetricsConfig,
) -> bool {
    &&& text::option_view(c.token) == usable_token(token)
    &&& c.enabled == (variables::env_bool(enabled, false) && usable_token(token) is Some)
}

/// Reads the configuration: metrics are served only where they are switched on and
/// there is a token.
pub fn register(enabled: &Option<String>, token: Option<String>) -> (r: MetricsConfig)
    ensures
        text::option_view(r.token) == usable_token(text::option_view(token)),
        r.enabled == (variables::env_bool(text::option_view(*enabled), false) && r.token is Some),
        registers(text::option_view(*enabled), text::option_view(token), r),
{
    let wanted = variables::parse_env_bool(enabled, false);
    let token = match token {
        Some(t) => if t.as_str().unicode_len() > 0 {
            Some(t)
        } else {
            None
        },
        None => None,
    };
    MetricsConfig { enabled: wanted && token.is_some(), token }
}

/// The refusal of a request for metrics, or `None` if it is granted.
pub open spec fn metrics_refusal(
    config: MetricsConfig,
    authorization: Option<Seq<u8>>,
) -> Option<reply::ReplyView> {
    if !config.enabled || config.token is None {
        Some(reply::status_view(404))
    } else {
        match headers::optional_text(authorization) {
            Some(s) => if s == "Bearer "@ + config.token->0@ {
                None
            } else {
                Some(reply::status_view(401))
            },
            None => Some(reply::status_view(401)),
        }
    }
}

/// Refuses a request for metrics, unless it carries the token.
pub fn refuse_metrics(config: &MetricsConfig, authorization: &Option<Vec<u8>>) -> (r: Option<Reply>)
    ensures
        match metrics_refusal(*config, headers::bytes_view(*authorization)) {
            Some(v) => r is Some && r->0@ == v,
            None => r is None,
        },
{
    if !config.enabled {
        return Some(reply::status_only(404));
    }
    match &config.token {
        Some(expected) => match headers::text_of(authorization) {
            Some(s) => match text::strip_prefix(s.as_str(), "Bearer ") {
                Some(provided) => {
                    let same = auth::constant_time_eq(
                        provided.as_bytes(),
                        expected.as_str().as_bytes(),
                    );
                    proof {
                        let head = "Bearer "@;
                        assert(s@.subrange(0, head.len() as int) =~= head);
                        assert(s@ =~= head + provided@);
                        if same {
                            auth::law_secrets_with_equal_bytes_are_equal(provided@, expected@);
                        } else if s@ == head + expected@ {
                            assert((head + expected@).skip(head.len() as int) =~= expected@);
                        }
                    }
                    if same {
                        None
                    } else {
                        Some(reply::status_only(401))
                    }
                },
                None => {
                    proof {
                        let head = "Bearer "@;
                        if s@ == head + expected@ {
                            assert(s@.subrange(0, head.len() as int) =~= head);
                        }
                    }
                    Some(reply::status_only(401))
                },
            },
            None => Some(reply::status_only(401)),
        },
        None => Some(reply::status_only(404)),
    }
}

/// Counts, and when they were read, in seconds.
#[derive(Debug, Clone, Copy, PartialEq, Eq, Structural)]
pub struct CachedUserCounts {
    pub counts: UserCounts,
    pub fetched_at: u64,
}

/// Whether counts are recent enough to be served. A clock that went back makes them
/// recent.
pub open spec fn recent(cached: CachedUserCounts, now: u64) -> bool {
    now - cached.fetched_at < CACHE_TTL_SECS
}

/// The counts at the start: none, and read before anything else.
pub fn no_counts() -> (r: CachedUserCounts)
    ensures
        r == (CachedUserCounts {
            counts: UserCounts { total: 0, week: 0, month: 0, day: 0 },
            fetched_at: 0,
        }),
{
    CachedUserCounts { counts: UserCounts { total: 0, week: 0, month: 0, day: 0 }, fetched_at: 0 }
}

/// The counts that are served without reading them again, if any are.
pub open spec fn served(cached: CachedUserCounts, now: u64) -> Option<UserCounts> {
    if recent(cached, now) {
        Some(cached.counts)
    } else {
        None
    }
}

/// The counts to serve without reading them again, if they are recent.
pub fn get_cached_user_counts(cached: &CachedUserCounts, now: u64) -> (r: Option<UserCounts>)
    ensures
        r == (if recent(*cached, now) {
            Some(cached.counts)
        } else {
            None
        }),
        r == served(*cached, now),
{
    let age: u64 = now.saturating_sub(cached.fetched_at);
    if age < CACHE_TTL_SECS {
        Some(cached.counts)
    } else {
        None
    }
}

/// The counts that are remembered once they were read again.
pub open spec fn refreshed(
    cached: CachedUserCounts,
    read: Result<UserCounts, DbFailure>,
    now: u64,
) -> CachedUserCounts {
    match read {
        Ok(counts) => CachedUserCounts { counts, fetched_at: now },
        Err(_) => cached,
    }
}

/// What is remembered once counts were read again. Where that failed, the old counts
/// are served and stay old.
pub fn refresh_counts(
    cached: CachedUserCounts,
    read: Result<UserCounts, DbFailure>,
    now: u64,
) -> (r: CachedUserCounts)
    ensures
        r == (match read {
            Ok(counts) => CachedUserCounts { counts, fetched_at: now },
            Err(_) => cached,
        }),
        r == refreshed(cached, read, now),
{
    match read {
        Ok(counts) => CachedUserCounts { counts, fetched_at: now },
        Err(_) => cached,
    }
}

/// The times after which a write counts for the last day, week and month.
pub open spec fn windows(now: i64) -> (int, int, int) {
    (
        now - constants::MS_PER_DAY,
        now - constants::MS_PER_WEEK,
        now - constants::MS_PER_MONTH,
    )
}

/// The times, in milliseconds, after which a write counts for the last day, week and
/// month.
pub fn get_user_counts(now: i64) -> (r: (i64, i64, i64))
    requires
        now - constants::MS_PER_MONTH >= i64::MIN,
    ensures
        r.0 == now - constants::MS_PER_DAY,
        r.1 == now - constants::MS_PER_WEEK,
        r.2 == now - constants::MS_PER_MONTH,
        (r.0 as int, r.1 as int, r.2 as int) == windows(now),
{
    (
        now - constants::MS_PER_DAY,
        now - constants::MS_PER_WEEK,
        now - constants::MS_PER_MONTH,
    )
}

/// The count that a row gives, its bits read as an unsigned number.
pub open spec fn counted(row: Option<i64>) -> int {
    match row {
        Some(n) => if n >= 0 {
            n as int
        } else {
            n + 0x1_0000_0000_0000_0000
        },
        None => 0,
    }
}

/// The count that a row gives; no row counts as none. A negative count, which no
/// database gives, is read as its bits.
pub fn count_from_row(row: Option<i64>) -> (r: u64)
    ensures
        row is None ==> r == 0,
        row matches Some(n) ==> n >= 0 ==> r == n,
        row matches Some(n) ==> n < 0 ==> r == n + 0x1_0000_0000_0000_0000,
        r == counted(row),
{
    match row {
        Some(n) => {
            let bits: u64 = n as u64;
            assert(n < 0 ==> bits == n + 0x1_0000_0000_0000_0000) by (bit_vector)
                requires
                    bits == n as u64,
            ;
            bits
        },
        None => 0,
    }
}

/// The reply to a request for metrics.
pub open spec fn metrics_reply(
    counts: UserCounts,
    now: u64,
    start_time: u64,
    timestamp_ms: i64,
) -> reply::ReplyView {
    let uptime_seconds: u64 = if now >= start_time {
        (now - start_time) as u64
    } else {
        0
    };
    reply::plain_reply(200, ReplyBodyView::Metrics { counts, uptime_seconds, timestamp_ms })
}

/// Answers a request for metrics.
pub fn get_metrics(
    counts: UserCounts,
    now: u64,
    start_time: u64,
    timestamp_ms: i64,
) -> (r: Reply)
    ensures
        r@ == reply::plain_reply(
            200,
            ReplyBodyView::Metrics {
                counts,
                uptime_seconds: if now >= start_time {
                    (now - start_time) as u64
                } else {
                    0
                },
                timestamp_ms,
            },
        ),
        r@ == metrics_reply(counts, now, start_time, timestamp_ms),
{
    let uptime_seconds: u64 = now.saturating_sub(start_time);
    reply::plain(200, ReplyBody::Metrics { counts, uptime_seconds, timestamp_ms })
}

/// Without a token nobody is served metrics.
pub proof fn law_metrics_need_a_token(config: MetricsConfig, authorization: Option<Seq<u8>>)
    requires
        metrics_refusal(config, authorization) is None,
    ensures
        config.enabled,
        config.token is Some,
        headers::optional_text(authorization) == Some("Bearer "@ + config.token->0@),
{
}

/// Metrics are served just to those who send `Bearer ` and the token. All others are told
/// that they are not authorized, and everybody that there is nothing where metrics are
/// switched off or there is no token.
pub proof fn law_metrics_are_for_those_who_hold_the_token(
    config: MetricsConfig,
    authorization: Option<Seq<u8>>,
)
    ensures
        ({
            let refusal = metrics_refusal(config, authorization);
            let off = !config.enabled || config.token is None;
            let right = authorization is Some && headers::header_text(authorization->0) is Some
                && headers::header_text(authorization->0)->0 == "Bearer "@ + config.token->0@;
            &&& refusal is None <==> !off && right
            &&& off ==> refusal->0.status == 404
            &&& !off && !right ==> refusal->0.status == 401
            &&& refusal is Some ==> refusal->0.body == ReplyBodyView::Empty
        }),
{
}

/// Only a token with something in it is a token.
pub proof fn law_empty_token_is_no_token(token: Seq<char>)
    ensures
        token.len() > 0 ==> usable_token(Some(token)) == Some(token),
        token.len() == 0 ==> usable_token(Some(token)) is None,
        usable_token(None) is None,
{
}

/// Counts that were read are served for five minutes. After that, and only then, they
/// are read again; where that fails the old ones stay and are still not recent.
pub proof fn law_counts_are_served_for_five_minutes(
    before: CachedUserCounts,
    counts: UserCounts,
    read_at: u64,
    now: u64,
)
    ensures
        now < read_at + 300 ==> served(refreshed(before, Ok(counts), read_at), now) == Some(counts),
        now >= read_at + 300 ==> served(refreshed(before, Ok(counts), read_at), now) is None,
        refreshed(before, Err(DbFailure), read_at) == before,
        served(before, now) is Some ==> served(before, now)->0 == before.counts,
        now >= before.fetched_at + 300 <==> served(before, now) is None,
{
}

/// Metrics say the counts that were read, the given time, and how long the service has
/// been up, which is never negative.
pub proof fn law_metrics_say_what_was_counted(
    counts: UserCounts,
    start_time: u64,
    up: u64,
    timestamp_ms: i64,
)
    requires
        start_time + up <= u64::MAX,
    ensures
        metrics_reply(counts, (start_time + up) as u64, start_time, timestamp_ms).status == 200,
        metrics_reply(counts, (start_time + up) as u64, start_time, timestamp_ms).body == (
        ReplyBodyView::Metrics { counts, uptime_seconds: up, timestamp_ms }),
        metrics_reply(counts, start_time, (start_time + up) as u64, timestamp_ms).body == (
        ReplyBodyView::Metrics { counts, uptime_seconds: 0, timestamp_ms }),
{
}

/// Metrics are switched on by the word `true` and a token with something in it, and by
/// nothing else; whoever sends that token is then served.
pub proof fn law_metrics_are_switched_on_by_name(
    enabled: Option<Seq<char>>,
    token: Option<Seq<char>>,
    c: MetricsConfig,
    authorization: Option<Seq<u8>>,
)
    requires
        registers(enabled, token, c),
    ensures
        c.enabled <==> enabled == Some("true"@) && token is Some && token->0.len() > 0,
        c.enabled ==> c.token is Some && c.token->0@ == token->0,
        metrics_refusal(c, authorization) is None <==> {
            &&& enabled == Some("true"@)
            &&& token is Some && token->0.len() > 0
            &&& headers::optional_text(authorization) == Some("Bearer "@ + token->0)
        },
{
    if enabled is Some {
        variables::law_variable_gives_the_truth_that_it_says(false, enabled->0);
    }
}

/// A day, a week and a month reach back by 24 hours, 7 days and 30 days.
pub proof fn law_windows_reach_back_by_days(now: i64)
    ensures
        windows(now).0 == now - 24 * 60 * 60 * 1000,
        now - windows(now).1 == 7 * (now - windows(now).0),
        now - windows(now).2 == 30 * (now - windows(now).0),
{
}

/// A count is what its row says; without a row there is nothing to count.
pub proof fn law_count_is_what_its_row_says(n: i64)
    ensures
        n >= 0 ==> counted(Some(n)) == n,
        0 <= counted(Some(n)) <= u64::MAX,
        (counted(Some(n)) - n) % 0x1_0000_0000_0000_0000 == 0,
        counted(None) == 0,
{
}

} // verus!
