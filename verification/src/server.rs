//! How the server is set up: connections, limits and its watch over the database.
use crate::constants;
use crate::headers;
use crate::numbers;
use crate::text;
use crate::types::config::Config;
use crate::variables;
use vstd::prelude::*;
use vstd::utf8::encode_utf8;

verus! {

/// Which origins may use the service from a browser.
#[derive(Debug)]
pub enum CorsPolicy {
    /// Any origin.
    Permissive,
    /// No origin.
    Closed,
    /// These origins.
    Origins(Vec<Vec<u8>>),
}

/// What [`CorsPolicy`] holds.
pub enum CorsPolicyView {
    Permissive,
    Closed,
    Origins(Seq<Seq<u8>>),
}

impl View for CorsPolicy {
    type V = CorsPolicyView;

    open spec fn view(&self) -> CorsPolicyView {
        match *self {
            CorsPolicy::Permissive => CorsPolicyView::Permissive,
            CorsPolicy::Closed => CorsPolicyView::Closed,
            CorsPolicy::Origins(list) => CorsPolicyView::Origins(
                list@.map_values(|v: Vec<u8>| v@),
            ),
        }
    }
}

/// The origins that a comma-separated list names, as far as they can be sent in a
/// header.
pub open spec fn listed_origins(list: Seq<char>) -> Seq<Seq<u8>> {
    text::split_on(list, |c: char| c == ',').map_values(|p: Seq<char>| text::trimmed(p)).filter(
        |p: Seq<char>| headers::sendable(p),
    ).map_values(|p: Seq<char>| encode_utf8(p))
}

/// Which origins may use the service, where this is configured.
pub open spec fn cors_of(origins: Option<Seq<char>>) -> CorsPolicyView {
    match origins {
        None => CorsPolicyView::Closed,
        Some(list) => if list == "*"@ {
            CorsPolicyView::Permissive
        } else if listed_origins(list).len() == 0 {
            CorsPolicyView::Closed
        } else {
            CorsPolicyView::Origins(listed_origins(list))
        },
    }
}

/// Reads which origins may use the service.
pub fn configure_cors(origins: &Option<String>) -> (r: CorsPolicy)
    ensures
        match text::option_view(*origins) {
            None => r is Closed,
            Some(list) => if list == "*"@ {
                r is Permissive
            } else if listed_origins(list).len() == 0 {
                r is Closed
            } else {
                r is Origins && r->Origins_0@.map_values(|v: Vec<u8>| v@) == listed_origins(list)
            },
        },
        r@ == cors_of(text::option_view(*origins)),
{
    match origins {
        None => CorsPolicy::Closed,
        Some(list) => {
            if text::str_eq(list.as_str(), "*") {
                return CorsPolicy::Permissive;
            }
            let valid = parse_origins(list.as_str());
            assert(valid@.map_values(|v: Vec<u8>| v@).len() == valid@.len());
            if valid.len() == 0 {
                CorsPolicy::Closed
            } else {
                CorsPolicy::Origins(valid)
            }
        },
    }
}

fn parse_origins(list: &str) -> (r: Vec<Vec<u8>>)
    ensures
        r@.map_values(|v: Vec<u8>| v@) == listed_origins(list@),
{
    let parts = text::split_char(list, ',');
    let ghost pieces = text::split_on(list@, |c: char| c == ',').map_values(
        |p: Seq<char>| text::trimmed(p),
    );
    let ghost p = |p: Seq<char>| headers::sendable(p);
    let ghost f = |p: Seq<char>| encode_utf8(p);
    let mut out: Vec<Vec<u8>> = Vec::new();
    let mut i: usize = 0;
    proof {
        reveal(Seq::filter);
        assert(pieces.take(0) =~= Seq::<Seq<char>>::empty());
        assert(out@.map_values(|v: Vec<u8>| v@) =~= pieces.take(0).filter(p).map_values(f));
    }
    while i < parts.len()
        invariant
            text::views(parts@) == text::split_on(list@, |c: char| c == ','),
            pieces == text::split_on(list@, |c: char| c == ',').map_values(
                |p: Seq<char>| text::trimmed(p),
            ),
            p == (|p: Seq<char>| headers::sendable(p)),
            f == (|p: Seq<char>| encode_utf8(p)),
            i <= parts@.len(),
            out@.map_values(|v: Vec<u8>| v@) == pieces.take(i as int).filter(p).map_values(f),
        decreases parts@.len() - i,
    {
        let piece = text::trim(parts[i]);
        let ghost before = pieces.take(i as int).filter(p);
        proof {
            assert(text::views(parts@)[i as int] == parts@[i as int]@);
            assert(pieces[i as int] == piece@);
            crate::sync::lemma_filter_step(pieces, i as int, p);
        }
        if let Some(bytes) = headers::value_bytes(piece) {
            let ghost shown = out@.map_values(|v: Vec<u8>| v@);
            let ghost added = bytes@;
            out.push(bytes);
            assert(out@.map_values(|v: Vec<u8>| v@) =~= shown.push(added));
            assert(before.push(piece@).map_values(f) =~= before.map_values(f).push(f(piece@)));
        }
        i = i + 1;
    }
    assert(text::views(parts@).len() == parts@.len());
    assert(pieces.take(i as int) =~= pieces);
    out
}

/// How many requests a client may make per second, and how many at once, where this is
/// configured.
pub open spec fn limits_of(per_second: Option<Seq<char>>, burst: Option<Seq<char>>) -> (nat, nat) {
    (
        variables::env_unsigned(per_second, 50, u64::MAX as nat),
        variables::env_unsigned(burst, 150, u32::MAX as nat),
    )
}

/// Reads how many requests a client may make per second, and how many at once.
pub fn rate_limit_params(per_second: &Option<String>, burst: &Option<String>) -> (r: (u64, u32))
    ensures
        r.0 == variables::env_unsigned(text::option_view(*per_second), 50, u64::MAX as nat),
        r.1 == variables::env_unsigned(text::option_view(*burst), 150, u32::MAX as nat),
        (r.0 as nat, r.1 as nat) == limits_of(
            text::option_view(*per_second),
            text::option_view(*burst),
        ),
{
    (variables::parse_env_u64(per_second, 50), variables::parse_env_u32(burst, 150))
}

/// By what clients are told apart where their requests are limited.
#[derive(Debug, Clone, Copy, PartialEq, Eq, Structural)]
pub enum RateLimitMode {
    /// By the address that a proxy reports.
    Proxy,
    /// By the address of the connection.
    Peer,
    /// Requests are not limited.
    Off,
}

/// By what clients are told apart, where this is configured.
pub open spec fn limit_mode(
    enabled: Option<Seq<char>>,
    trust_proxy: Option<Seq<char>>,
) -> RateLimitMode {
    if !variables::env_bool(enabled, true) {
        RateLimitMode::Off
    } else if variables::env_bool(trust_proxy, false) {
        RateLimitMode::Proxy
    } else {
        RateLimitMode::Peer
    }
}

/// Reads by what clients are told apart.
pub fn rate_limit_mode(enabled: &Option<String>, trust_proxy: &Option<String>) -> (r: RateLimitMode)
    ensures
        r == (if !variables::env_bool(text::option_view(*enabled), true) {
            RateLimitMode::Off
        } else if variables::env_bool(text::option_view(*trust_proxy), false) {
            RateLimitMode::Proxy
        } else {
            RateLimitMode::Peer
        }),
        r == limit_mode(text::option_view(*enabled), text::option_view(*trust_proxy)),
{
    if !variables::parse_env_bool(enabled, true) {
        RateLimitMode::Off
    } else if variables::parse_env_bool(trust_proxy, false) {
        RateLimitMode::Proxy
    } else {
        RateLimitMode::Peer
    }
}

/// A text, or the default where there is none.
pub open spec fn or_default(value: Option<Seq<char>>, default: Seq<char>) -> Seq<char> {
    match value {
        Some(v) => v,
        None => default,
    }
}

/// The address for a host and a port, where they are configured.
pub open spec fn address_of(host: Option<Seq<char>>, port: Option<Seq<char>>) -> Seq<char> {
    or_default(host, constants::DEFAULT_HOST@) + ":"@ + or_default(port, constants::DEFAULT_PORT@)
}

/// The address that the server listens on.
pub fn bind_address(host: &Option<String>, port: &Option<String>) -> (r: String)
    ensures
        r@ == or_default(text::option_view(*host), constants::DEFAULT_HOST@) + ":"@ + or_default(
            text::option_view(*port),
            constants::DEFAULT_PORT@,
        ),
        r@ == address_of(text::option_view(*host), text::option_view(*port)),
{
    let mut out = String::new();
    match host {
        Some(h) => out.append(h.as_str()),
        None => out.append(constants::DEFAULT_HOST),
    }
    assert(out@ =~= or_default(text::option_view(*host), constants::DEFAULT_HOST@));
    out.append(":");
    match port {
        Some(p) => out.append(p.as_str()),
        None => out.append(constants::DEFAULT_PORT),
    }
    out
}

/// The longest body where a user may store so much.
pub open spec fn body_limit(max_backup: usize) -> int {
    if max_backup + 4096 > usize::MAX {
        usize::MAX as int
    } else {
        max_backup + 4096
    }
}

/// The longest body that a request may have: the limit on a user's data and some
/// room for what is around it.
pub fn max_body_size(config: &Config) -> (r: usize)
    ensures
        r == (if config.max_backup_size_bytes + 4096 > usize::MAX {
            usize::MAX as int
        } else {
            config.max_backup_size_bytes + 4096
        }),
        r == body_limit(config.max_backup_size_bytes),
{
    config.max_backup_size_bytes.saturating_add(4096)
}

/// How many health checks in a row may fail before the server shuts down.
pub const MAX_CONSECUTIVE_FAILURES: u32 = 3;

/// The count of failed health checks after one more, and whether the server is then to
/// shut down.
pub open spec fn watched(failures: nat, answered: bool) -> (nat, bool) {
    if answered {
        (0, false)
    } else {
        (failures + 1, failures + 1 >= MAX_CONSECUTIVE_FAILURES)
    }
}

/// Counts the health checks that failed in a row, and says whether the server is to
/// shut down.
pub fn watch_database(failures: u32, answered: bool) -> (r: (u32, bool))
    requires
        failures < MAX_CONSECUTIVE_FAILURES,
    ensures
        r.0 == (if answered {
            0
        } else {
            failures + 1
        }),
        r.1 == (r.0 >= MAX_CONSECUTIVE_FAILURES),
        (r.0 as nat, r.1) == watched(failures as nat, answered),
{
    if answered {
        (0, false)
    } else {
        (failures + 1, failures + 1 >= MAX_CONSECUTIVE_FAILURES)
    }
}

/// How many checks failed since the last one that did not.
pub open spec fn failures_in_a_row(answers: Seq<bool>) -> nat
    decreases answers.len(),
{
    if answers.len() == 0 || answers.last() {
        0
    } else {
        failures_in_a_row(answers.drop_last()) + 1
    }
}

/// The count that is kept is the number of failures in a row.
pub proof fn law_watch_counts_failures_in_a_row(answers: Seq<bool>, answered: bool)
    ensures
        failures_in_a_row(answers.push(answered)) == (if answered {
            0
        } else {
            failures_in_a_row(answers) + 1
        }),
{
    assert(answers.push(answered).drop_last() =~= answers);
}

/// The text of each variable that a connection to the database is made with, `None`
/// where the variable is not set.
#[derive(Debug)]
pub struct ConnectionVars {
    pub uri: Option<String>,
    pub username: Option<String>,
    pub password: Option<String>,
    pub pool_size: Option<String>,
    pub connection_timeout_ms: Option<String>,
    pub request_timeout_ms: Option<String>,
    pub local_dc: Option<String>,
}

/// How a connection to the database is made.
#[derive(Debug)]
pub struct ConnectionSettings {
    pub uri: String,
    pub credentials: Option<(String, String)>,
    pub pool_size: usize,
    pub connection_timeout_ms: u64,
    pub request_timeout_ms: u64,
    pub local_dc: Option<String>,
}

/// Whether a connection is made as the variables say.
pub open spec fn connects(vars: ConnectionVars, c: ConnectionSettings) -> bool {
    let asked = variables::env_unsigned(text::option_view(vars.pool_size), 4, usize::MAX as nat);
    &&& c.uri@ == or_default(text::option_view(vars.uri), constants::DEFAULT_SCYLLA_URI@)
    &&& c.credentials is Some <==> vars.username is Some && vars.password is Some
    &&& c.credentials matches Some((user, pass)) ==> Some(user) == vars.username && Some(pass)
        == vars.password
    &&& c.pool_size == (if asked == 0 {
        4
    } else {
        asked
    })
    &&& c.connection_timeout_ms == variables::env_unsigned(
        text::option_view(vars.connection_timeout_ms),
        5000,
        u64::MAX as nat,
    )
    &&& c.request_timeout_ms == variables::env_unsigned(
        text::option_view(vars.request_timeout_ms),
        5000,
        u64::MAX as nat,
    )
    &&& c.local_dc == (if vars.local_dc is Some && vars.local_dc->0@.len() > 0 {
        vars.local_dc
    } else {
        None
    })
}

/// Reads how a connection to the database is made. A pool of no connections is taken
/// for the default, an empty data centre for none, and a name counts only with a
/// password.
pub fn create_database_connection(vars: ConnectionVars) -> (r: ConnectionSettings)
    ensures
        r.uri@ == or_default(text::option_view(vars.uri), constants::DEFAULT_SCYLLA_URI@),
        r.credentials is Some <==> vars.username is Some && vars.password is Some,
        r.credentials matches Some((user, pass)) ==> Some(user) == vars.username && Some(pass)
            == vars.password,
        ({
            let asked = variables::env_unsigned(
                text::option_view(vars.pool_size),
                4,
                usize::MAX as nat,
            );
            r.pool_size == (if asked == 0 {
                4
            } else {
                asked
            })
        }),
        r.connection_timeout_ms == variables::env_unsigned(
            text::option_view(vars.connection_timeout_ms),
            5000,
            u64::MAX as nat,
        ),
        r.request_timeout_ms == variables::env_unsigned(
            text::option_view(vars.request_timeout_ms),
            5000,
            u64::MAX as nat,
        ),
        match vars.local_dc {
            Some(dc) => if dc@.len() > 0 {
                r.local_dc == Some(dc)
            } else {
                r.local_dc is None
            },
            None => r.local_dc is None,
        },
        connects(vars, r),
{
    let asked: usize = variables::parse_env_usize(&vars.pool_size, 4);
    let connection_timeout_ms: u64 = variables::parse_env_u64(&vars.connection_timeout_ms, 5000);
    let request_timeout_ms: u64 = variables::parse_env_u64(&vars.request_timeout_ms, 5000);
    let uri = match vars.uri {
        Some(uri) => uri,
        None => constants::DEFAULT_SCYLLA_URI.to_owned(),
    };
    let credentials = match (vars.username, vars.password) {
        (Some(user), Some(pass)) => Some((user, pass)),
        _ => None,
    };
    let local_dc = match vars.local_dc {
        Some(dc) => if dc.as_str().unicode_len() > 0 {
            Some(dc)
        } else {
            None
        },
        None => None,
    };
    ConnectionSettings {
        uri,
        credentials,
        pool_size: if asked == 0 {
            4
        } else {
            asked
        },
        connection_timeout_ms,
        request_timeout_ms,
        local_dc,
    }
}

/// The count that is kept over some health checks.
pub open spec fn count_after(answers: Seq<bool>) -> nat
    decreases answers.len(),
{
    if answers.len() == 0 {
        0
    } else {
        watched(count_after(answers.drop_last()), answers.last()).0
    }
}

/// The server is to shut down after a health check just if that one and the two before it
/// failed. Any check that is answered starts the count anew.
pub proof fn law_three_failures_in_a_row_shut_down(answers: Seq<bool>, answered: bool)
    ensures
        ({
            let n = answers.len() as int;
            &&& watched(count_after(answers), answered).1 <==> !answered && n >= 2 && !answers[n
                - 1] && !answers[n - 2]
            &&& answered ==> watched(count_after(answers), answered).0 == 0
            &&& count_after(answers) <= n
        }),
    decreases answers.len(),
{
    let n = answers.len() as int;
    if n > 0 {
        let front = answers.drop_last();
        law_three_failures_in_a_row_shut_down(front, answers.last());
        if n > 1 {
            let less = front.drop_last();
            assert(front.last() == answers[n - 2]);
            law_three_failures_in_a_row_shut_down(less, front.last());
            reveal_with_fuel(count_after, 3);
        } else {
            reveal_with_fuel(count_after, 2);
        }
    }
}

/// The origins that may use the service are just those that stand in the list between two
/// commas, without the white space around them, as far as they can be sent.
pub proof fn law_origins_stand_between_commas(list: Seq<char>, origin: Seq<u8>)
    ensures
        listed_origins(list).contains(origin) <==> exists|a: int, b: int| #[trigger]
            text::between_commas(list, a, b) && headers::sendable(
                text::trimmed(list.subrange(a, b)),
            ) && encode_utf8(text::trimmed(list.subrange(a, b))) == origin,
{
    let sep = |c: char| c == ',';
    let keep = |p: Seq<char>| headers::sendable(p);
    let f = |p: Seq<char>| encode_utf8(p);
    let parts = text::split_on(list, sep);
    let pieces = parts.map_values(|p: Seq<char>| text::trimmed(p));
    let kept = pieces.filter(keep);
    let origins = listed_origins(list);
    broadcast use vstd::seq_lib::group_filter_ensures;

    assert(origins == kept.map_values(f));
    if origins.contains(origin) {
        let k = choose|k: int| 0 <= k < origins.len() && origins[k] == origin;
        assert(kept.contains(kept[k]));
        pieces.lemma_filter_contains_rev(keep, kept[k]);
        assert(keep(kept[k]));
        let i = choose|i: int| 0 <= i < pieces.len() && pieces[i] == kept[k];
        assert(parts.contains(parts[i]));
        text::law_list_items_stand_between_commas(list, parts[i]);
        let (a, b) = choose|a: int, b: int|
            #[trigger] text::between_commas(list, a, b) && parts[i] == list.subrange(a, b);
        assert(text::between_commas(list, a, b) && headers::sendable(
            text::trimmed(list.subrange(a, b)),
        ) && encode_utf8(text::trimmed(list.subrange(a, b))) == origin);
    }
    if exists|a: int, b: int| #[trigger]
        text::between_commas(list, a, b) && headers::sendable(text::trimmed(list.subrange(a, b)))
            && encode_utf8(text::trimmed(list.subrange(a, b))) == origin {
        let (a, b) = choose|a: int, b: int| #[trigger]
            text::between_commas(list, a, b) && headers::sendable(
                text::trimmed(list.subrange(a, b)),
            ) && encode_utf8(text::trimmed(list.subrange(a, b))) == origin;
        let part = list.subrange(a, b);
        text::law_list_items_stand_between_commas(list, part);
        let i = choose|i: int| 0 <= i < parts.len() && parts[i] == part;
        assert(pieces[i] == text::trimmed(part));
        assert(keep(pieces[i]));
        assert(pieces.contains(pieces[i]));
        assert(kept.contains(pieces[i]));
        let k = choose|k: int| 0 <= k < kept.len() && kept[k] == pieces[i];
        assert(origins[k] == origin);
    }
}

/// Any origin may use the service just if the list is a single star. Without a list, or
/// with one that names nothing that can be sent, no origin may; else just those that are
/// listed.
pub proof fn law_only_a_star_lets_any_origin_in(origins: Option<Seq<char>>)
    ensures
        cors_of(origins) is Permissive <==> origins is Some && origins->0 == seq!['*'],
        origins is None ==> cors_of(origins) is Closed,
        cors_of(origins) matches CorsPolicyView::Origins(list) ==> list.len() > 0 && list
            == listed_origins(origins->0),
        origins is Some && origins->0 != seq!['*'] && listed_origins(origins->0).len() > 0
            ==> cors_of(origins) is Origins,
        origins is Some && origins->0 != seq!['*'] && listed_origins(origins->0).len() == 0
            ==> cors_of(origins) is Closed,
{
    reveal_strlit("*");
    assert("*"@ =~= seq!['*']);
}

/// Requests are limited unless that is switched off by name, and by the address of the
/// connection unless a proxy is trusted by name.
pub proof fn law_requests_are_limited_unless_switched_off(
    enabled: Option<Seq<char>>,
    trust_proxy: Option<Seq<char>>,
)
    ensures
        limit_mode(enabled, trust_proxy) == RateLimitMode::Off <==> enabled == Some("false"@),
        limit_mode(enabled, trust_proxy) == RateLimitMode::Proxy <==> enabled != Some("false"@)
            && trust_proxy == Some("true"@),
        limit_mode(enabled, trust_proxy) == RateLimitMode::Peer <==> enabled != Some("false"@)
            && trust_proxy != Some("true"@),
{
    if enabled is Some {
        variables::law_variable_gives_the_truth_that_it_says(true, enabled->0);
    }
    if trust_proxy is Some {
        variables::law_variable_gives_the_truth_that_it_says(false, trust_proxy->0);
    }
}

/// The server listens on the host and the port that are configured, on port 8080 of every
/// address where nothing is.
pub proof fn law_server_listens_where_it_is_told(host: Seq<char>, port: Seq<char>)
    ensures
        address_of(Some(host), Some(port)) == host + seq![':'] + port,
        address_of(None, Some(port)) == "0.0.0.0"@ + seq![':'] + port,
        address_of(Some(host), None) == host + seq![':'] + "8080"@,
{
    reveal_strlit(":");
    assert(":"@ =~= seq![':']);
}

/// A body may always be as long as a user's data, and longer, but never longer than a
/// length can be; a user who may store more may send more.
pub proof fn law_body_has_room_for_all_data(a: usize, b: usize)
    ensures
        a <= body_limit(a) <= usize::MAX,
        body_limit(a) < usize::MAX ==> body_limit(a) - a == 4096,
        a <= b ==> body_limit(a) <= body_limit(b),
        body_limit(a) == usize::MAX <==> a >= usize::MAX - 4096,
{
}

/// The limits on requests are the numbers that their variables say; 50 per second and 150
/// at once where they say nothing.
pub proof fn law_limits_are_what_the_variables_say(per_second: nat, burst: nat)
    ensures
        limits_of(None, None) == (50nat, 150nat),
        per_second <= u64::MAX && burst <= u32::MAX ==> limits_of(
            Some(numbers::decimal(per_second)),
            Some(numbers::decimal(burst)),
        ) == (per_second, burst),
{
    variables::law_variable_gives_the_number_that_it_says(
        per_second,
        50,
        u64::MAX as nat,
        seq![],
    );
    variables::law_variable_gives_the_number_that_it_says(burst, 150, u32::MAX as nat, seq![]);
}

/// A connection goes where its variable says, with name and password only where both are
/// given, over a pool that is never empty, within the times that are given, and in a data
/// centre only where one is named.
pub proof fn law_connection_is_made_as_the_variables_say(
    vars: ConnectionVars,
    c: ConnectionSettings,
    said: nat,
)
    requires
        connects(vars, c),
        said <= usize::MAX,
        said <= u64::MAX,
    ensures
        vars.uri is Some ==> c.uri@ == vars.uri->0@,
        vars.uri is None ==> c.uri@ == "127.0.0.1:9042"@,
        vars.username is None || vars.password is None ==> c.credentials is None,
        vars.username is Some && vars.password is Some ==> c.credentials == Some(
            (vars.username->0, vars.password->0),
        ),
        c.pool_size > 0,
        vars.pool_size is None ==> c.pool_size == 4,
        vars.pool_size is Some && vars.pool_size->0@ == numbers::decimal(said) ==> c.pool_size == (
        if said == 0 {
            4
        } else {
            said
        }),
        vars.connection_timeout_ms is None ==> c.connection_timeout_ms == 5000,
        vars.connection_timeout_ms is Some && vars.connection_timeout_ms->0@ == numbers::decimal(
            said,
        ) ==> c.connection_timeout_ms == said,
        vars.request_timeout_ms is None ==> c.request_timeout_ms == 5000,
        vars.request_timeout_ms is Some && vars.request_timeout_ms->0@ == numbers::decimal(said)
            ==> c.request_timeout_ms == said,
        c.local_dc is Some ==> c.local_dc == vars.local_dc && c.local_dc->0@.len() > 0,
        vars.local_dc is Some && vars.local_dc->0@.len() > 0 ==> c.local_dc is Some,
{
    numbers::law_decimal_reads_back(said);
}

} // verus!
