//! The health of the service, and where its root leads.
use crate::reply::{self, Reply, ReplyBody, ReplyBodyView, ReplyView};
use crate::text;
use vstd::prelude::*;

verus! {

/// The reply to a health check, given whether the database answered.
pub open spec fn health_reply(database_answers: bool) -> ReplyView {
    if database_answers {
        reply::plain_reply(200, ReplyBodyView::Status("ok"@))
    } else {
        reply::plain_reply(503, ReplyBodyView::Status("unavailable"@))
    }
}

/// Answers a health check, given whether the database answered.
pub fn health_check(database_answers: bool) -> (r: Reply)
    ensures
        r@ == (if database_answers {
            reply::plain_reply(200, ReplyBodyView::Status("ok"@))
        } else {
            reply::plain_reply(503, ReplyBodyView::Status("unavailable"@))
        }),
        r@ == health_reply(database_answers),
{
    if database_answers {
        reply::plain(200, ReplyBody::Status("ok"))
    } else {
        reply::plain(503, ReplyBody::Status("unavailable"))
    }
}

/// Whether an address can be sent out: it is one of HTTP, without control
/// characters and white space.
pub open spec fn safe_redirect(url: Seq<char>) -> bool {
    &&& "http://"@.is_prefix_of(url) || "https://"@.is_prefix_of(url)
    &&& forall|i: int|
        0 <= i < url.len() ==> !text::control(#[trigger] url[i]) && !text::whitespace(url[i])
}

/// Whether an address can be sent out.
pub fn is_safe_redirect_url(url: &str) -> (r: bool)
    ensures
        r == safe_redirect(url@),
{
    if !(text::starts_with(url, "http://") || text::starts_with(url, "https://")) {
        return false;
    }
    let x = text::chars_of(url);
    let mut i: usize = 0;
    while i < x.len()
        invariant
            x@ == url@,
            i <= x@.len(),
            forall|j: int|
                0 <= j < i ==> !text::control(#[trigger] url@[j]) && !text::whitespace(url@[j]),
        decreases x@.len() - i,
    {
        if text::is_control(x[i]) || text::is_whitespace(x[i]) {
            assert(text::control(url@[i as int]) || text::whitespace(url@[i as int]));
            return false;
        }
        i = i + 1;
    }
    true
}

/// The address that is kept of the one that is configured.
pub open spec fn kept_target(configured: Option<Seq<char>>) -> Option<Seq<char>> {
    match configured {
        Some(url) => if url.len() > 0 && safe_redirect(url) {
            Some(url)
        } else {
            None
        },
        None => None,
    }
}

/// The address that the root leads to: the one that is configured, if it is safe.
pub fn redirect_target(configured: Option<String>) -> (r: Option<String>)
    ensures
        match configured {
            Some(url) => if url@.len() > 0 && safe_redirect(url@) {
                r == Some(url)
            } else {
                r is None
            },
            None => r is None,
        },
        text::option_view(r) == kept_target(text::option_view(configured)),
{
    match configured {
        Some(url) => if url.as_str().unicode_len() > 0 && is_safe_redirect_url(url.as_str()) {
            Some(url)
        } else {
            None
        },
        None => None,
    }
}

/// The reply to a request for the root.
pub open spec fn root_reply(target: Option<Seq<char>>) -> ReplyView {
    match target {
        Some(url) => reply::plain_reply(307, ReplyBodyView::Location(url)),
        None => reply::plain_reply(200, ReplyBodyView::Service("equicloud"@)),
    }
}

/// Answers a request for the root.
pub fn root_redirect(target: &Option<String>) -> (r: Reply)
    ensures
        r@ == (match text::option_view(*target) {
            Some(url) => reply::plain_reply(307, ReplyBodyView::Location(url)),
            None => reply::plain_reply(200, ReplyBodyView::Service("equicloud"@)),
        }),
        r@ == root_reply(text::option_view(*target)),
{
    match target {
        Some(url) => reply::plain(307, ReplyBody::Location(url.clone())),
        None => reply::plain(200, ReplyBody::Service("equicloud")),
    }
}

/// The root leads to the address that is configured just if that begins with `http://` or
/// `https://` and holds no control character and no white space. No client is sent to
/// any other address.
pub proof fn law_root_leads_to_safe_addresses_only(configured: Option<Seq<char>>)
    ensures
        ({
            let r = root_reply(kept_target(configured));
            &&& r.status == 307 <==> configured is Some && {
                let url = configured->0;
                &&& {
                    ||| exists|rest: Seq<char>| url == #[trigger] ("http://"@ + rest)
                    ||| exists|rest: Seq<char>| url == #[trigger] ("https://"@ + rest)
                }
                &&& forall|i: int|
                    0 <= i < url.len() ==> !text::control(#[trigger] url[i]) && !text::whitespace(
                        url[i],
                    )
            }
            &&& r.status == 307 ==> r.body == ReplyBodyView::Location(configured->0)
            &&& r.status != 307 ==> r.status == 200 && r.body == ReplyBodyView::Service(
                "equicloud"@,
            )
        }),
{
    let plain = "http://"@;
    let secure = "https://"@;
    reveal_strlit("http://");
    reveal_strlit("https://");
    if let Some(url) = configured {
        if plain.is_prefix_of(url) {
            assert(url =~= plain + url.skip(plain.len() as int));
        }
        if secure.is_prefix_of(url) {
            assert(url =~= secure + url.skip(secure.len() as int));
        }
        if exists|rest: Seq<char>| url == #[trigger] (plain + rest) {
            assert(url.subrange(0, plain.len() as int) =~= plain);
        }
        if exists|rest: Seq<char>| url == #[trigger] (secure + rest) {
            assert(url.subrange(0, secure.len() as int) =~= secure);
        }
    }
}

/// The service is healthy just if its database answers.
pub proof fn law_service_is_as_healthy_as_its_database(database_answers: bool)
    ensures
        health_reply(database_answers).status == 200 <==> database_answers,
        health_reply(database_answers).status == 503 <==> !database_answers,
        database_answers ==> health_reply(database_answers).body == ReplyBodyView::Status("ok"@),
        !database_answers ==> health_reply(database_answers).body == ReplyBodyView::Status(
            "unavailable"@,
        ),
{
}

} // verus!
