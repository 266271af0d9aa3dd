//! Deleting an account, and the sign of life.
use crate::reply::{self, Reply, ReplyBody, ReplyBodyView, ReplyView};
use crate::types::data::DbFailure;
use vstd::prelude::*;

verus! {

/// Says that the service is there.
pub fn v1_status_pong() -> (r: Reply)
    ensures
        r@ == reply::plain_reply(
            200,
            ReplyBodyView::Pong { status: "ok"@, service: "equicloud"@ },
        ),
{
    reply::plain(200, ReplyBody::Pong { status: "ok", service: "equicloud" })
}

/// The reply to the deletion of an account, and whether the user's tokens are to be
/// forgotten.
pub open spec fn account_reply(deleted: Result<(), DbFailure>) -> (ReplyView, bool) {
    match deleted {
        Ok(_) => (reply::status_view(204), true),
        Err(_) => (reply::error_view(500, "Failed to delete account"@), false),
    }
}

/// Answers the deletion of an account, and says whether the user's tokens are to be
/// forgotten.
pub fn delete_all_user_data(deleted: Result<(), DbFailure>) -> (r: (Reply, bool))
    ensures
        r.0@ == (match deleted {
            Ok(_) => reply::status_view(204),
            Err(_) => reply::error_view(500, "Failed to delete account"@),
        }),
        r.1 == deleted is Ok,
        (r.0@, r.1) == account_reply(deleted),
{
    match deleted {
        Ok(_) => (reply::status_only(204), true),
        Err(_) => (reply::err(500, "Failed to delete account"), false),
    }
}

/// The tokens of a user are forgotten just where the account was deleted, which is what
/// the reply says.
pub proof fn law_tokens_are_forgotten_with_the_account(deleted: Result<(), DbFailure>)
    ensures
        account_reply(deleted).1 <==> account_reply(deleted).0.status == 204,
        account_reply(deleted).0.status == 204 <==> deleted is Ok,
        account_reply(deleted).0.status == 500 <==> deleted is Err,
{
}

} // verus!
