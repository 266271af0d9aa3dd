//! What Discord sends during a login.
use crate::text;
use vstd::prelude::*;

verus! {

/// The query of the page that Discord sends a user back to.
#[derive(Debug)]
pub struct OAuthCallback {
    pub code: Option<String>,
    pub error: Option<String>,
}

/// What [`OAuthCallback`] holds.
pub struct OAuthCallbackView {
    pub code: Option<Seq<char>>,
    pub error: Option<Seq<char>>,
}

impl View for OAuthCallback {
    type V = OAuthCallbackView;

    open spec fn view(&self) -> OAuthCallbackView {
        OAuthCallbackView {
            code: text::option_view(self.code),
            error: text::option_view(self.error),
        }
    }
}

/// The reply to a token request.
#[derive(Debug)]
pub struct DiscordAccessTokenResult {
    pub access_token: String,
    pub scope: String,
    pub token_type: String,
}

/// What [`DiscordAccessTokenResult`] holds.
pub struct DiscordAccessTokenResultView {
    pub access_token: Seq<char>,
    pub scope: Seq<char>,
    pub token_type: Seq<char>,
}

impl View for DiscordAccessTokenResult {
    type V = DiscordAccessTokenResultView;

    open spec fn view(&self) -> DiscordAccessTokenResultView {
        DiscordAccessTokenResultView {
            access_token: self.access_token@,
            scope: self.scope@,
            token_type: self.token_type@,
        }
    }
}

/// The reply to a request for the user behind a token.
#[derive(Debug)]
pub struct DiscordUserResult {
    pub id: String,
}

/// What [`DiscordUserResult`] holds.
pub struct DiscordUserResultView {
    pub id: Seq<char>,
}

impl View for DiscordUserResult {
    type V = DiscordUserResultView;

    open spec fn view(&self) -> DiscordUserResultView {
        DiscordUserResultView {
            id: self.id@,
        }
    }
}

} // verus!
