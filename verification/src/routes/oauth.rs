//! Logging in through Discord.
use crate::reply::{self, Reply, ReplyBody, ReplyBodyView, ReplyView};
use crate::text;
use crate::types::config::Config;
use crate::types::data::DbFailure;
use crate::types::oauth::{
    DiscordAccessTokenResult, DiscordUserResult, OAuthCallback, OAuthCallbackView,
};
use vstd::prelude::*;

verus! {

/// The scope that a login needs.
pub const REQUIRED_SCOPE: &'static str = "identify";

/// A field of a form.
#[derive(Debug)]
pub struct FormField {
    pub name: &'static str,
    pub value: String,
}

/// The names and values of form fields.
pub open spec fn form_view(form: Seq<FormField>) -> Seq<(Seq<char>, Seq<char>)> {
    form.map_values(|f: FormField| (f.name@, f.value@))
}

/// Why a login ends before a token is asked for, or `None` if it goes on.
pub open spec fn start_error(params: OAuthCallbackView) -> Option<ReplyView> {
    if params.error is Some {
        Some(reply::error_view(400, "Authorization failed"@))
    } else if params.code is None || params.code->0.len() == 0 {
        Some(reply::error_view(400, "Missing code"@))
    } else {
        None
    }
}

/// The form that asks for a token.
pub open spec fn token_form(config: Config, code: Seq<char>) -> Seq<(Seq<char>, Seq<char>)> {
    seq![
        ("client_id"@, config.discord_client_id@),
        ("client_secret"@, config.discord_client_secret@),
        ("grant_type"@, "authorization_code"@),
        ("code"@, code),
        ("redirect_uri"@, config.server_fqdn@ + "/v1/oauth/callback"@),
    ]
}

/// What a login begins with: the form that asks for a token, or the reply that ends it.
pub open spec fn start_step(config: Config, params: OAuthCallbackView) -> Result<
    Seq<(Seq<char>, Seq<char>)>,
    ReplyView,
> {
    match start_error(params) {
        Some(v) => Err(v),
        None => Ok(token_form(config, params.code->0)),
    }
}

/// Begins a login: the form that asks for a token, or the reply that ends it.
pub fn oauth_callback(config: &Config, params: OAuthCallback) -> (r: Result<Vec<FormField>, Reply>)
    ensures
        match start_error(params@) {
            Some(v) => r is Err && r->Err_0@ == v,
            None => r is Ok && form_view(r->Ok_0@) == token_form(*config, params@.code->0),
        },
        match start_step(*config, params@) {
            Ok(form) => r is Ok && form_view(r->Ok_0@) == form,
            Err(v) => r is Err && r->Err_0@ == v,
        },
{
    if params.error.is_some() {
        return Err(reply::err(400, "Authorization failed"));
    }
    match params.code {
        Some(code) => {
            if code.as_str().unicode_len() == 0 {
                return Err(reply::err(400, "Missing code"));
            }
            let ghost shown = code@;
            let mut form: Vec<FormField> = Vec::new();
            form.push(FormField { name: "client_id", value: config.discord_client_id.clone() });
            form.push(
                FormField { name: "client_secret", value: config.discord_client_secret.clone() },
            );
            form.push(FormField { name: "grant_type", value: "authorization_code".to_owned() });
            form.push(FormField { name: "code", value: code });
            form.push(FormField { name: "redirect_uri", value: config.redirect_uri() });
            assert(form_view(form@) =~= token_form(*config, shown));
            Ok(form)
        },
        None => Err(reply::err(400, "Missing code")),
    }
}

/// What became of the request for a token.
#[derive(Debug)]
pub enum TokenOutcome {
    Unreachable,
    Refused,
    Unreadable,
    Granted(DiscordAccessTokenResult),
}

/// What became of the request for the user.
#[derive(Debug)]
pub enum UserOutcome {
    Unreachable,
    Refused,
    Unreadable,
    Known(DiscordUserResult),
}

/// The end of a login that failed: the reply, and the token that is given back.
#[derive(Debug)]
pub struct Rejection {
    pub reply: Reply,
    pub revoke: Option<String>,
}

/// What [`Rejection`] holds.
pub struct RejectionView {
    pub reply: ReplyView,
    pub revoke: Option<Seq<char>>,
}

impl View for Rejection {
    type V = RejectionView;

    open spec fn view(&self) -> RejectionView {
        RejectionView { reply: self.reply@, revoke: text::option_view(self.revoke) }
    }
}

/// A rejection before there is a token.
pub open spec fn rejection(status: u16, message: Seq<char>) -> RejectionView {
    RejectionView { reply: reply::error_view(status, message), revoke: None }
}

/// A rejection that gives a token back.
pub open spec fn revoking(status: u16, message: Seq<char>, token: Seq<char>) -> RejectionView {
    RejectionView { reply: reply::error_view(status, message), revoke: Some(token) }
}

fn reject(status: u16, message: &str) -> (r: Rejection)
    ensures
        r@ == rejection(status, message@),
{
    Rejection { reply: reply::err(status, message), revoke: None }
}

fn reject_and_revoke(status: u16, message: &str, token: &str) -> (r: Rejection)
    ensures
        r@ == revoking(status, message@, token@),
{
    Rejection { reply: reply::err(status, message), revoke: Some(token.to_owned()) }
}

/// Whether a list of scopes holds one.
pub fn scope_contains(scopes: &str, required: &str) -> (r: bool)
    ensures
        r == text::words(scopes@).contains(required@),
{
    text::has_word(scopes, required)
}

/// Why a login ends once a token was asked for, or `None` if it goes on.
pub open spec fn token_error(outcome: TokenOutcome) -> Option<RejectionView> {
    match outcome {
        TokenOutcome::Unreachable => Some(rejection(502, "Failed to request access token"@)),
        TokenOutcome::Refused => Some(rejection(400, "Invalid code"@)),
        TokenOutcome::Unreadable => Some(rejection(502, "Failed to parse token response"@)),
        TokenOutcome::Granted(t) => if !text::words(t.scope@).contains(REQUIRED_SCOPE@) {
            Some(revoking(400, "Insufficient OAuth scope"@, t.access_token@))
        } else if text::lowered(t.token_type@) != text::lowered("Bearer"@) {
            Some(revoking(502, "Unexpected token type"@, t.access_token@))
        } else {
            None
        },
    }
}

/// What follows once a token was asked for: the header that asks for the user, or the end
/// of the login.
pub open spec fn token_step(outcome: TokenOutcome) -> Result<Seq<char>, RejectionView> {
    match token_error(outcome) {
        Some(v) => Err(v),
        None => Ok("Bearer "@ + outcome->Granted_0.access_token@),
    }
}

/// Goes on once a token was asked for: the `Authorization` header that asks for the
/// user, or the end of the login.
pub fn after_token(outcome: &TokenOutcome) -> (r: Result<String, Rejection>)
    ensures
        match token_error(*outcome) {
            Some(v) => r is Err && r->Err_0@ == v,
            None => r is Ok && r->Ok_0@ == "Bearer "@ + outcome->Granted_0.access_token@,
        },
        match token_step(*outcome) {
            Ok(header) => r is Ok && r->Ok_0@ == header,
            Err(v) => r is Err && r->Err_0@ == v,
        },
{
    match outcome {
        TokenOutcome::Unreachable => Err(reject(502, "Failed to request access token")),
        TokenOutcome::Refused => Err(reject(400, "Invalid code")),
        TokenOutcome::Unreadable => Err(reject(502, "Failed to parse token response")),
        TokenOutcome::Granted(t) => {
            let token = t.access_token.as_str();
            if !scope_contains(t.scope.as_str(), REQUIRED_SCOPE) {
                return Err(reject_and_revoke(400, "Insufficient OAuth scope", token));
            }
            if !text::eq_ignore_ascii_case(t.token_type.as_str(), "Bearer") {
                return Err(reject_and_revoke(502, "Unexpected token type", token));
            }
            Ok(text::concat("Bearer ", token))
        },
    }
}

/// The users that a comma-separated list names.
pub open spec fn listed_ids(list: Seq<char>) -> Seq<Seq<char>> {
    text::split_on(list, |c: char| c == ',').map_values(|p: Seq<char>| text::trimmed(p)).filter(
        |p: Seq<char>| p.len() > 0,
    )
}

/// The users that may log in, where they are listed.
pub open spec fn whitelist(config: Config) -> Option<Seq<Seq<char>>> {
    match text::option_view(config.discord_allowed_user_ids) {
        Some(list) => if listed_ids(list).len() > 0 {
            Some(listed_ids(list))
        } else {
            None
        },
        None => None,
    }
}

/// Whether a list names anybody, and whether it names this user.
fn look_up_listed(list: &str, user_id: &str) -> (r: (bool, bool))
    ensures
        r.0 == (listed_ids(list@).len() > 0),
        r.1 == listed_ids(list@).contains(user_id@),
{
    let parts = text::split_char(list, ',');
    let ghost pieces = text::split_on(list@, |c: char| c == ',').map_values(
        |p: Seq<char>| text::trimmed(p),
    );
    let ghost p = |p: Seq<char>| p.len() > 0;
    let mut any = false;
    let mut found = false;
    let mut i: usize = 0;
    proof {
        reveal(Seq::filter);
        assert(pieces.take(0) =~= Seq::<Seq<char>>::empty());
        assert(pieces.take(0).filter(p) =~= Seq::<Seq<char>>::empty());
    }
    while i < parts.len()
        invariant
            text::views(parts@) == text::split_on(list@, |c: char| c == ','),
            pieces == text::split_on(list@, |c: char| c == ',').map_values(
                |p: Seq<char>| text::trimmed(p),
            ),
            p == (|p: Seq<char>| p.len() > 0),
            i <= parts@.len(),
            any == (pieces.take(i as int).filter(p).len() > 0),
            found == pieces.take(i as int).filter(p).contains(user_id@),
        decreases parts@.len() - i,
    {
        let piece = text::trim(parts[i]);
        let ghost before = pieces.take(i as int).filter(p);
        proof {
            assert(text::views(parts@)[i as int] == parts@[i as int]@);
            assert(pieces[i as int] == piece@);
            crate::sync::lemma_filter_step(pieces, i as int, p);
        }
        if piece.unicode_len() > 0 {
            any = true;
            let ghost after = before.push(piece@);
            proof {
                if before.contains(user_id@) {
                    let k = choose|k: int| 0 <= k < before.len() && before[k] == user_id@;
                    assert(after[k] == user_id@);
                }
                assert(after[before.len() as int] == piece@);
                if after.contains(user_id@) && piece@ != user_id@ {
                    let k = choose|k: int| 0 <= k < after.len() && after[k] == user_id@;
                    assert(before[k] == user_id@);
                }
            }
            if text::str_eq(piece, user_id) {
                found = true;
            }
        }
        i = i + 1;
    }
    assert(text::views(parts@).len() == parts@.len());
    assert(pieces.take(i as int) =~= pieces);
    (any, found)
}

/// Why a login ends once the user was asked for, or `None` if it goes on.
pub open spec fn user_error(
    config: Config,
    token: Seq<char>,
    outcome: UserOutcome,
) -> Option<RejectionView> {
    match outcome {
        UserOutcome::Unreachable => Some(revoking(502, "Failed to request user"@, token)),
        UserOutcome::Refused => Some(revoking(502, "Failed to request user"@, token)),
        UserOutcome::Unreadable => Some(revoking(502, "Failed to parse user response"@, token)),
        UserOutcome::Known(user) => match whitelist(config) {
            Some(list) => if list.contains(user.id@) {
                None
            } else {
                Some(revoking(403, "User is not whitelisted"@, token))
            },
            None => if config.discord_allow_all_users {
                None
            } else {
                Some(revoking(503, "Server is not configured to accept OAuth"@, token))
            },
        },
    }
}

/// What follows once the user was asked for: the user that a secret is issued to, or the
/// end of the login.
pub open spec fn user_step(config: Config, token: Seq<char>, outcome: UserOutcome) -> Result<
    Seq<char>,
    RejectionView,
> {
    match user_error(config, token, outcome) {
        Some(v) => Err(v),
        None => Ok(outcome->Known_0.id@),
    }
}

/// Goes on once the user was asked for: the user that a secret is issued to, or the
/// end of the login.
pub fn after_user(config: &Config, access_token: &str, outcome: &UserOutcome) -> (r: Result<
    String,
    Rejection,
>)
    ensures
        match user_error(*config, access_token@, *outcome) {
            Some(v) => r is Err && r->Err_0@ == v,
            None => r is Ok && r->Ok_0@ == outcome->Known_0.id@,
        },
        match user_step(*config, access_token@, *outcome) {
            Ok(id) => r is Ok && r->Ok_0@ == id,
            Err(v) => r is Err && r->Err_0@ == v,
        },
{
    match outcome {
        UserOutcome::Unreachable => Err(
            reject_and_revoke(502, "Failed to request user", access_token),
        ),
        UserOutcome::Refused => Err(reject_and_revoke(502, "Failed to request user", access_token)),
        UserOutcome::Unreadable => Err(
            reject_and_revoke(502, "Failed to parse user response", access_token),
        ),
        UserOutcome::Known(user) => {
            let (listed, found) = match &config.discord_allowed_user_ids {
                Some(list) => look_up_listed(list.as_str(), user.id.as_str()),
                None => (false, false),
            };
            if listed {
                if !found {
                    return Err(reject_and_revoke(403, "User is not whitelisted", access_token));
                }
            } else if !config.discord_allow_all_users {
                return Err(
                    reject_and_revoke(
                        503,
                        "Server is not configured to accept OAuth",
                        access_token,
                    ),
                );
            }
            Ok(user.id.clone())
        },
    }
}

/// The reply to a login whose user is allowed.
pub open spec fn secret_reply(secret: Result<Seq<char>, DbFailure>) -> ReplyView {
    match secret {
        Ok(s) => reply::plain_reply(200, ReplyBodyView::Secret(s)),
        Err(_) => reply::error_view(500, "Failed to issue authentication"@),
    }
}

/// What a result of issuing a secret holds.
pub open spec fn secret_view(secret: Result<String, DbFailure>) -> Result<Seq<char>, DbFailure> {
    match secret {
        Ok(s) => Ok(s@),
        Err(e) => Err(e),
    }
}

/// The end of a login whose user is allowed: the reply, the token that is given
/// back, and whether the reply waits for that.
#[derive(Debug)]
pub struct Ending {
    pub reply: Reply,
    pub revoke: String,
    pub wait: bool,
}

/// What [`Ending`] holds.
pub struct EndingView {
    pub reply: ReplyView,
    pub revoke: Seq<char>,
    pub wait: bool,
}

impl View for Ending {
    type V = EndingView;

    open spec fn view(&self) -> EndingView {
        EndingView { reply: self.reply@, revoke: self.revoke@, wait: self.wait }
    }
}

/// The end of a login whose user is allowed.
pub open spec fn ending(token: Seq<char>, secret: Result<Seq<char>, DbFailure>) -> EndingView {
    EndingView { reply: secret_reply(secret), revoke: token, wait: secret is Ok }
}

/// Ends a login whose user is allowed. The token is given back in any case.
pub fn after_secret(access_token: String, secret: Result<String, DbFailure>) -> (r: Ending)
    ensures
        r.reply@ == secret_reply(secret_view(secret)),
        r.revoke == access_token,
        r.wait == secret is Ok,
        r@ == ending(access_token@, secret_view(secret)),
{
    match secret {
        Ok(s) => Ending {
            reply: reply::plain(200, ReplyBody::Secret(s)),
            revoke: access_token,
            wait: true,
        },
        Err(_) => Ending {
            reply: reply::err(500, "Failed to issue authentication"),
            revoke: access_token,
            wait: false,
        },
    }
}

/// The form that gives a token back.
pub open spec fn revoke_form(config: Config, token: Seq<char>) -> Seq<(Seq<char>, Seq<char>)> {
    seq![
        ("client_id"@, config.discord_client_id@),
        ("client_secret"@, config.discord_client_secret@),
        ("token"@, token),
        ("token_type_hint"@, "access_token"@),
    ]
}

/// The form that gives a token back.
pub fn revoke_discord_token(config: &Config, access_token: &str) -> (r: Vec<FormField>)
    ensures
        form_view(r@) == revoke_form(*config, access_token@),
{
    let mut form: Vec<FormField> = Vec::new();
    form.push(FormField { name: "client_id", value: config.discord_client_id.clone() });
    form.push(FormField { name: "client_secret", value: config.discord_client_secret.clone() });
    form.push(FormField { name: "token", value: access_token.to_owned() });
    form.push(FormField { name: "token_type_hint", value: "access_token".to_owned() });
    assert(form_view(form@) =~= revoke_form(*config, access_token@));
    form
}

/// The reply to a whole login, given what each request in it came to.
pub open spec fn login_reply(
    config: Config,
    params: OAuthCallbackView,
    token: TokenOutcome,
    user: UserOutcome,
    secret: Result<Seq<char>, DbFailure>,
) -> ReplyView {
    if start_error(params) is Some {
        start_error(params)->0
    } else if token_error(token) is Some {
        token_error(token)->0.reply
    } else if user_error(config, token->Granted_0.access_token@, user) is Some {
        user_error(config, token->Granted_0.access_token@, user)->0.reply
    } else {
        secret_reply(secret)
    }
}

/// A secret is only handed out to a user whom Discord named for a bearer token with
/// the scope that is needed, and who is listed, or anybody is allowed where nobody
/// is listed.
pub proof fn law_secret_is_for_allowed_users_only(
    config: Config,
    params: OAuthCallbackView,
    token: TokenOutcome,
    user: UserOutcome,
    secret: Result<Seq<char>, DbFailure>,
)
    requires
        login_reply(config, params, token, user, secret).body is Secret,
    ensures
        params.error is None,
        params.code is Some && params.code->0.len() > 0,
        token is Granted,
        text::words(token->Granted_0.scope@).contains(REQUIRED_SCOPE@),
        text::lowered(token->Granted_0.token_type@) == text::lowered("Bearer"@),
        user is Known,
        match whitelist(config) {
            Some(list) => list.contains(user->Known_0.id@),
            None => config.discord_allow_all_users,
        },
        secret is Ok,
        login_reply(config, params, token, user, secret) == reply::plain_reply(
            200,
            ReplyBodyView::Secret(secret->Ok_0),
        ),
{
}

/// Whoever is refused after Discord granted a token has that token given back.
pub proof fn law_refusal_gives_the_token_back(
    config: Config,
    token: DiscordAccessTokenResult,
    user: UserOutcome,
)
    ensures
        token_error(TokenOutcome::Granted(token)) matches Some(v) ==> v.revoke == Some(
            token.access_token@,
        ),
        user_error(config, token.access_token@, user) matches Some(v) ==> v.revoke == Some(
            token.access_token@,
        ),
{
}

/// Without a list of users and without leave for everybody nobody can log in.
pub proof fn law_unconfigured_server_lets_nobody_in(
    config: Config,
    params: OAuthCallbackView,
    token: TokenOutcome,
    user: UserOutcome,
    secret: Result<Seq<char>, DbFailure>,
)
    requires
        whitelist(config) is None,
        !config.discord_allow_all_users,
    ensures
        login_reply(config, params, token, user, secret).status != 200,
{
}

/// A list names a user just if, between two commas or an end of the list, the user
/// stands alone or with white space around. Nobody is named by an empty text.
pub proof fn law_list_names_what_stands_between_commas(list: Seq<char>, id: Seq<char>)
    ensures
        listed_ids(list).contains(id) <==> id.len() > 0 && exists|a: int, b: int|
            #[trigger] text::between_commas(list, a, b) && text::trimmed(list.subrange(a, b)) == id,
        listed_ids(list).len() == 0 <==> forall|a: int, b: int| #[trigger]
            text::between_commas(list, a, b) ==> text::trimmed(list.subrange(a, b)).len() == 0,
{
    let sep = |c: char| c == ',';
    let keep = |p: Seq<char>| p.len() > 0;
    let parts = text::split_on(list, sep);
    let pieces = parts.map_values(|p: Seq<char>| text::trimmed(p));
    let ids = listed_ids(list);
    broadcast use vstd::seq_lib::group_filter_ensures;

    assert(ids == pieces.filter(keep));
    if ids.contains(id) {
        pieces.lemma_filter_contains_rev(keep, id);
        assert(keep(id));
        let i = choose|i: int| 0 <= i < pieces.len() && pieces[i] == id;
        assert(parts.contains(parts[i]));
        text::law_list_items_stand_between_commas(list, parts[i]);
        let (a, b) = choose|a: int, b: int|
            #[trigger] text::between_commas(list, a, b) && parts[i] == list.subrange(a, b);
        assert(text::between_commas(list, a, b) && text::trimmed(list.subrange(a, b)) == id);
    }
    assert forall|a: int, b: int| #[trigger]
        text::between_commas(list, a, b) && text::trimmed(list.subrange(a, b)).len()
            > 0 implies ids.contains(text::trimmed(list.subrange(a, b))) by {
        let part = list.subrange(a, b);
        text::law_list_items_stand_between_commas(list, part);
        let i = choose|i: int| 0 <= i < parts.len() && parts[i] == part;
        assert(pieces[i] == text::trimmed(part));
        assert(keep(pieces[i]));
        assert(pieces.contains(pieces[i]));
    }
    if ids.len() > 0 {
        let first = ids[0];
        assert(ids.contains(first));
        pieces.lemma_filter_contains_rev(keep, first);
        assert(keep(first));
        let i = choose|i: int| 0 <= i < pieces.len() && pieces[i] == first;
        assert(parts.contains(parts[i]));
        text::law_list_items_stand_between_commas(list, parts[i]);
        let (a, b) = choose|a: int, b: int|
            #[trigger] text::between_commas(list, a, b) && parts[i] == list.subrange(a, b);
        assert(text::between_commas(list, a, b) && text::trimmed(list.subrange(a, b)).len() > 0);
    }
}

/// Whether a text says `Bearer`, up to the case of letters.
pub open spec fn says_bearer(s: Seq<char>) -> bool {
    &&& s.len() == 6
    &&& s[0] == 'B' || s[0] == 'b'
    &&& s[1] == 'E' || s[1] == 'e'
    &&& s[2] == 'A' || s[2] == 'a'
    &&& s[3] == 'R' || s[3] == 'r'
    &&& s[4] == 'E' || s[4] == 'e'
    &&& s[5] == 'R' || s[5] == 'r'
}

/// A token lets a login go on just if one of the words of its scope is `identify` and
/// its type is `Bearer`, up to the case of letters. Else it is given back; a missing
/// scope is answered before a wrong type.
pub proof fn law_token_needs_scope_and_type(token: DiscordAccessTokenResult)
    ensures
        ({
            let scope = token.scope@;
            let identifies = exists|a: int, b: int| #[trigger]
                text::between_white_space(scope, a, b) && scope.subrange(a, b) == "identify"@;
            let bearer = says_bearer(token.token_type@);
            let error = token_error(TokenOutcome::Granted(token));
            &&& error is None <==> identifies && bearer
            &&& !identifies ==> error->0.reply.status == 400 && error->0.reply.body
                == ReplyBodyView::Error("Insufficient OAuth scope"@)
            &&& identifies && !bearer ==> error->0.reply.status == 502 && error->0.reply.body
                == ReplyBodyView::Error("Unexpected token type"@)
        }),
{
    let scope = token.scope@;
    let kind = token.token_type@;
    reveal_strlit("identify");
    reveal_strlit("Bearer");
    text::law_words_stand_between_white_space(scope, "identify"@);
    assert((exists|a: int, b: int| #[trigger]
        text::between_white_space(scope, a, b) && scope.subrange(a, b) == "identify"@) <==> (exists|
        a: int,
        b: int,
    | #[trigger]
        text::between_white_space(scope, a, b) && "identify"@ == scope.subrange(a, b)));
    lemma_bearer(kind);
}

proof fn lemma_code(a: char, b: char)
    ensures
        a as u32 == b as u32 ==> a == b,
{
}

proof fn lemma_bearer(kind: Seq<char>)
    ensures
        text::lowered(kind) == text::lowered("Bearer"@) <==> says_bearer(kind),
{
    let b = "Bearer"@;
    reveal_strlit("Bearer");
    text::law_case_is_that_of_ascii_letters(kind, b);
    assert(b.len() == 6);
    assert(b[0] == 'B' && b[1] == 'e' && b[2] == 'a' && b[3] == 'r' && b[4] == 'e' && b[5] == 'r');
    if text::lowered(kind) == text::lowered(b) {
        lemma_code(kind[0], 'b');
        assert(kind[0] == 'B' || kind[0] == 'b');
        assert(kind[1] == 'e' || kind[1] == 'E');
        assert(kind[2] == 'a' || kind[2] == 'A');
        assert(kind[3] == 'r' || kind[3] == 'R');
        assert(kind[4] == 'e' || kind[4] == 'E');
        assert(kind[5] == 'r' || kind[5] == 'R');
    }
    if says_bearer(kind) {
        assert forall|i: int| 0 <= i < kind.len() implies {
            ||| #[trigger] kind[i] == b[i]
            ||| 'A' <= kind[i] <= 'Z' && b[i] as u32 == kind[i] as u32 + 32
            ||| 'A' <= b[i] <= 'Z' && kind[i] as u32 == b[i] as u32 + 32
        } by {
            assert(i == 0 || i == 1 || i == 2 || i == 3 || i == 4 || i == 5);
        }
    }
}

/// A listed user gets the secret, whatever is said of users who are not listed: where
/// the login comes with a code and no error, Discord grants a bearer token with the
/// scope `identify` and names a user, that user stands in the list between two commas,
/// with nothing but white space around, and the secret was stored, the reply is that
/// secret, with status 200 and no headers.
pub proof fn law_listed_user_gets_the_secret(
    config: Config,
    params: OAuthCallbackView,
    token: DiscordAccessTokenResult,
    user: DiscordUserResult,
    secret: Seq<char>,
    word: (int, int),
    place: (int, int),
    left: Seq<char>,
    right: Seq<char>,
)
    requires
        params.error is None,
        params.code is Some && params.code->0.len() > 0,
        text::between_white_space(token.scope@, word.0, word.1),
        token.scope@.subrange(word.0, word.1) == "identify"@,
        says_bearer(token.token_type@),
        config.discord_allowed_user_ids is Some,
        text::between_commas(config.discord_allowed_user_ids->0@, place.0, place.1),
        config.discord_allowed_user_ids->0@.subrange(place.0, place.1) == left + user.id@ + right,
        forall|i: int| 0 <= i < left.len() ==> text::whitespace(#[trigger] left[i]),
        forall|i: int| 0 <= i < right.len() ==> text::whitespace(#[trigger] right[i]),
        user.id@.len() > 0,
        !text::whitespace(user.id@[0]) && !text::whitespace(user.id@.last()),
    ensures
        login_reply(
            config,
            params,
            TokenOutcome::Granted(token),
            UserOutcome::Known(user),
            Ok(secret),
        ) == (ReplyView { status: 200, headers: seq![], body: ReplyBodyView::Secret(secret) }),
{
    let list = config.discord_allowed_user_ids->0@;
    law_token_needs_scope_and_type(token);
    text::law_trimming_takes_off_white_space(left, user.id@, right);
    law_list_names_what_stands_between_commas(list, user.id@);
    assert(listed_ids(list).contains(user.id@));
}

/// What becomes of a user whom Discord named: if the list names anybody, just those
/// whom it names are let in, and all others are told that they are not on it; if it
/// names nobody, or there is none, all or none are let in, as the configuration says.
pub proof fn law_who_is_let_in(config: Config, token: Seq<char>, user: DiscordUserResult)
    ensures
        ({
            let error = user_error(config, token, UserOutcome::Known(user));
            match config.discord_allowed_user_ids {
                Some(list) => {
                    let anybody = exists|a: int, b: int| #[trigger]
                        text::between_commas(list@, a, b) && text::trimmed(
                            list@.subrange(a, b),
                        ).len() > 0;
                    let this_one = user.id@.len() > 0 && exists|a: int, b: int| #[trigger]
                        text::between_commas(list@, a, b) && text::trimmed(list@.subrange(a, b))
                            == user.id@;
                    &&& anybody ==> (error is None <==> this_one)
                    &&& anybody && !this_one ==> error->0.reply.status == 403
                        && error->0.reply.body == ReplyBodyView::Error("User is not whitelisted"@)
                    &&& !anybody ==> (error is None <==> config.discord_allow_all_users)
                    &&& !anybody && !config.discord_allow_all_users ==> error->0.reply.status == 503
                },
                None => {
                    &&& error is None <==> config.discord_allow_all_users
                    &&& !config.discord_allow_all_users ==> error->0.reply.status == 503
                },
            }
        }),
{
    match config.discord_allowed_user_ids {
        Some(list) => {
            law_list_names_what_stands_between_commas(list@, user.id@);
        },
        None => {},
    }
}

/// A login whose user is let in is answered with the secret, or with a failure of the
/// server where none could be stored; one that Discord does not help along is answered
/// with what went wrong, and never with a secret.
pub proof fn law_login_needs_every_step(
    config: Config,
    params: OAuthCallbackView,
    token: TokenOutcome,
    user: UserOutcome,
    secret: Result<Seq<char>, DbFailure>,
)
    ensures
        ({
            let r = login_reply(config, params, token, user, secret);
            &&& params.error is Some || params.code is None || params.code->0.len() == 0
                ==> r.status == 400
            &&& params.error is None && params.code is Some && params.code->0.len() > 0 ==> {
                &&& token is Unreachable || token is Unreadable ==> r.status == 502
                &&& token is Refused ==> r.status == 400
            }
            &&& r.status == 200 ==> params.error is None && params.code is Some && token is Granted
                && user is Known && secret is Ok && r.body == ReplyBodyView::Secret(secret->Ok_0)
            &&& r.body is Secret ==> r.status == 200
            &&& start_error(params) is None && token is Granted && token_error(token) is None ==> {
                &&& !(user is Known) ==> r.status == 502
                &&& user is Known && user_error(config, token->Granted_0.access_token@, user) is None
                    && secret is Err ==> r.status == 500
            }
        }),
{
}

/// The form that asks for a token names the client, its secret, the code and the address
/// that Discord sends the user back to; the form that gives a token back names the
/// client, its secret and that token. No other code or token gives the same form.
pub proof fn law_forms_carry_what_they_are_for(
    config: Config,
    code: Seq<char>,
    token: Seq<char>,
    other: Seq<char>,
)
    ensures
        token_form(config, code).contains(("client_id"@, config.discord_client_id@)),
        token_form(config, code).contains(("client_secret"@, config.discord_client_secret@)),
        token_form(config, code).contains(("code"@, code)),
        token_form(config, code).contains(("grant_type"@, "authorization_code"@)),
        token_form(config, code).contains(
            ("redirect_uri"@, config.server_fqdn@ + "/v1/oauth/callback"@),
        ),
        token_form(config, code).len() == 5,
        revoke_form(config, token).contains(("client_id"@, config.discord_client_id@)),
        revoke_form(config, token).contains(("client_secret"@, config.discord_client_secret@)),
        revoke_form(config, token).contains(("token"@, token)),
        revoke_form(config, token).contains(("token_type_hint"@, "access_token"@)),
        revoke_form(config, token).len() == 4,
        code != other ==> token_form(config, code) != token_form(config, other),
        token != other ==> revoke_form(config, token) != revoke_form(config, other),
{
    let f = token_form(config, code);
    let g = revoke_form(config, token);
    assert(f[0].0 == "client_id"@ && f[1].0 == "client_secret"@ && f[2].0 == "grant_type"@);
    assert(f[3] == ("code"@, code));
    assert(f[4].0 == "redirect_uri"@);
    assert(g[0].0 == "client_id"@ && g[1].0 == "client_secret"@);
    assert(g[2] == ("token"@, token));
    assert(g[3].0 == "token_type_hint"@);
    assert(token_form(config, other)[3].1 == other);
    assert(revoke_form(config, other)[2].1 == other);
}

/// Each step of a login hands on what the step before came to: the code goes into the form
/// that asks for a token, the token into the header that asks for the user, and the secret
/// is issued to the user whom Discord named. Whatever the end, the token is given back, and
/// the reply waits for that only where it carries a secret.
pub proof fn law_login_hands_on_what_it_got(
    config: Config,
    params: OAuthCallbackView,
    token: DiscordAccessTokenResult,
    user: DiscordUserResult,
    secret: Result<Seq<char>, DbFailure>,
)
    ensures
        params.error is None && params.code is Some && params.code->0.len() > 0 ==> start_step(
            config,
            params,
        ) is Ok && start_step(config, params)->Ok_0.contains(("code"@, params.code->0)),
        params.error is Some || params.code is None || params.code->0.len() == 0 ==> start_step(
            config,
            params,
        ) is Err,
        token_step(TokenOutcome::Granted(token)) matches Ok(header) ==> header == "Bearer "@
            + token.access_token@,
        token_step(TokenOutcome::Granted(token)) matches Err(v) ==> v.revoke == Some(
            token.access_token@,
        ),
        user_step(config, token.access_token@, UserOutcome::Known(user)) matches Ok(id) ==> id
            == user.id@,
        user_step(config, token.access_token@, UserOutcome::Known(user)) matches Err(v) ==> v.revoke
            == Some(token.access_token@),
        ending(token.access_token@, secret).revoke == token.access_token@,
        ending(token.access_token@, secret).wait <==> ending(
            token.access_token@,
            secret,
        ).reply.status == 200,
        ending(token.access_token@, secret).reply.status == 200 <==> secret is Ok,
        secret matches Ok(s) ==> ending(token.access_token@, secret).reply.body
            == ReplyBodyView::Secret(s),
{
    if start_step(config, params) is Ok {
        assert(token_form(config, params.code->0)[3] == ("code"@, params.code->0));
    }
}

} // verus!
