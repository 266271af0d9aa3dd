//! Who a request comes from.
use crate::base64_text;
use crate::headers;
use crate::reply::{self, Reply, ReplyBodyView, ReplyView};
use crate::text;
use crate::types::data::DbFailure;
use vstd::prelude::*;
use vstd::slice::slice_subrange;
use vstd::utf8::{decode_utf8, encode_utf8, valid_utf8};

verus! {

/// The longest `Authorization` header that is looked at, in bytes.
pub const MAX_AUTH_HEADER_LEN: usize = 256;

/// The longest token, in bytes once decoded.
pub const MAX_DECODED_TOKEN_LEN: usize = 192;

/// Whether two byte strings are equal, in a time that depends on their lengths only.
pub fn constant_time_eq(a: &[u8], b: &[u8]) -> (r: bool)
    ensures
        r == (a@ == b@),
{
    if a.len() != b.len() {
        return false;
    }
    let mut difference: u8 = 0;
    let mut i: usize = 0;
    while i < a.len()
        invariant
            a@.len() == b@.len(),
            i <= a@.len(),
            difference == 0 <==> (forall|j: int| 0 <= j < i ==> a@[j] == b@[j]),
        decreases a@.len() - i,
    {
        let x: u8 = a[i];
        let y: u8 = b[i];
        assert((difference | (x ^ y)) == 0 <==> difference == 0 && x == y) by (bit_vector);
        difference = difference | (x ^ y);
        i = i + 1;
    }
    if difference == 0 {
        assert(a@ =~= b@);
    }
    difference == 0
}

/// `std::str::from_utf8`: the text of the bytes, if they are valid UTF-8.
#[verifier::external_body]
fn utf8_text(bytes: &[u8]) -> (r: Option<String>)
    ensures
        r is Some <==> valid_utf8(bytes@),
        r matches Some(s) ==> s@ == decode_utf8(bytes@),
{
    std::str::from_utf8(bytes).ok().map(str::to_owned)
}

/// The token of an `Authorization` header, with or without `Bearer` before it.
pub open spec fn token_of(header: Option<Seq<u8>>) -> Option<Seq<char>> {
    match headers::optional_text(header) {
        Some(s) => if s.len() == 0 || encode_utf8(s).len() > MAX_AUTH_HEADER_LEN {
            None
        } else if "Bearer "@.is_prefix_of(s) {
            Some(s.skip("Bearer "@.len() as int))
        } else {
            Some(s)
        },
        None => None,
    }
}

fn unauthorized() -> (r: Reply)
    ensures
        r@ == reply::error_view(401, "Unauthorized"@),
{
    reply::err(401, "Unauthorized")
}

fn server_error() -> (r: Reply)
    ensures
        r@ == reply::error_view(500, "Server misconfigured"@),
{
    reply::err(500, "Server misconfigured")
}

/// Takes the token out of a request, or refuses the request.
pub fn auth_middleware(header: &Option<Vec<u8>>) -> (r: Result<String, Reply>)
    ensures
        match token_of(headers::bytes_view(*header)) {
            Some(token) => r is Ok && r->Ok_0@ == token,
            None => r is Err && r->Err_0@ == reply::error_view(401, "Unauthorized"@),
        },
{
    match headers::text_of(header) {
        Some(s) => {
            if s.as_str().unicode_len() == 0 || s.as_str().as_bytes().len() > MAX_AUTH_HEADER_LEN {
                return Err(unauthorized());
            }
            match text::strip_prefix(s.as_str(), "Bearer ") {
                Some(token) => Ok(token.to_owned()),
                None => Ok(s),
            }
        },
        None => Err(unauthorized()),
    }
}

/// What happens to a request once the cache was asked about its token.
#[derive(Debug)]
pub enum AuthStep {
    /// The request comes from this user.
    Proceed(String),
    /// The token has to be checked.
    Check,
    Reject(Reply),
}

/// What [`AuthStep`] holds.
pub enum AuthStepView {
    Proceed(Seq<char>),
    Check,
    Reject(ReplyView),
}

impl View for AuthStep {
    type V = AuthStepView;

    open spec fn view(&self) -> AuthStepView {
        match *self {
            AuthStep::Proceed(user_id) => AuthStepView::Proceed(user_id@),
            AuthStep::Check => AuthStepView::Check,
            AuthStep::Reject(v) => AuthStepView::Reject(v@),
        }
    }
}

/// What follows once the cache was asked.
pub open spec fn cache_step(hit: Option<Seq<char>>, has_database: bool) -> AuthStepView {
    match hit {
        Some(user_id) => AuthStepView::Proceed(user_id),
        None => if has_database {
            AuthStepView::Check
        } else {
            AuthStepView::Reject(reply::error_view(500, "Server misconfigured"@))
        },
    }
}

/// Goes on once the cache was asked. A token that the cache knows is not checked
/// again.
pub fn after_cache(hit: Option<String>, has_database: bool) -> (r: AuthStep)
    ensures
        match hit {
            Some(user_id) => r == AuthStep::Proceed(user_id),
            None => if has_database {
                r is Check
            } else {
                r is Reject && r->Reject_0@ == reply::error_view(500, "Server misconfigured"@)
            },
        },
        r@ == cache_step(text::option_view(hit), has_database),
{
    match hit {
        Some(user_id) => AuthStep::Proceed(user_id),
        None => if has_database {
            AuthStep::Check
        } else {
            AuthStep::Reject(server_error())
        },
    }
}

/// The two parts of a token.
#[derive(Debug)]
pub struct TokenClaim {
    pub secret: String,
    pub user_id: String,
}

/// What [`TokenClaim`] holds.
pub struct TokenClaimView {
    pub secret: Seq<char>,
    pub user_id: Seq<char>,
}

impl View for TokenClaim {
    type V = TokenClaimView;

    open spec fn view(&self) -> TokenClaimView {
        TokenClaimView { secret: self.secret@, user_id: self.user_id@ }
    }
}

/// What the bytes of a token claim: text with a secret before the first colon and a
/// user behind it.
pub open spec fn claim_of_bytes(bytes: Seq<u8>) -> Option<TokenClaimView> {
    let s = decode_utf8(bytes);
    let at = text::position(s, ':');
    if valid_utf8(bytes) && s.contains(':') && at > 0 && at + 1 < s.len() {
        Some(TokenClaimView { secret: s.take(at), user_id: s.skip(at + 1) })
    } else {
        None
    }
}

/// What a token claims: it is the base64 text of at most so many bytes that make a
/// claim.
pub open spec fn claim_of(token: Seq<char>) -> Option<TokenClaimView> {
    if base64_text::is_short_base64(token, MAX_DECODED_TOKEN_LEN as nat) {
        claim_of_bytes(
            choose|b: Seq<u8>|
                base64_text::base64(b) == token && b.len() <= MAX_DECODED_TOKEN_LEN as nat,
        )
    } else {
        None
    }
}

/// Reads what a token claims.
pub fn read_token(token: &str) -> (r: Option<TokenClaim>)
    ensures
        match claim_of(token@) {
            Some(claim) => r is Some && r->0@ == claim,
            None => r is None,
        },
{
    let mut buf: Vec<u8> = Vec::new();
    buf.resize(MAX_DECODED_TOKEN_LEN, 0);
    let n: usize = match base64_text::decode_into(token, &mut buf) {
        Some(n) => n,
        None => {
            return None;
        },
    };
    let decoded = slice_subrange(buf.as_slice(), 0, n);
    proof {
        let chosen = choose|b: Seq<u8>|
            base64_text::base64(b) == token@ && b.len() <= MAX_DECODED_TOKEN_LEN as nat;
        assert(decoded@ =~= buf@.take(n as int));
        base64_text::lemma_one_to_one(chosen, decoded@);
    }
    let token_text = match utf8_text(decoded) {
        Some(s) => s,
        None => {
            return None;
        },
    };
    proof {
        text::lemma_position(token_text@, ':');
    }
    match text::split_once(token_text.as_str(), ':') {
        Some((secret, user_id)) => {
            if user_id.unicode_len() == 0 || secret.unicode_len() == 0 {
                return None;
            }
            Some(TokenClaim { secret: secret.to_owned(), user_id: user_id.to_owned() })
        },
        None => None,
    }
}

/// The user that a claim is good for, where `stored` is what was found as the secret of
/// that user.
pub open spec fn accepted_user(
    claim: TokenClaimView,
    stored: Result<Option<Seq<char>>, DbFailure>,
) -> Option<Seq<char>> {
    match stored {
        Ok(Some(secret)) => if secret == claim.secret {
            Some(claim.user_id)
        } else {
            None
        },
        _ => None,
    }
}

/// What the result of looking up a secret holds.
pub open spec fn found_secret(stored: Result<Option<String>, DbFailure>) -> Result<
    Option<Seq<char>>,
    DbFailure,
> {
    match stored {
        Ok(secret) => Ok(text::option_view(secret)),
        Err(e) => Err(e),
    }
}

/// The user that a claim is good for, once the secret of that user was looked up.
pub fn verify_token(claim: TokenClaim, stored: &Result<Option<String>, DbFailure>) -> (r: Option<
    String,
>)
    ensures
        match *stored {
            Ok(Some(secret)) => if secret@ == claim.secret@ {
                r == Some(claim.user_id)
            } else {
                r is None
            },
            _ => r is None,
        },
        text::option_view(r) == accepted_user(claim@, found_secret(*stored)),
{
    match stored {
        Ok(Some(secret)) => {
            proof {
                if encode_utf8(secret@) == encode_utf8(claim.secret@) {
                    law_secrets_with_equal_bytes_are_equal(secret@, claim.secret@);
                }
            }
            if constant_time_eq(claim.secret.as_str().as_bytes(), secret.as_str().as_bytes()) {
                Some(claim.user_id)
            } else {
                None
            }
        },
        _ => None,
    }
}

/// What follows once a token was checked.
pub open spec fn check_step(verified: Option<Seq<char>>) -> Result<Seq<char>, ReplyView> {
    match verified {
        Some(user_id) => Ok(user_id),
        None => Err(reply::error_view(401, "Unauthorized"@)),
    }
}

/// Goes on once a token was checked: the user, who is then remembered for the token,
/// or the refusal of the request, which is not remembered.
pub fn after_check(verified: Option<String>) -> (r: Result<String, Reply>)
    ensures
        match verified {
            Some(user_id) => r == Ok::<String, Reply>(user_id),
            None => r is Err && r->Err_0@ == reply::error_view(401, "Unauthorized"@),
        },
        match check_step(text::option_view(verified)) {
            Ok(user_id) => r is Ok && r->Ok_0@ == user_id,
            Err(v) => r is Err && r->Err_0@ == v,
        },
{
    match verified {
        Some(user_id) => Ok(user_id),
        None => Err(unauthorized()),
    }
}

/// A remembered token and its user.
#[derive(Debug)]
pub struct CachedToken {
    pub token: String,
    pub user_id: String,
}

/// The tokens that are remembered for a user, in their order.
pub open spec fn tokens_of_user(entries: Seq<CachedToken>, user_id: Seq<char>) -> Seq<Seq<char>> {
    entries.filter(|e: CachedToken| e.user_id@ == user_id).map_values(|e: CachedToken| e.token@)
}

/// The tokens to forget for a user, in the order in which they are remembered.
pub fn invalidate_user_cache(entries: &Vec<CachedToken>, user_id: &str) -> (r: Vec<String>)
    ensures
        text::string_views(r@) == entries@.filter(
            |e: CachedToken| e.user_id@ == user_id@,
        ).map_values(|e: CachedToken| e.token@),
        text::string_views(r@) == tokens_of_user(entries@, user_id@),
{
    let ghost p = |e: CachedToken| e.user_id@ == user_id@;
    let ghost f = |e: CachedToken| e.token@;
    let mut out: Vec<String> = Vec::new();
    let mut i: usize = 0;
    proof {
        reveal(Seq::filter);
        assert(entries@.take(0) =~= Seq::<CachedToken>::empty());
        assert(text::string_views(out@) =~= entries@.take(0).filter(p).map_values(f));
    }
    while i < entries.len()
        invariant
            p == (|e: CachedToken| e.user_id@ == user_id@),
            f == (|e: CachedToken| e.token@),
            i <= entries@.len(),
            text::string_views(out@) == entries@.take(i as int).filter(p).map_values(f),
        decreases entries@.len() - i,
    {
        proof {
            crate::sync::lemma_filter_step(entries@, i as int, p);
        }
        if text::str_eq(entries[i].user_id.as_str(), user_id) {
            let ghost before = text::string_views(out@);
            let ghost kept = entries@.take(i as int).filter(p);
            out.push(entries[i].token.clone());
            assert(text::string_views(out@) =~= before.push(entries@[i as int].token@));
            assert(kept.push(entries@[i as int]).map_values(f) =~= kept.map_values(f).push(
                f(entries@[i as int]),
            ));
        }
        i = i + 1;
    }
    assert(entries@.take(i as int) =~= entries@);
    out
}

/// The bytes of the token that a user is issued.
pub open spec fn token_bytes(secret: Seq<char>, user_id: Seq<char>) -> Seq<u8> {
    encode_utf8(secret.push(':') + user_id)
}

/// A token made of a secret and a user claims just these, as long as the secret
/// holds no colon, neither is empty, and the token is not too long.
pub proof fn law_token_claims_what_it_is_made_of(secret: Seq<char>, user_id: Seq<char>)
    requires
        secret.len() > 0,
        user_id.len() > 0,
        !secret.contains(':'),
        token_bytes(secret, user_id).len() <= MAX_DECODED_TOKEN_LEN,
    ensures
        claim_of(base64_text::base64(token_bytes(secret, user_id))) == Some(
            TokenClaimView { secret, user_id },
        ),
{
    let bytes = token_bytes(secret, user_id);
    let token = base64_text::base64(bytes);
    let s = secret.push(':') + user_id;
    assert(base64_text::base64(bytes) == token && bytes.len() <= MAX_DECODED_TOKEN_LEN as nat);
    let chosen = choose|b: Seq<u8>|
        base64_text::base64(b) == token && b.len() <= MAX_DECODED_TOKEN_LEN as nat;
    base64_text::lemma_one_to_one(chosen, bytes);
    vstd::utf8::encode_utf8_valid_utf8(s);
    vstd::utf8::encode_utf8_decode_utf8(s);
    let at = text::position(s, ':');
    text::lemma_position(s, ':');
    assert(s[secret.len() as int] == ':');
    assert(at == secret.len()) by {
        if at < secret.len() {
            assert(s[at] == secret[at]);
            assert(secret.contains(':'));
        }
        if at > secret.len() {
            assert(s.take(at)[secret.len() as int] == ':');
            assert(s.take(at).contains(':'));
        }
    }
    assert(s.take(at) =~= secret);
    assert(s.skip(at + 1) =~= user_id);
}

/// A secret in hexadecimal holds no colon, so that its tokens can be taken apart.
pub proof fn law_hex_secret_holds_no_colon(bytes: Seq<u8>)
    ensures
        !crate::digest::hex_text(bytes).contains(':'),
    decreases bytes.len(),
{
    let s = crate::digest::hex_text(bytes);
    if bytes.len() > 0 {
        law_hex_secret_holds_no_colon(bytes.drop_last());
        let front = crate::digest::hex_text(bytes.drop_last());
        if s.contains(':') {
            let i = choose|i: int| 0 <= i < s.len() && s[i] == ':';
            if i < front.len() {
                assert(front[i] == ':');
            }
        }
    }
}

/// Only the secret that is stored for the user of a claim makes the claim good: two
/// different texts never have the same bytes.
pub proof fn law_secrets_with_equal_bytes_are_equal(a: Seq<char>, b: Seq<char>)
    requires
        encode_utf8(a) == encode_utf8(b),
    ensures
        a == b,
{
    vstd::utf8::encode_utf8_decode_utf8(a);
    vstd::utf8::encode_utf8_decode_utf8(b);
}

/// The token of a header is its text without `Bearer ` before it. A header that is
/// missing, is no text, is empty or is longer than the limit has none.
pub proof fn law_token_stands_behind_bearer(header: Option<Seq<u8>>, token: Seq<char>)
    ensures
        headers::optional_text(header) is None ==> token_of(header) is None,
        headers::optional_text(header) matches Some(s) ==> {
            let short = 0 < s.len() && encode_utf8(s).len() <= 256;
            &&& !short ==> token_of(header) is None
            &&& short && s == "Bearer "@ + token ==> token_of(header) == Some(token)
            &&& short && s == token && (forall|rest: Seq<char>|
                token != #[trigger] ("Bearer "@ + rest)) ==> token_of(header) == Some(token)
        },
{
    if let Some(s) = headers::optional_text(header) {
        let head = "Bearer "@;
        if s == head + token {
            assert(s.subrange(0, head.len() as int) =~= head);
            assert(s.skip(head.len() as int) =~= token);
        }
        if head.is_prefix_of(s) {
            assert(s =~= head + s.skip(head.len() as int));
        }
    }
}

/// The bytes of a token claim a secret and a user just if they are the text of that
/// secret, a colon and that user, where neither is empty and the secret holds no colon.
pub proof fn law_claim_is_split_at_the_first_colon(bytes: Seq<u8>, claim: TokenClaimView)
    ensures
        claim_of_bytes(bytes) == Some(claim) <==> {
            &&& valid_utf8(bytes)
            &&& decode_utf8(bytes) == claim.secret + seq![':'] + claim.user_id
            &&& !claim.secret.contains(':')
            &&& claim.secret.len() > 0
            &&& claim.user_id.len() > 0
        },
{
    let s = decode_utf8(bytes);
    let at = text::position(s, ':');
    text::lemma_position(s, ':');
    if claim_of_bytes(bytes) == Some(claim) {
        assert(s =~= claim.secret + seq![':'] + claim.user_id);
    }
    if valid_utf8(bytes) && s == claim.secret + seq![':'] + claim.user_id && !claim.secret.contains(
        ':',
    ) && claim.secret.len() > 0 && claim.user_id.len() > 0 {
        let n = claim.secret.len() as int;
        assert(s[n] == ':');
        assert(s.contains(':'));
        assert forall|k: int| 0 <= k < n implies #[trigger] s[k] != ':' by {
            assert(s[k] == claim.secret[k]);
        }
        text::lemma_position_is(s, ':', n);
        assert(s.take(n) =~= claim.secret);
        assert(s.skip(n + 1) =~= claim.user_id);
    }
}

/// A claim is good just if the secret that is stored for its user is the one that it
/// names, and then it is good for that user and nobody else. Where nothing is stored, or
/// the database failed, no claim is good.
pub proof fn law_claim_needs_the_stored_secret(
    claim: TokenClaimView,
    stored: Result<Option<Seq<char>>, DbFailure>,
)
    ensures
        accepted_user(claim, stored) is Some <==> stored == Ok::<Option<Seq<char>>, DbFailure>(
            Some(claim.secret),
        ),
        accepted_user(claim, stored) is Some ==> accepted_user(claim, stored)->0 == claim.user_id,
{
}

/// A user who sends the token that is made of the stored secret is let in as that user,
/// with or without `Bearer` before the token; one who names another secret is not.
pub proof fn law_right_secret_lets_its_user_in(
    secret: Seq<char>,
    user_id: Seq<char>,
    header: Option<Seq<u8>>,
    stored: Seq<char>,
)
    requires
        secret.len() > 0,
        user_id.len() > 0,
        !secret.contains(':'),
        encode_utf8(secret + seq![':'] + user_id).len() <= 192,
        headers::optional_text(header) == Some(
            "Bearer "@ + base64_text::base64(encode_utf8(secret + seq![':'] + user_id)),
        ),
        encode_utf8(headers::optional_text(header)->0).len() <= 256,
    ensures
        token_of(header) is Some,
        claim_of(token_of(header)->0) is Some,
        ({
            let claim = claim_of(token_of(header)->0)->0;
            accepted_user(claim, Ok(Some(stored))) == (if stored == secret {
                Some(user_id)
            } else {
                None
            })
        }),
{
    let s = secret + seq![':'] + user_id;
    assert(s =~= secret.push(':') + user_id);
    let token = base64_text::base64(encode_utf8(s));
    reveal_strlit("Bearer ");
    law_token_stands_behind_bearer(header, token);
    law_token_claims_what_it_is_made_of(secret, user_id);
}

/// The tokens to forget for a user are just those that are remembered for that user; of
/// those of other users none is forgotten, and they come in the order of the cache.
pub proof fn law_all_tokens_of_a_user_are_forgotten(
    entries: Seq<CachedToken>,
    e: CachedToken,
    user_id: Seq<char>,
)
    ensures
        tokens_of_user(seq![], user_id).len() == 0,
        e.user_id@ == user_id ==> tokens_of_user(entries.push(e), user_id) == tokens_of_user(
            entries,
            user_id,
        ).push(e.token@),
        e.user_id@ != user_id ==> tokens_of_user(entries.push(e), user_id) == tokens_of_user(
            entries,
            user_id,
        ),
{
    let p = |e: CachedToken| e.user_id@ == user_id;
    let f = |e: CachedToken| e.token@;
    reveal(Seq::filter);
    assert(entries.push(e).drop_last() =~= entries);
    let kept = entries.filter(p);
    assert(kept.push(e).map_values(f) =~= kept.map_values(f).push(e.token@));
    assert(Seq::<CachedToken>::empty().filter(p).len() == 0);
}

/// Whether a request goes on as a user, given its header, what the cache says of its token,
/// and what is stored as the secret of the user that it claims.
pub open spec fn goes_on_as(
    header: Option<Seq<u8>>,
    hit: Option<Seq<char>>,
    has_database: bool,
    stored: Result<Option<Seq<char>>, DbFailure>,
    user_id: Seq<char>,
) -> bool {
    match token_of(header) {
        Some(token) => match cache_step(hit, has_database) {
            AuthStepView::Proceed(id) => id == user_id,
            AuthStepView::Check => match claim_of(token) {
                Some(claim) => check_step(accepted_user(claim, stored)) == Ok::<
                    Seq<char>,
                    ReplyView,
                >(user_id),
                None => false,
            },
            AuthStepView::Reject(_) => false,
        },
        None => false,
    }
}

/// A request goes on as a user just if it has a token and the cache knows that token as
/// theirs, or the database was asked and the token names that user together with the
/// secret that is stored for them. Nobody is let in on a failure of the database.
pub proof fn law_request_goes_on_by_cache_or_by_secret(
    header: Option<Seq<u8>>,
    hit: Option<Seq<char>>,
    has_database: bool,
    stored: Result<Option<Seq<char>>, DbFailure>,
    user_id: Seq<char>,
)
    ensures
        goes_on_as(header, hit, has_database, stored, user_id) <==> token_of(header) is Some && {
            ||| hit == Some(user_id)
            ||| {
                &&& hit is None
                &&& has_database
                &&& claim_of(token_of(header)->0) is Some
                &&& claim_of(token_of(header)->0)->0.user_id == user_id
                &&& stored is Ok && stored->Ok_0 is Some
                &&& stored->Ok_0->0 == claim_of(token_of(header)->0)->0.secret
            }
        },
        cache_step(None, false) matches AuthStepView::Reject(v) && v.status == 500 && v.body
            == ReplyBodyView::Error("Server misconfigured"@),
        check_step(None) matches Err(v) && v.status == 401 && v.body == ReplyBodyView::Error(
            "Unauthorized"@,
        ),
{
}

} // verus!
