//! Sessions: JWT claims, refresh tokens and their rotation, session cookies,
//! the client IP and the OAuth redirects.
use vstd::prelude::*;

use crate::ids::{hyphenated, uuid_text};
use crate::secrets::{
    argon2_accepts, argon2_hash, argon2_verify, fresh_salt, is_argon2id_hash, lemma_hash_differs_from,
    random_alphanumeric,
};
use crate::text::{
    chars_of, find_char, first_index, is_ascii_alphanumeric, push_all, sub_chars, text_of, trim,
    trim_chars,
};
use crate::jwt::{jwt_claims_of, jwt_decode, jwt_encode};
use crate::timestamp::{is_after, is_clock_reading, now, Timestamp};

verus! {

broadcast use vstd::string::group_string_axioms;

/// Lifetime of an access token (and its cookie), in seconds: 15 minutes.
pub const ACCESS_TOKEN_SECS: i64 = 900;

/// Lifetime of a refresh token (and the session cookies), in seconds: 7 days.
pub const REFRESH_TOKEN_SECS: i64 = 604800;

/// Length of a raw refresh token.
pub const REFRESH_TOKEN_LEN: usize = 64;

/// A refresh token is revoked once it has been used more than this many times.
pub const MAX_REFRESH_USES: i32 = 10;

/// The claims of an access token.
#[derive(Debug)]
pub struct JwtClaims {
    /// The user's UUID.
    pub sub: String,
    /// Expiry, in seconds since the Unix epoch.
    pub exp: usize,
    /// Issue time, in seconds since the Unix epoch.
    pub iat: usize,
}

/// The query of the OAuth callback.
#[derive(Debug)]
pub struct OAuthCallback {
    pub code: String,
    pub state: Option<String>,
}

/// Tokens handed to a signed-in client.
#[derive(Debug)]
pub struct AuthResponse {
    pub access_token: String,
    pub refresh_token: String,
    pub user_id: String,
}

/// A request carrying a refresh token.
#[derive(Debug)]
pub struct RefreshRequest {
    pub refresh_token: String,
}

/// A freshly issued refresh token: the raw token (handed to the client once)
/// and what is stored of it.
#[derive(Debug)]
pub struct NewRefreshToken {
    pub raw: String,
    pub token_hash: String,
    pub expires_at: Timestamp,
}

/// A stored refresh token that is neither revoked nor expired.
#[derive(Debug)]
pub struct RefreshCandidate {
    pub id: u128,
    pub user_id: u128,
    pub token_hash: String,
    pub use_count: i32,
}

/// The stored token to rotate, and its user.
#[derive(Clone, Copy, PartialEq, Eq, Debug, Structural)]
pub struct RefreshRotation {
    pub token_id: u128,
    pub user_id: u128,
}

/// Why a session operation failed.
#[derive(Clone, Copy, PartialEq, Eq, Debug, Structural)]
pub enum AuthError {
    /// No stored token verifies the presented one.
    InvalidRefreshToken,
    /// The matching token was used too often; it must be revoked.
    RefreshTokenOverused { token_id: u128 },
    /// Hashing the new token failed.
    HashFailed,
    /// An access token does not verify, has expired, or lacks its claims.
    InvalidToken,
}

/// A cookie to set on a response (`SameSite=Lax` when `same_site_lax`).
#[derive(Debug)]
pub struct SessionCookie {
    pub name: String,
    pub value: String,
    pub http_only: bool,
    pub secure: bool,
    pub same_site_lax: bool,
    pub path: String,
    pub max_age_secs: i64,
}

// ── Specifications ───────────────────────────────────────────────────────────

/// Every character is one of `A-Z`, `a-z`, `0-9`.
pub open spec fn all_alphanumeric(s: Seq<char>) -> bool {
    forall|i: int| 0 <= i < s.len() ==> is_ascii_alphanumeric(#[trigger] s[i])
}

/// `i` is the first candidate whose stored hash verifies `raw`.
pub open spec fn is_first_verifying(candidates: Seq<RefreshCandidate>, raw: Seq<char>, i: int) -> bool {
    &&& 0 <= i < candidates.len()
    &&& argon2_accepts(raw, candidates[i].token_hash@)
    &&& forall|j: int| 0 <= j < i ==> !argon2_accepts(raw, #[trigger] candidates[j].token_hash@)
}

/// The client IP: the first entry of `X-Forwarded-For`, trimmed, or `unknown`.
pub open spec fn client_ip(forwarded_for: Option<Seq<char>>) -> Seq<char> {
    let v = match forwarded_for {
        Some(s) => s,
        None => "unknown"@,
    };
    let first = match first_index(v, ',') {
        Some(i) => v.subrange(0, i),
        None => v,
    };
    trim(first)
}

/// `c` is the cookie with these attributes, at path `/` with `SameSite=Lax`.
pub open spec fn is_cookie(
    c: SessionCookie,
    name: Seq<char>,
    value: Seq<char>,
    http_only: bool,
    secure: bool,
    max_age_secs: i64,
) -> bool {
    &&& c.name@ == name
    &&& c.value@ == value
    &&& c.http_only == http_only
    &&& c.secure == secure
    &&& c.same_site_lax
    &&& c.path@ == "/"@
    &&& c.max_age_secs == max_age_secs
}

/// The cookies of a signed-in session: the access token (15 minutes), the
/// refresh token and the user id (7 days); only the user id is readable by
/// scripts; all are `Secure` in production.
pub open spec fn login_cookies_are(
    cs: Seq<SessionCookie>,
    access: Seq<char>,
    refresh: Seq<char>,
    user_id: u128,
    production: bool,
) -> bool {
    &&& cs.len() == 3
    &&& is_cookie(cs[0], "access_token"@, access, true, production, ACCESS_TOKEN_SECS)
    &&& is_cookie(cs[1], "refresh_token"@, refresh, true, production, REFRESH_TOKEN_SECS)
    &&& is_cookie(cs[2], "user_id"@, hyphenated(user_id), false, production, REFRESH_TOKEN_SECS)
}

/// The cookies of a refreshed session: new access and refresh tokens.
pub open spec fn refresh_cookies_are(cs: Seq<SessionCookie>, access: Seq<char>, refresh: Seq<char>, production: bool) -> bool {
    &&& cs.len() == 2
    &&& is_cookie(cs[0], "access_token"@, access, true, production, ACCESS_TOKEN_SECS)
    &&& is_cookie(cs[1], "refresh_token"@, refresh, true, production, REFRESH_TOKEN_SECS)
}

/// The cookies that end a session: the three session cookies, emptied and
/// expiring at once.
pub open spec fn logout_cookies_are(cs: Seq<SessionCookie>, production: bool) -> bool {
    &&& cs.len() == 3
    &&& is_cookie(cs[0], "access_token"@, seq![], true, production, 0)
    &&& is_cookie(cs[1], "refresh_token"@, seq![], true, production, 0)
    &&& is_cookie(cs[2], "user_id"@, seq![], false, production, 0)
}

/// The consent page of Google's OAuth flow for this client.
pub open spec fn consent_url(client_id: Seq<char>, redirect_uri: Seq<char>) -> Seq<char> {
    "https://accounts.google.com/o/oauth2/v2/auth?client_id="@ + client_id + "&redirect_uri="@
        + redirect_uri
        + "&response_type=code&scope=openid%20email%20profile%20https://www.googleapis.com/auth/gmail.readonly&access_type=offline&prompt=consent"@
}

// ── Laws ─────────────────────────────────────────────────────────────────────

/// Logging out clears every cookie that signing in sets: the same name and path,
/// an empty value, and an immediate expiry.
pub proof fn lemma_logout_clears_login_cookies(
    login: Seq<SessionCookie>,
    logout: Seq<SessionCookie>,
    access: Seq<char>,
    refresh: Seq<char>,
    user_id: u128,
    production: bool,
)
    requires
        login_cookies_are(login, access, refresh, user_id, production),
        logout_cookies_are(logout, production),
    ensures
        forall|i: int|
            0 <= i < login.len() ==> #[trigger] logout[i].name@ == login[i].name@ && logout[i].path@
                == login[i].path@ && logout[i].value@.len() == 0 && logout[i].max_age_secs == 0,
{
}

/// Signing in and refreshing never expose a token to scripts: both token
/// cookies are HTTP-only, and every session cookie is `Secure` exactly in production.
pub proof fn lemma_token_cookies_are_http_only(
    login: Seq<SessionCookie>,
    access: Seq<char>,
    refresh: Seq<char>,
    user_id: u128,
    production: bool,
)
    requires
        login_cookies_are(login, access, refresh, user_id, production),
    ensures
        login[0].http_only && login[1].http_only,
        forall|i: int| 0 <= i < login.len() ==> #[trigger] login[i].secure == production,
{
}

// ── JWT claims ───────────────────────────────────────────────────────────────

/// The claims of an access token for `user_id` issued at `now_secs`: it names
/// the user and expires 15 minutes later.
pub fn jwt_claims_at(user_id: u128, now_secs: i64) -> (c: JwtClaims)
    requires
        now_secs <= i64::MAX - ACCESS_TOKEN_SECS,
    ensures
        c.sub@ == hyphenated(user_id),
        c.iat == now_secs as usize,
        c.exp == (now_secs + ACCESS_TOKEN_SECS) as usize,
{
    JwtClaims {
        sub: uuid_text(user_id),
        iat: now_secs as usize,
        exp: (now_secs + ACCESS_TOKEN_SECS) as usize,
    }
}

/// The claims of an access token for `user_id` issued now.
pub fn jwt_claims_now(user_id: u128) -> (c: JwtClaims)
    ensures
        exists|t: Timestamp|
            is_clock_reading(t) && c.sub@ == hyphenated(user_id) && c.iat == t.secs as usize && c.exp
                == (t.secs + ACCESS_TOKEN_SECS) as usize,
{
    let t = now();
    let c = jwt_claims_at(user_id, t.secs);
    assert(is_clock_reading(t) && c.sub@ == hyphenated(user_id) && c.iat == t.secs as usize && c.exp == (t.secs
        + ACCESS_TOKEN_SECS) as usize);
    c
}

/// The signed access token for `user_id` issued at `now_secs`: it carries the
/// claims of `jwt_claims_at` under `secret`. Signing always succeeds.
pub fn issue_jwt_at(user_id: u128, now_secs: i64, secret: &str) -> (r: Result<String, AuthError>)
    requires
        now_secs <= i64::MAX - ACCESS_TOKEN_SECS,
    ensures
        r matches Ok(t) && jwt_claims_of(t@, secret@) == Some(
            (hyphenated(user_id), (now_secs + ACCESS_TOKEN_SECS) as usize, now_secs as usize),
        ),
{
    let c = jwt_claims_at(user_id, now_secs);
    match jwt_encode(c.sub.as_str(), c.exp, c.iat, secret) {
        Some(t) => Ok(t),
        None => Err(AuthError::InvalidToken),
    }
}

/// The signed access token for `user_id` issued now (see `issue_jwt_at`).
pub fn issue_jwt(user_id: u128, secret: &str) -> (r: Result<String, AuthError>)
    ensures
        r matches Ok(t) && exists|now: Timestamp|
            is_clock_reading(now) && jwt_claims_of(t@, secret@) == Some(
                (hyphenated(user_id), (now.secs + ACCESS_TOKEN_SECS) as usize, now.secs as usize),
            ),
{
    let t = now();
    let r = issue_jwt_at(user_id, t.secs, secret);
    assert(is_clock_reading(t));
    assert(r matches Ok(tok) && jwt_claims_of(tok@, secret@) == Some(
        (hyphenated(user_id), (t.secs + ACCESS_TOKEN_SECS) as usize, t.secs as usize),
    ));
    r
}

/// The claims of an access token that verifies under `secret` now. Claims it
/// returns are the ones the token carries; a token that carries none under this
/// secret (a bad signature or missing claims) is refused. Whether a token that
/// does carry claims passes depends on the time of the call (its expiry).
pub fn verify_jwt(token: &str, secret: &str) -> (r: Result<JwtClaims, AuthError>)
    ensures
        match r {
            Ok(c) => jwt_claims_of(token@, secret@) == Some((c.sub@, c.exp, c.iat)),
            Err(e) => e == AuthError::InvalidToken,
        },
        jwt_claims_of(token@, secret@) is None ==> r is Err,
{
    match jwt_decode(token, secret) {
        Some((sub, exp, iat)) => Ok(JwtClaims { sub, exp, iat }),
        None => Err(AuthError::InvalidToken),
    }
}

/// A token issued for a user and accepted later names that user, with the
/// issue time and expiry it was signed with.
pub proof fn lemma_verified_token_names_its_user(
    token: Seq<char>,
    secret: Seq<char>,
    user_id: u128,
    exp: usize,
    iat: usize,
    claims: JwtClaims,
)
    requires
        jwt_claims_of(token, secret) == Some((hyphenated(user_id), exp, iat)),
        jwt_claims_of(token, secret) == Some((claims.sub@, claims.exp, claims.iat)),
    ensures
        claims.sub@ == hyphenated(user_id),
        claims.exp == exp,
        claims.iat == iat,
{
}

/// An access token lasts exactly 15 minutes.
pub proof fn lemma_access_token_lifetime(c: JwtClaims, now_secs: i64)
    requires
        0 <= now_secs,
        now_secs + ACCESS_TOKEN_SECS <= usize::MAX,
        c.iat == now_secs as usize,
        c.exp == (now_secs + ACCESS_TOKEN_SECS) as usize,
    ensures
        c.exp - c.iat == ACCESS_TOKEN_SECS,
{
}

// ── Client IP ────────────────────────────────────────────────────────────────

/// The client IP from an `X-Forwarded-For` value (see `client_ip`).
pub fn get_client_ip(forwarded_for: Option<&str>) -> (ip: String)
    ensures
        ip@ == client_ip(crate::middleware::opt_str(forwarded_for)),
{
    let v = match forwarded_for {
        Some(s) => chars_of(s),
        None => chars_of("unknown"),
    };
    let first = match find_char(&v, ',') {
        Some(i) => sub_chars(&v, 0, i),
        None => v,
    };
    let trimmed = trim_chars(&first);
    text_of(&trimmed)
}

/// The client IP never holds a comma.
pub proof fn lemma_client_ip_has_no_comma(forwarded_for: Option<Seq<char>>)
    ensures
        !client_ip(forwarded_for).contains(','),
{
    let v = match forwarded_for {
        Some(s) => s,
        None => "unknown"@,
    };
    let first = match first_index(v, ',') {
        Some(i) => v.subrange(0, i),
        None => v,
    };
    crate::text::lemma_first_index_spec(v, ',');
    assert(!first.contains(',')) by {
        if first_index(v, ',') is None {
            if first.contains(',') {
                assert(v.contains(','));
            }
        }
    }
    lemma_strip_keeps_absent(first, ',');
}

proof fn lemma_strip_start_is_suffix(s: Seq<char>, p: spec_fn(char) -> bool)
    ensures
        exists|k: int| 0 <= k <= s.len() && crate::text::strip_start(s, p) == s.subrange(k, s.len() as int),
    decreases s.len(),
{
    if s.len() > 0 && p(s[0]) {
        lemma_strip_start_is_suffix(s.drop_first(), p);
        let k = choose|k: int|
            0 <= k <= s.drop_first().len() && crate::text::strip_start(s.drop_first(), p) == s.drop_first().subrange(
                k,
                s.drop_first().len() as int,
            );
        assert(s.drop_first().subrange(k, s.drop_first().len() as int) =~= s.subrange(k + 1, s.len() as int));
    } else {
        assert(s.subrange(0, s.len() as int) =~= s);
    }
}

proof fn lemma_strip_end_is_prefix(s: Seq<char>, p: spec_fn(char) -> bool)
    ensures
        exists|k: int| 0 <= k <= s.len() && crate::text::strip_end(s, p) == s.subrange(0, k),
    decreases s.len(),
{
    if s.len() > 0 && p(s.last()) {
        lemma_strip_end_is_prefix(s.drop_last(), p);
        let k = choose|k: int|
            0 <= k <= s.drop_last().len() && crate::text::strip_end(s.drop_last(), p) == s.drop_last().subrange(0, k);
        assert(s.drop_last().subrange(0, k) =~= s.subrange(0, k));
    } else {
        assert(s.subrange(0, s.len() as int) =~= s);
    }
}

proof fn lemma_strip_keeps_absent(s: Seq<char>, c: char)
    requires
        !s.contains(c),
    ensures
        !trim(s).contains(c),
{
    let p = crate::text::stripped_class(false);
    lemma_strip_start_is_suffix(s, p);
    let a = crate::text::strip_start(s, p);
    let k = choose|k: int| 0 <= k <= s.len() && a == s.subrange(k, s.len() as int);
    assert(!a.contains(c)) by {
        if a.contains(c) {
            let j = choose|j: int| 0 <= j < a.len() && a[j] == c;
            assert(s[k + j] == c);
        }
    }
    lemma_strip_end_is_prefix(a, p);
    let b = crate::text::strip_end(a, p);
    let m = choose|m: int| 0 <= m <= a.len() && b == a.subrange(0, m);
    if b.contains(c) {
        let j = choose|j: int| 0 <= j < b.len() && b[j] == c;
        assert(a[j] == c);
    }
}

/// A presented refresh token whose hash is stored among the candidates is
/// recognised: some candidate, at or before the stored one, is the first that
/// verifies it, so rotation never answers that the token is invalid.
pub proof fn lemma_stored_token_is_recognised(candidates: Seq<RefreshCandidate>, raw: Seq<char>, i: int)
    requires
        0 <= i < candidates.len(),
        argon2_accepts(raw, candidates[i].token_hash@),
    ensures
        exists|k: int| 0 <= k <= i && is_first_verifying(candidates, raw, k),
    decreases i,
{
    if exists|j: int| 0 <= j < i && argon2_accepts(raw, #[trigger] candidates[j].token_hash@) {
        let j = choose|j: int| 0 <= j < i && argon2_accepts(raw, #[trigger] candidates[j].token_hash@);
        lemma_stored_token_is_recognised(candidates, raw, j);
    } else {
        assert(is_first_verifying(candidates, raw, i));
    }
}

// ── Refresh tokens ───────────────────────────────────────────────────────────

/// A new refresh token issued at `now`: 64 random alphanumeric characters,
/// stored only as an Argon2id hash that verifies them (and so differs from
/// them), valid for 7 days. Issuing always succeeds.
pub fn issue_refresh_token_at(now: Timestamp) -> (r: Result<NewRefreshToken, AuthError>)
    requires
        now.secs <= i64::MAX - REFRESH_TOKEN_SECS,
    ensures
        match r {
            Ok(t) => t.raw@.len() == REFRESH_TOKEN_LEN && all_alphanumeric(t.raw@) && argon2_accepts(
                t.raw@,
                t.token_hash@,
            ) && is_argon2id_hash(t.token_hash@) && t.token_hash@ != t.raw@
                && t.expires_at.secs == now.secs + REFRESH_TOKEN_SECS && t.expires_at.nanos == now.nanos,
            Err(_) => false,
        },
{
    let raw = random_alphanumeric(REFRESH_TOKEN_LEN);
    let salt = fresh_salt();
    let token_hash = match argon2_hash(raw.as_str(), &salt) {
        Some(h) => h,
        None => return Err(AuthError::HashFailed),
    };
    proof {
        assert(is_ascii_alphanumeric(raw@[0]));
        lemma_hash_differs_from(token_hash@, raw@);
    }
    let expires_at = Timestamp { secs: now.secs + REFRESH_TOKEN_SECS, nanos: now.nanos };
    Ok(NewRefreshToken { raw, token_hash, expires_at })
}

/// A new refresh token issued now (see `issue_refresh_token_at`).
pub fn issue_refresh_token() -> (r: Result<NewRefreshToken, AuthError>)
    ensures
        match r {
            Ok(t) => t.raw@.len() == REFRESH_TOKEN_LEN && all_alphanumeric(t.raw@) && argon2_accepts(
                t.raw@,
                t.token_hash@,
            ) && is_argon2id_hash(t.token_hash@) && t.token_hash@ != t.raw@ && exists|now: Timestamp|
                is_clock_reading(now) && t.expires_at.secs == now.secs + REFRESH_TOKEN_SECS
                    && is_after(t.expires_at, now)
                    && t.expires_at.nanos == now.nanos,
            Err(_) => false,
        },
{
    let t = now();
    let r = issue_refresh_token_at(t);
    assert(is_clock_reading(t));
    r
}

/// Decides a refresh: the first stored candidate whose hash verifies the raw
/// token is rotated, unless it was used more than ten times, in which case it
/// is to be revoked and the refresh refused.
pub fn rotate_refresh_token(candidates: &[RefreshCandidate], raw_token: &str) -> (r: Result<RefreshRotation, AuthError>)
    ensures
        match r {
            Ok(rot) => exists|i: int|
                is_first_verifying(candidates@, raw_token@, i) && candidates@[i].use_count <= MAX_REFRESH_USES
                    && rot.token_id == candidates@[i].id && rot.user_id == candidates@[i].user_id,
            Err(AuthError::RefreshTokenOverused { token_id }) => exists|i: int|
                is_first_verifying(candidates@, raw_token@, i) && candidates@[i].use_count > MAX_REFRESH_USES
                    && token_id == candidates@[i].id,
            Err(AuthError::InvalidRefreshToken) => forall|i: int|
                0 <= i < candidates@.len() ==> !argon2_accepts(raw_token@, #[trigger] candidates@[i].token_hash@),
            Err(AuthError::HashFailed) | Err(AuthError::InvalidToken) => false,
        },
{
    let mut i: usize = 0;
    while i < candidates.len()
        invariant
            i <= candidates@.len(),
            forall|j: int| 0 <= j < i ==> !argon2_accepts(raw_token@, #[trigger] candidates@[j].token_hash@),
        decreases candidates@.len() - i,
    {
        let c = &candidates[i];
        if argon2_verify(raw_token, c.token_hash.as_str()) {
            assert(is_first_verifying(candidates@, raw_token@, i as int));
            if c.use_count > MAX_REFRESH_USES {
                return Err(AuthError::RefreshTokenOverused { token_id: c.id });
            }
            return Ok(RefreshRotation { token_id: c.id, user_id: c.user_id });
        }
        i = i + 1;
    }
    Err(AuthError::InvalidRefreshToken)
}

// ── Cookies and redirects ────────────────────────────────────────────────────

/// `APP_ENV` names production.
pub fn is_production(app_env: Option<&str>) -> (b: bool)
    ensures
        b == (app_env matches Some(e) && e@ == "production"@),
{
    match app_env {
        Some(e) => {
            let chars = chars_of(e);
            let expected = chars_of("production");
            crate::text::chars_equal(&chars, &expected)
        },
        None => false,
    }
}

fn make_cookie(name: &str, value: &str, http_only: bool, secure: bool, max_age_secs: i64) -> (c: SessionCookie)
    ensures
        is_cookie(c, name@, value@, http_only, secure, max_age_secs),
{
    SessionCookie {
        name: name.to_owned(),
        value: value.to_owned(),
        http_only,
        secure,
        same_site_lax: true,
        path: "/".to_owned(),
        max_age_secs,
    }
}

/// The cookies that sign a user in (see `login_cookies_are`).
pub fn login_cookies(access_token: &str, refresh_token: &str, user_id: u128, production: bool) -> (cs: Vec<SessionCookie>)
    ensures
        login_cookies_are(cs@, access_token@, refresh_token@, user_id, production),
{
    let user = uuid_text(user_id);
    let mut cs: Vec<SessionCookie> = Vec::new();
    cs.push(make_cookie("access_token", access_token, true, production, ACCESS_TOKEN_SECS));
    cs.push(make_cookie("refresh_token", refresh_token, true, production, REFRESH_TOKEN_SECS));
    cs.push(make_cookie("user_id", user.as_str(), false, production, REFRESH_TOKEN_SECS));
    cs
}

/// The cookies that carry a refreshed session (see `refresh_cookies_are`).
pub fn refresh_cookies(access_token: &str, refresh_token: &str, production: bool) -> (cs: Vec<SessionCookie>)
    ensures
        refresh_cookies_are(cs@, access_token@, refresh_token@, production),
{
    let mut cs: Vec<SessionCookie> = Vec::new();
    cs.push(make_cookie("access_token", access_token, true, production, ACCESS_TOKEN_SECS));
    cs.push(make_cookie("refresh_token", refresh_token, true, production, REFRESH_TOKEN_SECS));
    cs
}

/// The cookies that end a session (see `logout_cookies_are`).
pub fn logout_cookies(production: bool) -> (cs: Vec<SessionCookie>)
    ensures
        logout_cookies_are(cs@, production),
{
    let empty = "";
    proof {
        reveal_strlit("");
    }
    assert(empty@ =~= Seq::<char>::empty());
    let mut cs: Vec<SessionCookie> = Vec::new();
    cs.push(make_cookie("access_token", empty, true, production, 0));
    cs.push(make_cookie("refresh_token", empty, true, production, 0));
    cs.push(make_cookie("user_id", empty, false, production, 0));
    cs
}

/// Where a signed-in user is sent: the frontend's dashboard (the frontend is
/// `http://localhost:3000` unless configured).
pub fn dashboard_redirect(frontend_url: Option<&str>) -> (url: String)
    ensures
        url@ == (match frontend_url {
            Some(f) => f@,
            None => "http://localhost:3000"@,
        }) + "/dashboard"@,
{
    let mut url = match frontend_url {
        Some(f) => chars_of(f),
        None => chars_of("http://localhost:3000"),
    };
    push_all(&mut url, &chars_of("/dashboard"));
    text_of(&url)
}

/// The Google consent page for this client (see `consent_url`).
pub fn google_consent_url(client_id: &str, redirect_uri: &str) -> (url: String)
    ensures
        url@ == consent_url(client_id@, redirect_uri@),
{
    let mut url = chars_of("https://accounts.google.com/o/oauth2/v2/auth?client_id=");
    push_all(&mut url, &chars_of(client_id));
    push_all(&mut url, &chars_of("&redirect_uri="));
    push_all(&mut url, &chars_of(redirect_uri));
    push_all(
        &mut url,
        &chars_of(
            "&response_type=code&scope=openid%20email%20profile%20https://www.googleapis.com/auth/gmail.readonly&access_type=offline&prompt=consent",
        ),
    );
    text_of(&url)
}

} // verus!
