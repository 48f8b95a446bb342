//! Scoped API keys: generation, the `ak_{prefix}_{secret}` format, and the
//! decision whether a presented key is accepted.
use vstd::prelude::*;

use crate::auth::{all_alphanumeric, JwtClaims};
use crate::ids::{parse_uuid, parsed_uuid};
use crate::secrets::{
    argon2_accepts, argon2_hash, argon2_verify, fresh_salt, is_argon2id_hash, lemma_hash_differs_from, phc_shaped,
    random_alphanumeric,
};
use crate::text::{chars_of, find_char, first_index, starts_with, starts_with_chars, sub_chars, text_of, push_all};
use crate::timestamp::{after, is_after, is_clock_reading, now, Timestamp};

verus! {

broadcast use vstd::string::group_string_axioms;

/// Length of the public prefix of a key.
pub const PREFIX_LEN: usize = 8;

/// Length of the secret part of a key.
pub const SECRET_LEN: usize = 32;

/// A request to create an API key.
#[derive(Debug)]
pub struct CreateApiKeyRequest {
    pub name: Option<String>,
    pub scopes: Vec<String>,
    pub expires_at: Option<Timestamp>,
}

/// The answer to a key creation: the raw key is shown once and never stored.
#[derive(Debug)]
pub struct CreateApiKeyResponse {
    pub key: String,
    pub prefix: String,
    pub scopes: Vec<String>,
    pub name: Option<String>,
}

/// A created key: the answer to the client and the hash to store of its secret.
#[derive(Debug)]
pub struct NewApiKey {
    pub response: CreateApiKeyResponse,
    pub secret_hash: String,
}

/// The verified identity behind a request.
#[derive(Debug)]
pub struct ApiKeyIdentity {
    pub user_id: u128,
    pub scopes: Vec<String>,
}

/// The stored record of an API key, found by its prefix.
#[derive(Debug)]
pub struct ApiKeyRecord {
    pub id: u128,
    pub user_id: Option<u128>,
    pub secret_hash: String,
    pub scopes: Vec<String>,
    pub expires_at: Option<Timestamp>,
    pub revoked: bool,
}

/// The two parts of a presented key.
#[derive(Debug)]
pub struct ApiKeyParts {
    pub prefix: String,
    pub secret: String,
}

/// Why a key was refused or could not be made.
#[derive(Clone, Copy, PartialEq, Eq, Debug, Structural)]
pub enum ApiKeyError {
    InvalidFormat,
    NotFound,
    Revoked,
    Expired,
    InvalidSecret,
    HashFailed,
}

// ── Specifications ───────────────────────────────────────────────────────────

/// The text of a key: `ak_{prefix}_{secret}`.
pub open spec fn api_key_text(prefix: Seq<char>, secret: Seq<char>) -> Seq<char> {
    "ak_"@ + prefix + "_"@ + secret
}

/// The (prefix, secret) of a presented key, split like `splitn(3, '_')`: three
/// parts are needed and the first must be `ak`.
pub open spec fn api_key_parts(raw: Seq<char>) -> Option<(Seq<char>, Seq<char>)> {
    match first_index(raw, '_') {
        None => None,
        Some(a) => {
            let rest = raw.subrange(a + 1, raw.len() as int);
            match first_index(rest, '_') {
                None => None,
                Some(b) => if raw.subrange(0, a) == "ak"@ {
                    Some((rest.subrange(0, b), rest.subrange(b + 1, rest.len() as int)))
                } else {
                    None
                },
            }
        },
    }
}

/// Why a stored record refuses a presented secret at `now`, if it does: it is
/// missing, revoked, expired (now is after its expiry), or its hash does not
/// verify the secret — checked in that order.
pub open spec fn record_rejection(record: Option<ApiKeyRecord>, secret: Seq<char>, now: Timestamp) -> Option<
    ApiKeyError,
> {
    match record {
        None => Some(ApiKeyError::NotFound),
        Some(rec) => if rec.revoked {
            Some(ApiKeyError::Revoked)
        } else if rec.expires_at matches Some(exp) && is_after(now, exp) {
            Some(ApiKeyError::Expired)
        } else if !argon2_accepts(secret, rec.secret_hash@) {
            Some(ApiKeyError::InvalidSecret)
        } else {
            None
        },
    }
}

/// The identity an accepted record grants: its user (the nil UUID when it has
/// none) and its scopes.
pub open spec fn grants(id: ApiKeyIdentity, rec: ApiKeyRecord) -> bool {
    &&& id.user_id == match rec.user_id {
        Some(u) => u,
        None => 0,
    }
    &&& id.scopes@ == rec.scopes@
}

/// The outcome of checking a presented secret against a stored record at `now`.
pub open spec fn check_outcome(
    r: Result<ApiKeyIdentity, ApiKeyError>,
    record: Option<ApiKeyRecord>,
    secret: Seq<char>,
    now: Timestamp,
) -> bool {
    match r {
        Ok(id) => record_rejection(record, secret, now) is None && grants(id, record->0),
        Err(e) => record_rejection(record, secret, now) == Some(e),
    }
}

/// A bearer token is treated as an API key when it starts with `ak_`.
pub open spec fn is_api_key_text(token: Seq<char>) -> bool {
    starts_with(token, "ak_"@)
}

// ── Laws ─────────────────────────────────────────────────────────────────────

/// A key written with an alphanumeric prefix splits back into that prefix and
/// its secret (whatever the secret holds).
pub proof fn lemma_api_key_roundtrip(prefix: Seq<char>, secret: Seq<char>)
    requires
        all_alphanumeric(prefix),
    ensures
        api_key_parts(api_key_text(prefix, secret)) == Some((prefix, secret)),
        is_api_key_text(api_key_text(prefix, secret)),
{
    reveal_strlit("ak_");
    reveal_strlit("_");
    reveal_strlit("ak");
    let raw = api_key_text(prefix, secret);
    crate::text::lemma_first_index_spec(raw, '_');
    assert(raw[2] == '_');
    assert(raw[0] != '_' && raw[1] != '_');
    let rest = raw.subrange(3, raw.len() as int);
    assert(rest =~= prefix + "_"@ + secret);
    crate::text::lemma_first_index_spec(rest, '_');
    assert(rest[prefix.len() as int] == '_');
    assert forall|j: int| 0 <= j < prefix.len() implies rest[j] != '_' by {
        assert(crate::text::is_ascii_alphanumeric(prefix[j]));
    }
    assert(raw.subrange(0, 2) =~= "ak"@);
    assert(rest.subrange(0, prefix.len() as int) =~= prefix);
    assert(rest.subrange(prefix.len() as int + 1, rest.len() as int) =~= secret);
    assert(raw.subrange(0, 3) =~= "ak_"@);
}

/// A key that was created and stored is accepted when presented: its text splits
/// back into its prefix and secret, and the record of that prefix, while neither
/// revoked nor expired, grants access to the secret whose hash it stores.
pub proof fn lemma_created_key_is_accepted(
    prefix: Seq<char>,
    secret: Seq<char>,
    rec: ApiKeyRecord,
    now: Timestamp,
)
    requires
        all_alphanumeric(prefix),
        argon2_accepts(secret, rec.secret_hash@),
        !rec.revoked,
        rec.expires_at matches Some(exp) ==> !is_after(now, exp),
    ensures
        api_key_parts(api_key_text(prefix, secret)) == Some((prefix, secret)),
        record_rejection(Some(rec), secret, now) is None,
{
    lemma_api_key_roundtrip(prefix, secret);
}

// ── Key generation ───────────────────────────────────────────────────────────

/// A new key `ak_{prefix}_{secret}`, with an 8-character prefix and a
/// 32-character secret, both alphanumeric and random. Returns (key, prefix, secret).
pub fn generate_api_key() -> (r: (String, String, String))
    ensures
        r.0@ == api_key_text(r.1@, r.2@),
        r.1@.len() == PREFIX_LEN && all_alphanumeric(r.1@),
        r.2@.len() == SECRET_LEN && all_alphanumeric(r.2@),
{
    let prefix = random_alphanumeric(PREFIX_LEN);
    let secret = random_alphanumeric(SECRET_LEN);
    let mut key = chars_of("ak_");
    push_all(&mut key, &chars_of(prefix.as_str()));
    push_all(&mut key, &chars_of("_"));
    push_all(&mut key, &chars_of(secret.as_str()));
    (text_of(&key), prefix, secret)
}

/// The Argon2id hash of a secret, with a fresh random salt; it succeeds for any
/// secret of fewer than 2^30 characters.
pub fn hash_secret(secret: &str) -> (r: Result<String, ApiKeyError>)
    ensures
        secret@.len() <= 0x3FFF_FFFF ==> r is Ok,
        match r {
            Ok(h) => argon2_accepts(secret@, h@) && is_argon2id_hash(h@),
            Err(e) => e == ApiKeyError::HashFailed,
        },
{
    let salt = fresh_salt();
    match argon2_hash(secret, &salt) {
        Some(h) => Ok(h),
        None => Err(ApiKeyError::HashFailed),
    }
}

/// Whether a secret verifies against a stored Argon2 hash (false when the hash
/// does not parse).
pub fn verify_secret(secret: &str, hash: &str) -> (b: bool)
    ensures
        b == argon2_accepts(secret@, hash@),
        !phc_shaped(hash@) ==> !b,
{
    argon2_verify(secret, hash)
}

fn clone_strings(v: &Vec<String>) -> (r: Vec<String>)
    ensures
        r@ == v@,
{
    let mut r: Vec<String> = Vec::new();
    let mut i: usize = 0;
    while i < v.len()
        invariant
            i <= v@.len(),
            r@ == v@.subrange(0, i as int),
        decreases v@.len() - i,
    {
        r.push(v[i].clone());
        i = i + 1;
        assert(r@ =~= v@.subrange(0, i as int));
    }
    assert(v@.subrange(0, v@.len() as int) =~= v@);
    r
}

fn clone_opt(o: &Option<String>) -> (r: Option<String>)
    ensures
        r == *o,
{
    match o {
        Some(s) => Some(s.clone()),
        None => None,
    }
}

/// Creates a key for a request: a new key, the answer that shows it once with
/// its prefix, scopes and name, and the hash of its secret to store.
pub fn create_api_key(payload: &CreateApiKeyRequest) -> (r: Result<NewApiKey, ApiKeyError>)
    ensures
        match r {
            Ok(k) => exists|secret: Seq<char>|
                k.response.key@ == api_key_text(k.response.prefix@, secret) && secret.len() == SECRET_LEN
                    && all_alphanumeric(secret) && argon2_accepts(secret, k.secret_hash@)
                    && k.secret_hash@ != secret && k.secret_hash@ != k.response.key@
                    && k.response.prefix@.len() == PREFIX_LEN && all_alphanumeric(k.response.prefix@)
                    && k.response.scopes@ == payload.scopes@ && k.response.name == payload.name,
            Err(_) => false,
        },
{
    let (full_key, prefix, secret) = generate_api_key();
    let secret_hash = match hash_secret(secret.as_str()) {
        Ok(h) => h,
        Err(e) => return Err(e),
    };
    let response = CreateApiKeyResponse {
        key: full_key,
        prefix,
        scopes: clone_strings(&payload.scopes),
        name: clone_opt(&payload.name),
    };
    let k = NewApiKey { response, secret_hash };
    proof {
        reveal_strlit("ak_");
        assert(crate::text::is_ascii_alphanumeric(secret@[0]));
        lemma_hash_differs_from(k.secret_hash@, secret@);
        assert(k.response.key@[0] == 'a');
        lemma_hash_differs_from(k.secret_hash@, k.response.key@);
    }
    assert(k.response.key@ == api_key_text(k.response.prefix@, secret@) && argon2_accepts(secret@, k.secret_hash@));
    Ok(k)
}

// ── Verification ─────────────────────────────────────────────────────────────

/// Splits a presented key `ak_{prefix}_{secret}` (see `api_key_parts`).
pub fn parse_api_key(raw_key: &str) -> (r: Result<ApiKeyParts, ApiKeyError>)
    ensures
        match r {
            Ok(p) => api_key_parts(raw_key@) == Some((p.prefix@, p.secret@)),
            Err(e) => api_key_parts(raw_key@) is None && e == ApiKeyError::InvalidFormat,
        },
{
    let raw = chars_of(raw_key);
    let n = raw.len();
    proof {
        crate::text::lemma_first_index_spec(raw@, '_');
    }
    let a = match find_char(&raw, '_') {
        Some(a) => a,
        None => return Err(ApiKeyError::InvalidFormat),
    };
    let rest = sub_chars(&raw, a + 1, n);
    let b = match find_char(&rest, '_') {
        Some(b) => b,
        None => return Err(ApiKeyError::InvalidFormat),
    };
    let head = sub_chars(&raw, 0, a);
    let ak = chars_of("ak");
    if !crate::text::chars_equal(&head, &ak) {
        return Err(ApiKeyError::InvalidFormat);
    }
    let prefix = sub_chars(&rest, 0, b);
    let secret = sub_chars(&rest, b + 1, rest.len());
    Ok(ApiKeyParts { prefix: text_of(&prefix), secret: text_of(&secret) })
}

/// Checks a presented secret against the record found for its prefix, at `now`
/// (see `record_rejection` and `grants`).
pub fn check_api_key_record(record: &Option<ApiKeyRecord>, secret: &str, now: Timestamp) -> (r: Result<
    ApiKeyIdentity,
    ApiKeyError,
>)
    ensures
        check_outcome(r, *record, secret@, now),
{
    let rec = match record {
        Some(rec) => rec,
        None => return Err(ApiKeyError::NotFound),
    };
    if rec.revoked {
        return Err(ApiKeyError::Revoked);
    }
    match rec.expires_at {
        Some(exp) => {
            if after(now, exp) {
                return Err(ApiKeyError::Expired);
            }
        },
        None => {},
    }
    if !verify_secret(secret, rec.secret_hash.as_str()) {
        return Err(ApiKeyError::InvalidSecret);
    }
    let user_id = match rec.user_id {
        Some(u) => u,
        None => 0,
    };
    Ok(ApiKeyIdentity { user_id, scopes: clone_strings(&rec.scopes) })
}

/// The outcome of a presented raw key at `now`, given the record stored under its
/// prefix: a key not of the form `ak_{prefix}_{secret}` is refused as malformed
/// whatever the record; otherwise its secret is checked against the record.
pub open spec fn presented_key_outcome(
    r: Result<ApiKeyIdentity, ApiKeyError>,
    raw: Seq<char>,
    record: Option<ApiKeyRecord>,
    now: Timestamp,
) -> bool {
    match api_key_parts(raw) {
        None => r == Err::<ApiKeyIdentity, ApiKeyError>(ApiKeyError::InvalidFormat),
        Some((_, secret)) => check_outcome(r, record, secret, now),
    }
}

/// Checks a presented raw key at `now` against the record stored under its
/// prefix (see `presented_key_outcome`). The record is only read when the key is
/// well formed, so a caller may look it up after `parse_api_key` succeeds.
pub fn check_presented_api_key(raw_key: &str, record: &Option<ApiKeyRecord>, now: Timestamp) -> (r: Result<
    ApiKeyIdentity,
    ApiKeyError,
>)
    ensures
        presented_key_outcome(r, raw_key@, *record, now),
{
    match parse_api_key(raw_key) {
        Ok(parts) => check_api_key_record(record, parts.secret.as_str(), now),
        Err(e) => Err(e),
    }
}

/// Checks a presented raw key now against the record stored under its prefix.
pub fn verify_api_key(raw_key: &str, record: &Option<ApiKeyRecord>) -> (r: Result<
    ApiKeyIdentity,
    ApiKeyError,
>)
    ensures
        api_key_parts(raw_key@) is None ==> r == Err::<ApiKeyIdentity, ApiKeyError>(ApiKeyError::InvalidFormat),
        exists|t: Timestamp| is_clock_reading(t) && presented_key_outcome(r, raw_key@, *record, t),
{
    let t = now();
    let r = check_presented_api_key(raw_key, record, t);
    assert(is_clock_reading(t) && presented_key_outcome(r, raw_key@, *record, t));
    r
}

/// Whether a bearer token is an API key (it starts with `ak_`).
pub fn is_api_key_token(token: &str) -> (b: bool)
    ensures
        b == is_api_key_text(token@),
{
    starts_with_chars(&chars_of(token), &chars_of("ak_"))
}

/// The identity of a verified JWT: its subject as user id (the nil UUID when the
/// subject is not a UUID) with every scope (`*`).
pub fn identity_from_claims(claims: &JwtClaims) -> (id: ApiKeyIdentity)
    ensures
        id.user_id == match parsed_uuid(claims.sub@) {
            Some(u) => u,
            None => 0,
        },
        id.scopes@.len() == 1 && id.scopes@[0]@ == "*"@,
{
    let user_id = match parse_uuid(claims.sub.as_str()) {
        Some(u) => u,
        None => 0,
    };
    let mut scopes: Vec<String> = Vec::new();
    scopes.push("*".to_owned());
    ApiKeyIdentity { user_id, scopes }
}

} // verus!
