//! Signed access tokens (JWT, HS256) through the `jsonwebtoken` crate.
use vstd::prelude::*;

verus! {

/// The claims `(sub, exp, iat)` that a token carries when its HS256 signature
/// verifies under `secret` and its claims hold a text `sub` and whole numbers
/// `exp` and `iat` that fit a `usize`; `None` for any other token. The time of
/// reading plays no part in it.
pub uninterp spec fn jwt_claims_of(token: Seq<char>, secret: Seq<char>) -> Option<(Seq<char>, usize, usize)>;

/// `jsonwebtoken::encode` with the default header (HS256) and the key
/// `EncodingKey::from_secret(secret)`, over the claims `sub`, `exp` and `iat`
/// (written in that order: `serde_json` keeps insertion order here).
/// Encoding with an HMAC key under an HMAC header cannot fail, and the token it
/// writes carries exactly these claims under that secret.
#[verifier::external_body]
pub(crate) fn jwt_encode(sub: &str, exp: usize, iat: usize, secret: &str) -> (r: Option<String>)
    ensures
        r is Some,
        r is Some ==> jwt_claims_of(r.unwrap()@, secret@) == Some((sub@, exp, iat)),
{
    let mut claims = serde_json::Map::new();
    claims.insert("sub".to_owned(), serde_json::Value::from(sub));
    claims.insert("exp".to_owned(), serde_json::Value::from(exp));
    claims.insert("iat".to_owned(), serde_json::Value::from(iat));
    let key = jsonwebtoken::EncodingKey::from_secret(secret.as_bytes());
    jsonwebtoken::encode(&jsonwebtoken::Header::default(), &claims, &key).ok()
}

/// `jsonwebtoken::decode` with `Validation::default()` (HS256, `exp` required and
/// checked against the system clock with 60 seconds of leeway) and the key
/// `DecodingKey::from_secret(secret)`, reading `sub`, `exp` and `iat` from the
/// claims. Whether an unexpired-looking token passes depends on the time of the
/// call, so only this is stated: claims it returns are the token's claims, and a
/// token that carries none under this secret is refused.
#[verifier::external_body]
pub(crate) fn jwt_decode(token: &str, secret: &str) -> (r: Option<(String, usize, usize)>)
    ensures
        r is Some ==> jwt_claims_of(token@, secret@) == Some((r.unwrap().0@, r.unwrap().1, r.unwrap().2)),
        jwt_claims_of(token@, secret@) is None ==> r is None,
{
    let key = jsonwebtoken::DecodingKey::from_secret(secret.as_bytes());
    let validation = jsonwebtoken::Validation::default();
    let data = jsonwebtoken::decode::<serde_json::Map<String, serde_json::Value>>(token, &key, &validation).ok()?;
    let sub = data.claims.get("sub")?.as_str()?.to_owned();
    let exp = usize::try_from(data.claims.get("exp")?.as_u64()?).ok()?;
    let iat = usize::try_from(data.claims.get("iat")?.as_u64()?).ok()?;
    Some((sub, exp, iat))
}

} // verus!
