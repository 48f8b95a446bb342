use mail_triage::api_keys::{
    check_presented_api_key, verify_api_key,
    check_api_key_record, create_api_key, generate_api_key, hash_secret, identity_from_claims,
    is_api_key_token, parse_api_key, verify_secret, ApiKeyError, ApiKeyRecord,
    CreateApiKeyRequest,
};
use mail_triage::auth::JwtClaims;
use mail_triage::timestamp::Timestamp;

#[test]
fn generated_key_has_the_documented_shape() {
    let (key, prefix, secret) = generate_api_key();
    assert_eq!(key.len(), 44);
    assert_eq!(key, format!("ak_{}_{}", prefix, secret));
    assert_eq!(prefix.len(), 8);
    assert_eq!(secret.len(), 32);
    assert!(prefix.chars().chain(secret.chars()).all(|c| c.is_ascii_alphanumeric()));
    let parts = parse_api_key(&key).unwrap();
    assert_eq!(parts.prefix, prefix);
    assert_eq!(parts.secret, secret);
    assert!(is_api_key_token(&key));
}

#[test]
fn key_format_is_split_in_three() {
    let p = parse_api_key("ak_abc_def_ghi").unwrap();
    assert_eq!((p.prefix.as_str(), p.secret.as_str()), ("abc", "def_ghi"));
    let p = parse_api_key("ak__s").unwrap();
    assert_eq!((p.prefix.as_str(), p.secret.as_str()), ("", "s"));
    assert_eq!(parse_api_key("ak_only").err(), Some(ApiKeyError::InvalidFormat));
    assert_eq!(parse_api_key("xk_a_b").err(), Some(ApiKeyError::InvalidFormat));
    assert_eq!(parse_api_key("AK_a_b").err(), Some(ApiKeyError::InvalidFormat));
    assert_eq!(parse_api_key("").err(), Some(ApiKeyError::InvalidFormat));
}

#[test]
fn created_key_verifies_against_its_stored_hash() {
    let req = CreateApiKeyRequest {
        name: Some("ci".into()),
        scopes: vec!["read".into(), "write".into()],
        expires_at: None,
    };
    let created = create_api_key(&req).unwrap();
    assert_eq!(created.response.scopes, vec!["read".to_string(), "write".to_string()]);
    assert_eq!(created.response.name, Some("ci".to_string()));
    let parts = parse_api_key(&created.response.key).unwrap();
    assert_eq!(parts.prefix, created.response.prefix);
    assert!(verify_secret(&parts.secret, &created.secret_hash));
    assert!(!verify_secret("wrong", &created.secret_hash));
}

fn record(hash: &str, revoked: bool, expires_at: Option<Timestamp>, user_id: Option<u128>) -> Option<ApiKeyRecord> {
    Some(ApiKeyRecord {
        id: 1,
        user_id,
        secret_hash: hash.to_string(),
        scopes: vec!["read".into()],
        expires_at,
        revoked,
    })
}

#[test]
fn record_checks_in_order() {
    let hash = hash_secret("s3cret").unwrap();
    let now = Timestamp { secs: 1_000, nanos: 0 };
    let later = Timestamp { secs: 2_000, nanos: 0 };
    let earlier = Timestamp { secs: 500, nanos: 0 };
    assert_eq!(check_api_key_record(&None, "s3cret", now).err(), Some(ApiKeyError::NotFound));
    assert_eq!(
        check_api_key_record(&record(&hash, true, Some(earlier), Some(7)), "bad", now).err(),
        Some(ApiKeyError::Revoked)
    );
    assert_eq!(
        check_api_key_record(&record(&hash, false, Some(earlier), Some(7)), "s3cret", now).err(),
        Some(ApiKeyError::Expired)
    );
    assert_eq!(
        check_api_key_record(&record(&hash, false, Some(later), Some(7)), "bad", now).err(),
        Some(ApiKeyError::InvalidSecret)
    );
    let id = check_api_key_record(&record(&hash, false, Some(now), Some(7)), "s3cret", now).unwrap();
    assert_eq!(id.user_id, 7);
    assert_eq!(id.scopes, vec!["read".to_string()]);
    let id = check_api_key_record(&record(&hash, false, None, None), "s3cret", now).unwrap();
    assert_eq!(id.user_id, 0);
    assert_eq!(
        check_api_key_record(&record("not a phc string", false, None, None), "s3cret", now).err(),
        Some(ApiKeyError::InvalidSecret)
    );
}

#[test]
fn verification_now_rejects_expired_keys() {
    let hash = hash_secret("k").unwrap();
    let expired = record(&hash, false, Some(Timestamp { secs: 0, nanos: 0 }), Some(1));
    assert_eq!(verify_api_key("ak_pre_k", &expired).err(), Some(ApiKeyError::Expired));
    let fine = record(&hash, false, None, Some(1));
    assert_eq!(verify_api_key("ak_pre_k", &fine).unwrap().user_id, 1);
}

#[test]
fn jwt_identity_has_every_scope() {
    let claims = JwtClaims { sub: "550e8400-e29b-41d4-a716-446655440000".into(), exp: 0, iat: 0 };
    let id = identity_from_claims(&claims);
    assert_eq!(id.user_id, 0x550e8400_e29b_41d4_a716_446655440000);
    assert_eq!(id.scopes, vec!["*".to_string()]);
    let bad = JwtClaims { sub: "nobody".into(), exp: 0, iat: 0 };
    assert_eq!(identity_from_claims(&bad).user_id, 0);
    assert!(!is_api_key_token("eyJhbGciOi"));
}

#[test]
fn created_key_is_accepted_when_presented() {
    let req = CreateApiKeyRequest { name: None, scopes: vec!["mail".into()], expires_at: None };
    let created = create_api_key(&req).unwrap();
    let parts = parse_api_key(&created.response.key).unwrap();
    let stored = Some(ApiKeyRecord {
        id: 9,
        user_id: Some(42),
        secret_hash: created.secret_hash.clone(),
        scopes: created.response.scopes.clone(),
        expires_at: Some(Timestamp { secs: 5_000, nanos: 0 }),
        revoked: false,
    });
    let id = check_api_key_record(&stored, &parts.secret, Timestamp { secs: 5_000, nanos: 0 }).unwrap();
    assert_eq!(id.user_id, 42);
    assert_eq!(id.scopes, vec!["mail".to_string()]);
}

#[test]
fn presented_keys_are_parsed_then_checked() {
    let now = Timestamp { secs: 10, nanos: 0 };
    let hash = hash_secret("abc").unwrap();
    let good = record(&hash, false, None, Some(3));
    for malformed in ["ak-abc-def", "xy_abc_def", "ak_abcdefgh"] {
        assert_eq!(check_presented_api_key(malformed, &good, now).err(), Some(ApiKeyError::InvalidFormat));
        assert_eq!(verify_api_key(malformed, &good).err(), Some(ApiKeyError::InvalidFormat));
    }
    assert_eq!(check_presented_api_key("ak_pre_abc", &good, now).unwrap().user_id, 3);
    assert_eq!(check_presented_api_key("ak_pre_abd", &good, now).err(), Some(ApiKeyError::InvalidSecret));
    assert_eq!(check_presented_api_key("ak_pre_abc", &None, now).err(), Some(ApiKeyError::NotFound));
}

#[test]
fn hashes_are_argon2id_strings_unlike_their_secret() {
    let hash = hash_secret("abc").unwrap();
    assert!(hash.starts_with("$argon2id$"));
    assert!(verify_secret("abc", &hash));
    assert!(!verify_secret("abd", &hash));
    assert!(!verify_secret("abc", "not-a-hash"));
}
