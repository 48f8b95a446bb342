use mail_triage::api_keys::{hash_secret, verify_secret};
use mail_triage::auth::{
    dashboard_redirect, get_client_ip, google_consent_url, is_production, issue_refresh_token,
    issue_refresh_token_at, jwt_claims_at, jwt_claims_now, login_cookies, logout_cookies,
    refresh_cookies, rotate_refresh_token, AuthError, RefreshCandidate, RefreshRotation,
};
use mail_triage::timestamp::Timestamp;

const USER: u128 = 0x550e8400_e29b_41d4_a716_446655440000;

#[test]
fn access_token_claims_last_fifteen_minutes() {
    let c = jwt_claims_at(USER, 1_700_000_000);
    assert_eq!(c.sub, "550e8400-e29b-41d4-a716-446655440000");
    assert_eq!(c.iat, 1_700_000_000);
    assert_eq!(c.exp, 1_700_000_900);
    let n = jwt_claims_now(USER);
    assert_eq!(n.exp - n.iat, 900);
}

#[test]
fn client_ip_is_the_first_forwarded_entry() {
    assert_eq!(get_client_ip(None), "unknown");
    assert_eq!(get_client_ip(Some(" 10.0.0.1 , 192.168.1.1")), "10.0.0.1");
    assert_eq!(get_client_ip(Some("203.0.113.5")), "203.0.113.5");
    assert_eq!(get_client_ip(Some(",1.1.1.1")), "");
}

#[test]
fn refresh_tokens_are_random_hashed_and_last_a_week() {
    let now = Timestamp { secs: 1_000, nanos: 5 };
    let t = issue_refresh_token_at(now).unwrap();
    assert_eq!(t.raw.len(), 64);
    assert!(t.raw.chars().all(|c| c.is_ascii_alphanumeric()));
    assert!(verify_secret(&t.raw, &t.token_hash));
    assert_ne!(t.raw, t.token_hash);
    assert_eq!(t.expires_at, Timestamp { secs: 1_000 + 604_800, nanos: 5 });
    let u = issue_refresh_token().unwrap();
    assert_ne!(u.raw, t.raw);
}

fn candidate(id: u128, user_id: u128, raw: &str, use_count: i32) -> RefreshCandidate {
    let hash = hash_secret(raw).unwrap();
    RefreshCandidate { id, user_id, token_hash: hash, use_count }
}

#[test]
fn rotation_picks_the_matching_token() {
    let cs = vec![candidate(1, 10, "aaa", 0), candidate(2, 20, "bbb", 3)];
    assert_eq!(rotate_refresh_token(&cs, "bbb"), Ok(RefreshRotation { token_id: 2, user_id: 20 }));
    assert_eq!(rotate_refresh_token(&cs, "ccc"), Err(AuthError::InvalidRefreshToken));
    assert_eq!(rotate_refresh_token(&[], "aaa"), Err(AuthError::InvalidRefreshToken));
}

#[test]
fn overused_tokens_are_refused() {
    let cs = vec![candidate(5, 50, "tok", 11)];
    assert_eq!(rotate_refresh_token(&cs, "tok"), Err(AuthError::RefreshTokenOverused { token_id: 5 }));
    let cs = vec![candidate(6, 60, "tok", 10)];
    assert_eq!(rotate_refresh_token(&cs, "tok"), Ok(RefreshRotation { token_id: 6, user_id: 60 }));
}

#[test]
fn session_cookies() {
    let cs = login_cookies("jwt", "ref", USER, true);
    assert_eq!(cs.len(), 3);
    assert_eq!((cs[0].name.as_str(), cs[0].value.as_str(), cs[0].http_only, cs[0].max_age_secs), ("access_token", "jwt", true, 900));
    assert_eq!((cs[1].name.as_str(), cs[1].value.as_str(), cs[1].http_only, cs[1].max_age_secs), ("refresh_token", "ref", true, 604_800));
    assert_eq!(
        (cs[2].name.as_str(), cs[2].value.as_str(), cs[2].http_only, cs[2].max_age_secs),
        ("user_id", "550e8400-e29b-41d4-a716-446655440000", false, 604_800)
    );
    assert!(cs.iter().all(|c| c.secure && c.same_site_lax && c.path == "/"));
    let rs = refresh_cookies("j2", "r2", false);
    assert_eq!(rs.len(), 2);
    assert!(rs.iter().all(|c| !c.secure && c.http_only));
    let out = logout_cookies(false);
    assert_eq!(out.iter().map(|c| c.name.as_str()).collect::<Vec<_>>(), vec!["access_token", "refresh_token", "user_id"]);
    assert!(out.iter().all(|c| c.value.is_empty() && c.max_age_secs == 0 && c.path == "/"));
    assert!(!out[2].http_only);
}

#[test]
fn production_and_redirects() {
    assert!(is_production(Some("production")));
    assert!(!is_production(Some("Production")));
    assert!(!is_production(None));
    assert_eq!(dashboard_redirect(None), "http://localhost:3000/dashboard");
    assert_eq!(dashboard_redirect(Some("https://app.example")), "https://app.example/dashboard");
    assert_eq!(
        google_consent_url("cid", "https://api/cb"),
        "https://accounts.google.com/o/oauth2/v2/auth?client_id=cid&redirect_uri=https://api/cb&response_type=code&scope=openid%20email%20profile%20https://www.googleapis.com/auth/gmail.readonly&access_type=offline&prompt=consent"
    );
}

#[test]
fn issued_refresh_token_is_recognised_by_rotation() {
    let t = issue_refresh_token_at(Timestamp { secs: 0, nanos: 0 }).unwrap();
    let cs = vec![
        candidate(1, 10, "someone else", 0),
        RefreshCandidate { id: 2, user_id: 20, token_hash: t.token_hash.clone(), use_count: 0 },
    ];
    assert_eq!(rotate_refresh_token(&cs, &t.raw), Ok(RefreshRotation { token_id: 2, user_id: 20 }));
}

#[test]
fn issued_access_tokens_verify_and_name_their_user() {
    let token = mail_triage::auth::issue_jwt(USER, "s3cret").unwrap();
    let claims = mail_triage::auth::verify_jwt(&token, "s3cret").unwrap();
    assert_eq!(claims.sub, "550e8400-e29b-41d4-a716-446655440000");
    assert_eq!(claims.exp - claims.iat, 900);
    assert_eq!(mail_triage::auth::verify_jwt(&token, "other").err(), Some(AuthError::InvalidToken));
    let mut tampered = token.clone();
    tampered.push('x');
    assert_eq!(mail_triage::auth::verify_jwt(&tampered, "s3cret").err(), Some(AuthError::InvalidToken));
    assert_eq!(mail_triage::auth::verify_jwt("not.a.jwt", "s3cret").err(), Some(AuthError::InvalidToken));
}

#[test]
fn expired_access_tokens_are_refused() {
    let old = mail_triage::auth::issue_jwt_at(USER, 1_000, "k").unwrap();
    assert_eq!(mail_triage::auth::verify_jwt(&old, "k").err(), Some(AuthError::InvalidToken));
}

#[test]
fn access_token_claims_keep_their_field_order() {
    let token = mail_triage::auth::issue_jwt_at(USER, 1_700_000_000, "k").unwrap();
    let payload = token.split('.').nth(1).unwrap();
    let json = base64::Engine::decode(&base64::engine::general_purpose::URL_SAFE_NO_PAD, payload).unwrap();
    assert_eq!(
        String::from_utf8(json).unwrap(),
        r#"{"sub":"550e8400-e29b-41d4-a716-446655440000","exp":1700000900,"iat":1700000000}"#
    );
}
