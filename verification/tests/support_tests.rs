use base64::Engine;
use mail_triage::api_keys::identity_from_claims;
use mail_triage::auth::{jwt_claims_at, jwt_claims_now, JwtClaims};
use mail_triage::middleware::{bearer_token, select_auth_token};
use mail_triage::text::{chars_of, contains_chars, ends_with_chars, trim_chars, trim_quote_chars};
use mail_triage::priority_mail::{decode_cursor, encode_cursor, CursorError};
use mail_triage::timestamp::{after, Timestamp};

const ZERO_ID: &str = "00000000-0000-0000-0000-000000000000";

fn b64(s: &[u8]) -> String {
    base64::engine::general_purpose::STANDARD.encode(s)
}

#[test]
fn uuids_are_written_hyphenated_and_read_back() {
    assert_eq!(jwt_claims_at(0, 0).sub, ZERO_ID);
    assert_eq!(jwt_claims_at(0x0123456789abcdef0123456789abcdef, 0).sub, "01234567-89ab-cdef-0123-456789abcdef");
    let claims = JwtClaims { sub: "01234567-89ab-cdef-0123-456789abcdef".into(), exp: 0, iat: 0 };
    assert_eq!(identity_from_claims(&claims).user_id, 0x0123456789abcdef0123456789abcdef);
    let short = JwtClaims { sub: "0123".into(), exp: 0, iat: 0 };
    assert_eq!(identity_from_claims(&short).user_id, 0);
}

#[test]
fn cursor_instants_are_rfc3339() {
    let epoch = encode_cursor(Timestamp { secs: 0, nanos: 0 }, 0).unwrap();
    assert_eq!(epoch, b64(format!("1970-01-01T00:00:00+00:00|{ZERO_ID}").as_bytes()));
    let t = Timestamp { secs: 1, nanos: 500_000_000 };
    let half = encode_cursor(t, 0).unwrap();
    assert_eq!(half, b64(format!("1970-01-01T00:00:01.500+00:00|{ZERO_ID}").as_bytes()));
    let offset = b64(format!("1970-01-01T01:00:01.5+01:00|{ZERO_ID}").as_bytes());
    assert_eq!(decode_cursor(&offset), Ok((t, 0)));
    assert!(encode_cursor(Timestamp { secs: i64::MAX, nanos: 0 }, 0).is_none());
    assert!(!after(Timestamp { secs: 1, nanos: 1 }, t));
    assert!(after(t, Timestamp { secs: 1, nanos: 499_999_999 }));
}

#[test]
fn cursor_bytes_are_base64_and_utf8() {
    assert_eq!(decode_cursor("a"), Err(CursorError::NotBase64));
    assert_eq!(decode_cursor(&b64(&[0xc3])), Err(CursorError::NotUtf8));
    assert_eq!(decode_cursor(&b64("é|x".as_bytes())), Err(CursorError::BadTimestamp));
}

#[test]
fn the_clock_reads_the_present() {
    assert!(jwt_claims_now(0).iat > 1_600_000_000);
}

#[test]
fn text_helpers() {
    let v = chars_of(" \u{3000}\t a b \n");
    assert_eq!(trim_chars(&v), vec!['a', ' ', 'b']);
    assert_eq!(trim_quote_chars(&chars_of("\"\"x\"y\"")), vec!['x', '"', 'y']);
    assert!(contains_chars(&chars_of("hello"), &chars_of("ll")));
    assert!(contains_chars(&chars_of("hello"), &chars_of("")));
    assert!(!contains_chars(&chars_of("he"), &chars_of("hello")));
    assert!(ends_with_chars(&chars_of("a@b.com"), &chars_of("@b.com")));
}

#[test]
fn request_tokens() {
    assert_eq!(bearer_token(Some("Bearer abc.def")), Some("abc.def".to_string()));
    assert_eq!(bearer_token(Some("Bearer ")), Some(String::new()));
    assert_eq!(bearer_token(Some("bearer abc")), None);
    assert_eq!(bearer_token(None), None);
    assert_eq!(select_auth_token(Some("cookie"), Some("Bearer header")), Some("cookie".to_string()));
    assert_eq!(select_auth_token(None, Some("Bearer header")), Some("header".to_string()));
    assert_eq!(select_auth_token(None, Some("Basic x")), None);
}
