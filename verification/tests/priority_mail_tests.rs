use base64::Engine;
use mail_triage::priority_mail::{
    decode_cursor, encode_cursor, fetch_priority_mail_page, page_request, CursorError, CursorParams,
    PriorityMail,
};
use mail_triage::timestamp::Timestamp;

const ID: u128 = 0x550e8400_e29b_41d4_a716_446655440000;

fn b64(s: &[u8]) -> String {
    base64::engine::general_purpose::STANDARD.encode(s)
}

#[test]
fn cursor_text_is_base64_of_rfc3339_and_uuid() {
    let ts = Timestamp { secs: 1_700_000_000, nanos: 0 };
    let c = encode_cursor(ts, ID).unwrap();
    assert_eq!(c, b64(b"2023-11-14T22:13:20+00:00|550e8400-e29b-41d4-a716-446655440000"));
}

#[test]
fn cursor_roundtrip() {
    for ts in [
        Timestamp { secs: 1_700_000_000, nanos: 0 },
        Timestamp { secs: 1_700_000_000, nanos: 123_456_000 },
        Timestamp { secs: -86_400, nanos: 1 },
    ] {
        let c = encode_cursor(ts, ID).unwrap();
        assert_eq!(decode_cursor(&c), Ok((ts, ID)));
    }
}

#[test]
fn cursor_errors() {
    assert_eq!(decode_cursor("!!!"), Err(CursorError::NotBase64));
    assert_eq!(decode_cursor(&b64(&[0xff, 0xfe])), Err(CursorError::NotUtf8));
    assert_eq!(decode_cursor(&b64(b"no separator")), Err(CursorError::Malformed));
    assert_eq!(decode_cursor(&b64(b"yesterday|550e8400-e29b-41d4-a716-446655440000")), Err(CursorError::BadTimestamp));
    assert_eq!(decode_cursor(&b64(b"2023-11-14T22:13:20+00:00|not-a-uuid")), Err(CursorError::BadId));
}

#[test]
fn cursor_accepts_other_offsets_and_uuid_forms() {
    let c = b64(b"2023-11-15T00:13:20+02:00|550E8400E29B41D4A716446655440000");
    assert_eq!(decode_cursor(&c), Ok((Timestamp { secs: 1_700_000_000, nanos: 0 }, ID)));
}

fn row(n: u128, secs: i64) -> PriorityMail {
    PriorityMail {
        id: n,
        sender_name: None,
        sender_email: format!("s{n}@x.com"),
        summary: "s".into(),
        url_link: "u".into(),
        category: None,
        message_id: None,
        created_at: Timestamp { secs, nanos: 0 },
    }
}

#[test]
fn page_with_more_rows_gives_a_cursor() {
    let page = fetch_priority_mail_page(vec![row(3, 300), row(2, 200), row(1, 100)], 2);
    assert!(page.has_more);
    assert_eq!(page.items.iter().map(|m| m.id).collect::<Vec<_>>(), vec![3, 2]);
    let next = page.next_cursor.unwrap();
    assert_eq!(decode_cursor(&next), Ok((Timestamp { secs: 200, nanos: 0 }, 2)));
}

#[test]
fn last_page_has_no_cursor() {
    let page = fetch_priority_mail_page(vec![row(2, 200), row(1, 100)], 2);
    assert!(!page.has_more);
    assert_eq!(page.items.len(), 2);
    assert!(page.next_cursor.is_none());
    let empty = fetch_priority_mail_page(vec![], 20);
    assert!(!empty.has_more && empty.items.is_empty() && empty.next_cursor.is_none());
}

#[test]
fn zero_limit_keeps_nothing() {
    let page = fetch_priority_mail_page(vec![row(1, 100)], 0);
    assert!(page.has_more);
    assert!(page.items.is_empty());
    assert!(page.next_cursor.is_none());
}

#[test]
fn page_size_is_clamped() {
    let p = |limit: Option<i64>| page_request(&CursorParams { cursor: None, limit }).unwrap().limit;
    assert_eq!(p(None), 20);
    assert_eq!(p(Some(0)), 1);
    assert_eq!(p(Some(-5)), 1);
    assert_eq!(p(Some(50)), 50);
    assert_eq!(p(Some(1000)), 100);
}

#[test]
fn page_request_reads_the_cursor() {
    let c = encode_cursor(Timestamp { secs: 5, nanos: 0 }, 9).unwrap();
    let req = page_request(&CursorParams { cursor: Some(c), limit: Some(10) }).unwrap();
    assert_eq!(req.cursor, Some((Timestamp { secs: 5, nanos: 0 }, 9)));
    let bad = page_request(&CursorParams { cursor: Some("%%".into()), limit: None });
    assert_eq!(bad.err(), Some(CursorError::NotBase64));
}

#[test]
fn cursors_roundtrip_only_with_four_digit_years() {
    let last_of_9999 = Timestamp { secs: 253_402_300_799, nanos: 999_000_000 };
    let c = encode_cursor(last_of_9999, ID).unwrap();
    assert_eq!(decode_cursor(&c), Ok((last_of_9999, ID)));
    let year_0 = Timestamp { secs: -62_167_219_200, nanos: 0 };
    let c = encode_cursor(year_0, ID).unwrap();
    assert_eq!(decode_cursor(&c), Ok((year_0, ID)));
    let year_10000 = Timestamp { secs: 253_402_300_800, nanos: 0 };
    let c = encode_cursor(year_10000, ID).unwrap();
    assert_eq!(c, b64(b"+10000-01-01T00:00:00+00:00|550e8400-e29b-41d4-a716-446655440000"));
    assert_eq!(decode_cursor(&c), Err(CursorError::BadTimestamp));
}

#[test]
fn leap_second_cursors_roundtrip() {
    // 2016-12-31T23:59:60.5Z
    let leap = Timestamp { secs: 1_483_228_799, nanos: 1_500_000_000 };
    let c = encode_cursor(leap, ID).unwrap();
    assert_eq!(c, b64(b"2016-12-31T23:59:60.500+00:00|550e8400-e29b-41d4-a716-446655440000"));
    assert_eq!(decode_cursor(&c), Ok((leap, ID)));
}
