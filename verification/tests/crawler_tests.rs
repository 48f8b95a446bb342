use mail_triage::crawler::{
    evaluate_message, extract_header, from_header_is_sliceable, message_can_be_evaluated,
    parse_from_header, GmailHeader, GmailMessage,
};
use mail_triage::keywords::Keyword;

fn header(name: &str, value: &str) -> GmailHeader {
    GmailHeader { name: name.to_string(), value: value.to_string() }
}

fn keyword(id: u128, category: Option<&str>, content: Option<&str>) -> Keyword {
    Keyword {
        id,
        category: category.map(|s| s.to_string()),
        content: content.map(|s| s.to_string()),
        sender_pattern: None,
    }
}

#[test]
fn header_lookup_ignores_ascii_case_and_takes_the_first() {
    let headers = vec![header("subject", "first"), header("SUBJECT", "second"), header("From", "a@b.c")];
    assert_eq!(extract_header(&headers, "Subject"), Some("first".to_string()));
    assert_eq!(extract_header(&headers, "from"), Some("a@b.c".to_string()));
    assert_eq!(extract_header(&headers, "To"), None);
}

#[test]
fn from_header_with_display_name() {
    assert_eq!(
        parse_from_header("\"Jane Doe\" <jane@example.com>"),
        (Some("Jane Doe".to_string()), "jane@example.com".to_string())
    );
    assert_eq!(
        parse_from_header("  Bob   < bob@example.com >"),
        (Some("Bob".to_string()), "bob@example.com".to_string())
    );
}

#[test]
fn from_header_without_name_or_brackets() {
    assert_eq!(parse_from_header("<only@example.com>"), (None, "only@example.com".to_string()));
    assert_eq!(parse_from_header("\"\" <q@example.com>"), (None, "q@example.com".to_string()));
    assert_eq!(parse_from_header("  plain@example.com "), (None, "plain@example.com".to_string()));
    assert_eq!(parse_from_header("name <unterminated"), (None, "name <unterminated".to_string()));
}

#[test]
fn reversed_brackets_cannot_be_parsed() {
    assert!(!from_header_is_sliceable("a > b < c"));
    assert!(from_header_is_sliceable("a < b > c"));
    assert!(from_header_is_sliceable("no brackets"));
}

fn message(from: &str, subject: &str, snippet: Option<&str>) -> GmailMessage {
    GmailMessage {
        id: "18c2f".to_string(),
        headers: vec![header("From", from), header("Subject", subject)],
        snippet: snippet.map(|s| s.to_string()),
    }
}

#[test]
fn matching_message_builds_mail_and_notification() {
    let keywords = vec![
        keyword(1, Some("Other"), None),
        keyword(2, Some("Finance"), Some("INVOICE")),
        keyword(3, Some("Late"), Some("invoice")),
    ];
    let msg = message("\"Jane\" <jane@x.com>", "Your invoice", Some("Please pay soon"));
    assert!(message_can_be_evaluated(&msg));
    let m = evaluate_message(&keywords, &msg).unwrap();
    assert_eq!(m.priority_mail.sender_name, Some("Jane".to_string()));
    assert_eq!(m.priority_mail.sender_email, "jane@x.com");
    assert_eq!(m.priority_mail.summary, "[Finance] Your invoice \u{2014} Please pay soon");
    assert_eq!(m.priority_mail.url_link, "https://mail.google.com/mail/u/0/#inbox/18c2f");
    assert_eq!(m.priority_mail.message_id, Some("18c2f".to_string()));
    assert_eq!(m.priority_mail.category, Some("Finance".to_string()));
    assert_eq!(m.notification.sender_name, Some("Jane".to_string()));
    assert_eq!(m.notification.summary, "Priority email from jane@x.com: Your invoice");
}

#[test]
fn snippet_matches_too_and_summary_keeps_100_characters() {
    let long_snippet: String = std::iter::repeat('z').take(150).collect::<String>() + " deadline";
    let keywords = vec![keyword(7, None, Some("Deadline"))];
    let msg = message("boss@corp.com", "Re: plan", Some(&long_snippet));
    let m = evaluate_message(&keywords, &msg).unwrap();
    let expected = format!("[General] Re: plan \u{2014} {}", "z".repeat(100));
    assert_eq!(m.priority_mail.summary, expected);
    assert_eq!(m.priority_mail.sender_name, None);
    assert_eq!(m.priority_mail.category, None);
}

#[test]
fn unmatched_message_gives_nothing() {
    let keywords = vec![keyword(1, Some("x"), Some("urgent"))];
    let msg = message("a@b.com", "hello", None);
    assert!(evaluate_message(&keywords, &msg).is_none());
    let no_headers = GmailMessage { id: "1".into(), headers: vec![], snippet: None };
    assert!(evaluate_message(&keywords, &no_headers).is_none());
}
