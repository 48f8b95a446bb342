use mail_triage::keywords::{
    classify_email, find_matching_keyword, keyword_request_is_valid, sender_matches, CreateKeyword,
    Keyword,
};

fn rule(id: u128, category: Option<&str>, content: Option<&str>, sender: Option<&str>) -> Keyword {
    Keyword {
        id,
        category: category.map(|s| s.to_string()),
        content: content.map(|s| s.to_string()),
        sender_pattern: sender.map(|s| s.to_string()),
    }
}

#[test]
fn address_pattern_matches_ignoring_case_and_padding() {
    assert!(sender_matches("Alice@Company.com", "  alice@company.COM "));
    assert!(!sender_matches("bob@company.com", "alice@company.com"));
}

#[test]
fn domain_pattern_matches_addresses_of_the_domain() {
    assert!(sender_matches("anyone@company.com", "company.com"));
    assert!(sender_matches("Someone@COMPANY.com", " Company.Com"));
    assert!(!sender_matches("anyone@notcompany.com", "company.com"));
    assert!(!sender_matches("company.com", "company.com"));
    assert!(!sender_matches("anyone@company.com.evil", "company.com"));
}

#[test]
fn unicode_lowercasing_applies() {
    assert!(sender_matches("ÉLODIE@EXAMPLE.FR", "élodie@example.fr"));
}

#[test]
fn first_matching_rule_is_returned() {
    let rules = vec![
        rule(1, Some("billing"), Some("invoice"), Some("other.com")),
        rule(2, Some("work"), Some("Invoice"), None),
        rule(3, Some("later"), Some("invoice"), None),
    ];
    let found = find_matching_keyword(&rules, "a@company.com", "Your INVOICE is ready").unwrap();
    assert_eq!(found.id, 2);
}

#[test]
fn sender_and_content_must_both_match() {
    let rules = vec![rule(1, Some("vip"), Some("urgent"), Some("boss@corp.com"))];
    assert!(find_matching_keyword(&rules, "boss@corp.com", "this is URGENT").is_some());
    assert!(find_matching_keyword(&rules, "boss@corp.com", "nothing to see").is_none());
    assert!(find_matching_keyword(&rules, "intern@corp.com", "urgent").is_none());
}

#[test]
fn empty_rules_match_nothing() {
    let rules = vec![
        rule(1, Some("all"), None, None),
        rule(2, Some("blank"), Some("   "), Some("\t")),
    ];
    assert!(find_matching_keyword(&rules, "a@b.com", "anything").is_none());
    assert_eq!(classify_email(&rules, "a@b.com", "anything"), None);
}

#[test]
fn blank_content_does_not_constrain() {
    let rules = vec![rule(1, Some("team"), Some("  "), Some("team.org"))];
    let found = find_matching_keyword(&rules, "x@team.org", "hello");
    assert_eq!(found.unwrap().id, 1);
}

#[test]
fn first_matching_rule_decides_the_category() {
    let rules = vec![
        rule(1, None, Some("report"), None),
        rule(2, Some("reports"), Some("report"), None),
    ];
    assert_eq!(classify_email(&rules, "a@b.com", "Monthly Report attached"), None);
    assert_eq!(find_matching_keyword(&rules, "a@b.com", "Monthly Report attached").unwrap().id, 1);
    let rules = vec![
        rule(1, Some("billing"), Some("invoice"), None),
        rule(2, Some("reports"), Some("report"), None),
    ];
    assert_eq!(
        classify_email(&rules, "a@b.com", "Monthly Report attached"),
        Some("reports".to_string())
    );
}

#[test]
fn keyword_requests_need_a_constraint() {
    let empty = CreateKeyword { category: Some("x".into()), content: None, sender_pattern: None };
    let blank = CreateKeyword { category: None, content: Some("  ".into()), sender_pattern: Some("".into()) };
    let content = CreateKeyword { category: None, content: Some("sale".into()), sender_pattern: None };
    let sender = CreateKeyword { category: None, content: None, sender_pattern: Some(" shop.com".into()) };
    assert!(!keyword_request_is_valid(&empty));
    assert!(!keyword_request_is_valid(&blank));
    assert!(keyword_request_is_valid(&content));
    assert!(keyword_request_is_valid(&sender));
}
