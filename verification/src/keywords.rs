//! Keyword rules: which sender and body a rule accepts, and the first rule
//! that matches an email.
use vstd::prelude::*;

use crate::text::{
    chars_of, contains_chars, contains_text, ends_with, ends_with_chars, has_char, lowercase,
    lowercase_chars, push_all, text_of, to_lowercase, trim, trim_chars, chars_equal,
};

verus! {

broadcast use vstd::string::group_string_axioms;

/// A stored keyword rule. `id` is the rule's UUID as a 128-bit integer.
#[derive(Debug)]
pub struct Keyword {
    pub id: u128,
    pub category: Option<String>,
    pub content: Option<String>,
    pub sender_pattern: Option<String>,
}

/// A request to create a keyword rule.
#[derive(Debug)]
pub struct CreateKeyword {
    pub category: Option<String>,
    pub content: Option<String>,
    pub sender_pattern: Option<String>,
}

// ── Specifications ───────────────────────────────────────────────────────────

/// The characters of an optional text.
pub open spec fn opt_text(o: Option<String>) -> Option<Seq<char>> {
    match o {
        Some(s) => Some(s@),
        None => None,
    }
}

/// An optional text is a real constraint: present and not blank after trimming.
pub open spec fn is_constraint(o: Option<Seq<char>>) -> bool {
    o matches Some(t) && trim(t).len() > 0
}

/// A sender matches a pattern: a pattern holding `@` names one address (compared
/// without regard to case); any other pattern names a domain, which the sender's
/// address must end with after an `@`.
pub open spec fn sender_matches_spec(sender: Seq<char>, pattern: Seq<char>) -> bool {
    let s = lowercase(sender);
    let p = lowercase(trim(pattern));
    if p.contains('@') {
        s == p
    } else {
        ends_with(s, seq!['@'] + p)
    }
}

/// The rule constrains the sender or the content.
pub open spec fn has_constraint(rule: Keyword) -> bool {
    is_constraint(opt_text(rule.sender_pattern)) || is_constraint(opt_text(rule.content))
}

/// The sender side of a rule accepts `sender`.
pub open spec fn sender_ok(rule: Keyword, sender: Seq<char>) -> bool {
    is_constraint(opt_text(rule.sender_pattern)) ==> sender_matches_spec(
        sender,
        opt_text(rule.sender_pattern)->0,
    )
}

/// The content side of a rule accepts `body` (both compared lower-cased).
pub open spec fn content_ok(rule: Keyword, body: Seq<char>) -> bool {
    is_constraint(opt_text(rule.content)) ==> contains_text(
        lowercase(body),
        lowercase(opt_text(rule.content)->0),
    )
}

/// A rule matches an email: it constrains something, and every constraint it
/// has accepts the email.
pub open spec fn rule_matches(rule: Keyword, sender: Seq<char>, body: Seq<char>) -> bool {
    has_constraint(rule) && sender_ok(rule, sender) && content_ok(rule, body)
}

/// `i` is the first rule of `rules` that matches.
pub open spec fn is_first_match(rules: Seq<Keyword>, sender: Seq<char>, body: Seq<char>, i: int) -> bool {
    &&& 0 <= i < rules.len()
    &&& rule_matches(rules[i], sender, body)
    &&& forall|j: int| 0 <= j < i ==> !rule_matches(#[trigger] rules[j], sender, body)
}

/// The category an email is classified under: that of the first rule that
/// matches it (none when that rule names none), or none when no rule matches.
pub open spec fn classification(rules: Seq<Keyword>, sender: Seq<char>, body: Seq<char>) -> Option<Seq<char>> {
    if exists|i: int| is_first_match(rules, sender, body, i) {
        opt_text(rules[choose|i: int| is_first_match(rules, sender, body, i)].category)
    } else {
        None
    }
}

/// A creation request carries at least one real constraint.
pub open spec fn request_is_valid(payload: CreateKeyword) -> bool {
    is_constraint(opt_text(payload.content)) || is_constraint(opt_text(payload.sender_pattern))
}

// ── Laws ─────────────────────────────────────────────────────────────────────

/// A rule without a sender pattern or content (or with only blank ones) matches
/// no email at all.
pub proof fn lemma_unconstrained_rule_matches_nothing(rule: Keyword, sender: Seq<char>, body: Seq<char>)
    requires
        !is_constraint(opt_text(rule.sender_pattern)),
        !is_constraint(opt_text(rule.content)),
    ensures
        !rule_matches(rule, sender, body),
{
}

/// Every rule stored from a request that creation accepts constrains something,
/// so it cannot match every email.
pub proof fn lemma_accepted_request_gives_constrained_rule(payload: CreateKeyword, id: u128)
    requires
        request_is_valid(payload),
    ensures
        has_constraint(
            Keyword {
                id,
                category: payload.category,
                content: payload.content,
                sender_pattern: payload.sender_pattern,
            },
        ),
{
}

/// A pattern that holds `@` accepts exactly the senders that equal it once both are
/// lower-cased (and the pattern trimmed).
pub proof fn lemma_address_pattern_is_exact(sender: Seq<char>, pattern: Seq<char>)
    requires
        lowercase(trim(pattern)).contains('@'),
    ensures
        sender_matches_spec(sender, pattern) <==> lowercase(sender) == lowercase(trim(pattern)),
{
}

/// There is at most one first matching rule.
pub proof fn lemma_first_match_unique(rules: Seq<Keyword>, sender: Seq<char>, body: Seq<char>, i: int, k: int)
    requires
        is_first_match(rules, sender, body, i),
        is_first_match(rules, sender, body, k),
    ensures
        i == k,
{
    if i < k {
        assert(!rule_matches(rules[i], sender, body));
    } else if k < i {
        assert(!rule_matches(rules[k], sender, body));
    }
}

/// Classifying an email gives the category of the rule that the keyword search
/// finds: the first matching rule decides, even when it names no category.
pub proof fn lemma_classification_is_the_first_match(
    rules: Seq<Keyword>,
    sender: Seq<char>,
    body: Seq<char>,
    i: int,
)
    requires
        is_first_match(rules, sender, body, i),
    ensures
        classification(rules, sender, body) == opt_text(rules[i].category),
{
    let k = choose|k: int| is_first_match(rules, sender, body, k);
    lemma_first_match_unique(rules, sender, body, i, k);
}

// ── Executable rules ─────────────────────────────────────────────────────────

fn constraint_chars(o: &Option<String>) -> (r: Option<Vec<char>>)
    ensures
        is_constraint(opt_text(*o)) <==> r is Some,
        r matches Some(v) ==> opt_text(*o) == Some(v@),
{
    match o {
        Some(s) => {
            let v = chars_of(s.as_str());
            let t = trim_chars(&v);
            if t.len() > 0 {
                Some(v)
            } else {
                None
            }
        },
        None => None,
    }
}

/// A text ends with `suffix` exactly when it is some text followed by `suffix`.
pub proof fn lemma_ends_with_is_suffix(hay: Seq<char>, suffix: Seq<char>)
    ensures
        ends_with(hay, suffix) <==> exists|head: Seq<char>| hay == head + suffix,
{
    if ends_with(hay, suffix) {
        let head = hay.subrange(0, hay.len() - suffix.len());
        assert(hay =~= head + suffix);
    }
    if exists|head: Seq<char>| hay == head + suffix {
        let head = choose|head: Seq<char>| hay == head + suffix;
        assert(hay.subrange(hay.len() - suffix.len(), hay.len() as int) =~= suffix);
    }
}

/// A pattern without `@` names a domain: it accepts exactly the senders whose
/// lower-cased address is some local part, then `@`, then the trimmed,
/// lower-cased pattern (so `company.com` accepts `a@company.com`, and neither
/// `a@mail.company.com` nor `a@notcompany.com`).
pub proof fn lemma_domain_pattern_matches_the_domain(sender: Seq<char>, pattern: Seq<char>)
    requires
        !lowercase(trim(pattern)).contains('@'),
    ensures
        sender_matches_spec(sender, pattern) <==> exists|local: Seq<char>|
            lowercase(sender) == local + seq!['@'] + lowercase(trim(pattern)),
{
    let p = lowercase(trim(pattern));
    lemma_ends_with_is_suffix(lowercase(sender), seq!['@'] + p);
    if exists|local: Seq<char>| lowercase(sender) == local + seq!['@'] + p {
        let local = choose|local: Seq<char>| lowercase(sender) == local + seq!['@'] + p;
        assert(local + seq!['@'] + p =~= local + (seq!['@'] + p));
    }
    if exists|head: Seq<char>| lowercase(sender) == head + (seq!['@'] + p) {
        let head = choose|head: Seq<char>| lowercase(sender) == head + (seq!['@'] + p);
        assert(head + seq!['@'] + p =~= head + (seq!['@'] + p));
    }
}

/// Whether `sender_email` matches `pattern` (see `sender_matches_spec`): a
/// pattern holding `@` is one address, compared without regard to case; any
/// other pattern is a domain, which must follow the `@` of the sender's address.
pub fn sender_matches(sender_email: &str, pattern: &str) -> (b: bool)
    ensures
        b == sender_matches_spec(sender_email@, pattern@),
        lowercase(trim(pattern@)).contains('@') ==> (b <==> lowercase(sender_email@) == lowercase(
            trim(pattern@),
        )),
        !lowercase(trim(pattern@)).contains('@') ==> (b <==> exists|local: Seq<char>|
            lowercase(sender_email@) == local + seq!['@'] + lowercase(trim(pattern@))),
{
    proof {
        if !lowercase(trim(pattern@)).contains('@') {
            lemma_domain_pattern_matches_the_domain(sender_email@, pattern@);
        }
    }
    let sender_lower = to_lowercase(sender_email);
    let pattern_chars = chars_of(pattern);
    let trimmed = trim_chars(&pattern_chars);
    let pattern_lower = lowercase_chars(&trimmed);
    if has_char(&pattern_lower, '@') {
        chars_equal(&sender_lower, &pattern_lower)
    } else {
        let mut suffix: Vec<char> = vec!['@'];
        push_all(&mut suffix, &pattern_lower);
        assert(suffix@ =~= seq!['@'] + pattern_lower@);
        ends_with_chars(&sender_lower, &suffix)
    }
}

fn rule_matches_lowered(rule: &Keyword, sender_email: &str, lower_body: &[char]) -> (b: bool)
    requires
        exists|body: Seq<char>| lower_body@ == lowercase(body),
    ensures
        forall|body: Seq<char>| lower_body@ == lowercase(body) ==> b == rule_matches(*rule, sender_email@, body),
{
    let sender_pattern = constraint_chars(&rule.sender_pattern);
    let content = constraint_chars(&rule.content);
    let sender_ok = match &sender_pattern {
        Some(p) => {
            let pattern = text_of(p);
            sender_matches(sender_email, pattern.as_str())
        },
        None => true,
    };
    let content_ok = match &content {
        Some(c) => {
            let lower_content = lowercase_chars(c);
            contains_chars(lower_body, &lower_content)
        },
        None => true,
    };
    let has_constraint = sender_pattern.is_some() || content.is_some();
    has_constraint && sender_ok && content_ok
}

/// The first rule that matches the sender and body, if any.
pub fn find_matching_keyword<'a>(keywords: &'a [Keyword], sender_email: &str, email_body: &str) -> (r: Option<&'a Keyword>)
    ensures
        match r {
            Some(k) => exists|i: int| is_first_match(keywords@, sender_email@, email_body@, i) && *k == keywords@[i],
            None => forall|i: int| 0 <= i < keywords@.len() ==> !rule_matches(#[trigger] keywords@[i], sender_email@, email_body@),
        },
{
    let lower_body = to_lowercase(email_body);
    let mut i: usize = 0;
    while i < keywords.len()
        invariant
            i <= keywords@.len(),
            lower_body@ == lowercase(email_body@),
            forall|j: int| 0 <= j < i ==> !rule_matches(#[trigger] keywords@[j], sender_email@, email_body@),
        decreases keywords@.len() - i,
    {
        if rule_matches_lowered(&keywords[i], sender_email, &lower_body) {
            assert(is_first_match(keywords@, sender_email@, email_body@, i as int));
            return Some(&keywords[i]);
        }
        i = i + 1;
    }
    None
}

/// The category of the first rule that matches the sender and body: none when
/// no rule matches or when that rule names no category.
pub fn classify_email(rules: &[Keyword], sender_email: &str, email_body: &str) -> (r: Option<String>)
    ensures
        opt_text(r) == classification(rules@, sender_email@, email_body@),
{
    match find_matching_keyword(rules, sender_email, email_body) {
        Some(rule) => {
            proof {
                let i = choose|i: int| is_first_match(rules@, sender_email@, email_body@, i) && *rule == rules@[i];
                lemma_classification_is_the_first_match(rules@, sender_email@, email_body@, i);
            }
            match &rule.category {
                Some(c) => Some(c.clone()),
                None => None,
            }
        },
        None => {
            proof {
                assert forall|i: int| !is_first_match(rules@, sender_email@, email_body@, i) by {
                    if 0 <= i < rules@.len() {
                        assert(!rule_matches(rules@[i], sender_email@, email_body@));
                    }
                }
            }
            None
        },
    }
}

/// Whether a creation request may be stored: it needs a non-blank content or a
/// non-blank sender pattern.
pub fn keyword_request_is_valid(payload: &CreateKeyword) -> (b: bool)
    ensures
        b == request_is_valid(*payload),
{
    let has_content = constraint_chars(&payload.content).is_some();
    let has_sender = constraint_chars(&payload.sender_pattern).is_some();
    has_content || has_sender
}

} // verus!
