//! Inbox crawling decisions: reading Gmail message headers and deciding, for
//! each message, whether a keyword makes it priority mail and what is stored.
use vstd::prelude::*;

use crate::keywords::{opt_text, Keyword};
use crate::notifications::CreateNotification;
use crate::priority_mail::CreatePriorityMail;
use crate::text::{
    chars_of, contains_chars, contains_text, eq_ignore_ascii_case, eq_ignore_ascii_case_chars,
    find_char, first_index, lowercase, lowercase_chars, push_all, sub_chars, text_of, trim,
    trim_chars, trim_quote_chars, trim_quotes,
};

verus! {

broadcast use vstd::string::group_string_axioms;

/// One header of a Gmail message.
#[derive(Debug)]
pub struct GmailHeader {
    pub name: String,
    pub value: String,
}

/// The parts of a Gmail message that the crawler reads.
#[derive(Debug)]
pub struct GmailMessage {
    pub id: String,
    pub headers: Vec<GmailHeader>,
    pub snippet: Option<String>,
}

/// What a matching message stores: a priority mail row and a notification.
#[derive(Debug)]
pub struct CrawlMatch {
    pub priority_mail: CreatePriorityMail,
    pub notification: CreateNotification,
}

// ── Specifications ───────────────────────────────────────────────────────────

/// `i` is the first header whose name equals `name`, ignoring ASCII case.
pub open spec fn is_first_header(headers: Seq<GmailHeader>, name: Seq<char>, i: int) -> bool {
    &&& 0 <= i < headers.len()
    &&& eq_ignore_ascii_case(headers[i].name@, name)
    &&& forall|j: int| 0 <= j < i ==> !eq_ignore_ascii_case(#[trigger] headers[j].name@, name)
}

/// The value of the first header named `name` (ignoring ASCII case), if any.
pub open spec fn header_value(headers: Seq<GmailHeader>, name: Seq<char>) -> Option<Seq<char>> {
    if exists|i: int| is_first_header(headers, name, i) {
        Some(headers[choose|i: int| is_first_header(headers, name, i)].value@)
    } else {
        None
    }
}

/// The text of an optional value, empty when absent.
pub open spec fn or_empty(o: Option<Seq<char>>) -> Seq<char> {
    match o {
        Some(s) => s,
        None => seq![],
    }
}

/// A `From` header the parser can slice: when it holds both `<` and `>`, the
/// first `<` comes before the first `>`.
pub open spec fn from_header_sliceable(from: Seq<char>) -> bool {
    match (first_index(from, '<'), first_index(from, '>')) {
        (Some(a), Some(b)) => a < b,
        _ => true,
    }
}

/// `Display Name <email@example.com>` read as (name, email): the name is the
/// trimmed text before `<` without surrounding quotes (none when empty), the
/// email the trimmed text between `<` and `>`. Without both brackets the whole
/// trimmed header is the email.
pub open spec fn from_parts(from: Seq<char>) -> (Option<Seq<char>>, Seq<char>) {
    match (first_index(from, '<'), first_index(from, '>')) {
        (Some(a), Some(b)) => {
            let name = trim_quotes(trim(from.subrange(0, a)));
            (if name.len() > 0 {
                Some(name)
            } else {
                None
            }, trim(from.subrange(a + 1, b)))
        },
        _ => (None, trim(from)),
    }
}

/// A keyword hits the scanned text: it has a content, and the text holds its
/// lower-cased form.
pub open spec fn keyword_hits(keyword: Keyword, scanned: Seq<char>) -> bool {
    opt_text(keyword.content) matches Some(c) && contains_text(scanned, lowercase(c))
}

/// `k` is the first keyword that hits the scanned text.
pub open spec fn is_first_hit(keywords: Seq<Keyword>, scanned: Seq<char>, k: int) -> bool {
    &&& 0 <= k < keywords.len()
    &&& keyword_hits(keywords[k], scanned)
    &&& forall|j: int| 0 <= j < k ==> !keyword_hits(#[trigger] keywords[j], scanned)
}

/// The From header of a message (empty when absent).
pub open spec fn from_of(msg: GmailMessage) -> Seq<char> {
    or_empty(header_value(msg.headers@, "From"@))
}

/// The Subject header of a message (empty when absent).
pub open spec fn subject_of(msg: GmailMessage) -> Seq<char> {
    or_empty(header_value(msg.headers@, "Subject"@))
}

/// The snippet of a message (empty when absent).
pub open spec fn snippet_of(msg: GmailMessage) -> Seq<char> {
    or_empty(opt_text(msg.snippet))
}

/// The text scanned for keywords: subject and snippet, lower-cased.
pub open spec fn scanned_text(msg: GmailMessage) -> Seq<char> {
    lowercase(subject_of(msg) + " "@ + snippet_of(msg))
}

/// The category label of a summary: the keyword's category, or `General`.
pub open spec fn category_label(keyword: Keyword) -> Seq<char> {
    match opt_text(keyword.category) {
        Some(c) => c,
        None => "General"@,
    }
}

/// The first 100 characters of a text.
pub open spec fn first_100(s: Seq<char>) -> Seq<char> {
    if s.len() <= 100 {
        s
    } else {
        s.take(100)
    }
}

/// What a message matched by `keyword` stores.
pub open spec fn is_match_of(m: CrawlMatch, keyword: Keyword, msg: GmailMessage) -> bool {
    let (name, email) = from_parts(from_of(msg));
    let subject = subject_of(msg);
    &&& opt_text(m.priority_mail.sender_name) == name
    &&& m.priority_mail.sender_email@ == email
    &&& m.priority_mail.summary@ == "["@ + category_label(keyword) + "] "@ + subject + " \u{2014} "@
        + first_100(snippet_of(msg))
    &&& m.priority_mail.url_link@ == "https://mail.google.com/mail/u/0/#inbox/"@ + msg.id@
    &&& opt_text(m.priority_mail.message_id) == Some(msg.id@)
    &&& opt_text(m.priority_mail.category) == opt_text(keyword.category)
    &&& opt_text(m.notification.sender_name) == name
    &&& m.notification.summary@ == "Priority email from "@ + email + ": "@ + subject
}

/// Keyword search in the crawler ignores case: a keyword hits a message exactly
/// when the lower-cased subject, a space and the lower-cased snippet text hold the
/// lower-cased keyword content, so "urgent" hits a subject "URGENT: server down".
pub proof fn lemma_keyword_hits_ignore_case(keyword: Keyword, msg: GmailMessage)
    ensures
        keyword_hits(keyword, scanned_text(msg)) <==> (opt_text(keyword.content) matches Some(c)
            && contains_text(lowercase(subject_of(msg) + " "@ + snippet_of(msg)), lowercase(c))),
{
}

// ── Executable ───────────────────────────────────────────────────────────────

/// The value of the first header named `name`, ignoring ASCII case.
pub fn extract_header(headers: &[GmailHeader], name: &str) -> (r: Option<String>)
    ensures
        opt_text(r) == header_value(headers@, name@),
{
    let name_chars = chars_of(name);
    let mut i: usize = 0;
    while i < headers.len()
        invariant
            i <= headers@.len(),
            name_chars@ == name@,
            forall|j: int| 0 <= j < i ==> !eq_ignore_ascii_case(#[trigger] headers@[j].name@, name@),
        decreases headers@.len() - i,
    {
        let header_name = chars_of(headers[i].name.as_str());
        if eq_ignore_ascii_case_chars(&header_name, &name_chars) {
            proof {
                assert(is_first_header(headers@, name@, i as int));
                let k = choose|k: int| is_first_header(headers@, name@, k);
                assert(k == i) by {
                    if k < i {
                        assert(!eq_ignore_ascii_case(headers@[k].name@, name@));
                    } else if k > i {
                        assert(!eq_ignore_ascii_case(headers@[i as int].name@, name@));
                    }
                }
            }
            return Some(headers[i].value.clone());
        }
        i = i + 1;
    }
    None
}

/// Decides `from_header_sliceable`.
pub fn from_header_is_sliceable(from: &str) -> (b: bool)
    ensures
        b == from_header_sliceable(from@),
{
    let chars = chars_of(from);
    match (find_char(&chars, '<'), find_char(&chars, '>')) {
        (Some(a), Some(b)) => a < b,
        _ => true,
    }
}

/// Parses `Display Name <email@example.com>` into (name, email) (see `from_parts`).
pub fn parse_from_header(from: &str) -> (r: (Option<String>, String))
    requires
        from_header_sliceable(from@),
    ensures
        (opt_text(r.0), r.1@) == from_parts(from@),
{
    let chars = chars_of(from);
    match (find_char(&chars, '<'), find_char(&chars, '>')) {
        (Some(start), Some(end)) => {
            let before = sub_chars(&chars, 0, start);
            let name = trim_quote_chars(&trim_chars(&before));
            let inner = sub_chars(&chars, start + 1, end);
            let email = trim_chars(&inner);
            let name_text = if name.len() > 0 {
                Some(text_of(&name))
            } else {
                None
            };
            (name_text, text_of(&email))
        },
        _ => {
            let email = trim_chars(&chars);
            (None, text_of(&email))
        },
    }
}

fn value_or_empty(o: Option<String>) -> (r: Vec<char>)
    ensures
        r@ == or_empty(opt_text(o)),
{
    match o {
        Some(s) => chars_of(s.as_str()),
        None => Vec::new(),
    }
}

/// Decides whether a message can be evaluated: its From header can be sliced.
pub fn message_can_be_evaluated(msg: &GmailMessage) -> (b: bool)
    ensures
        b == from_header_sliceable(from_of(*msg)),
{
    let from = text_of(&value_or_empty(extract_header(&msg.headers, "From")));
    from_header_is_sliceable(from.as_str())
}

fn literal(s: &str) -> (r: Vec<char>)
    ensures
        r@ == s@,
{
    chars_of(s)
}

/// What a message matched by `keyword` stores (see `is_match_of`).
#[verifier::rlimit(40)]
fn build_match(keyword: &Keyword, msg: &GmailMessage, from: &str, subject: &[char], snippet: &[char]) -> (m: CrawlMatch)
    requires
        from@ == from_of(*msg),
        subject@ == subject_of(*msg),
        snippet@ == snippet_of(*msg),
        from_header_sliceable(from@),
    ensures
        is_match_of(m, *keyword, *msg),
{
    let (sender_name, sender_email) = parse_from_header(from);
    let category = keyword.category.clone();
    let label = match &keyword.category {
        Some(c) => chars_of(c.as_str()),
        None => literal("General"),
    };
    let snippet_head = if snippet.len() <= 100 {
        sub_chars(snippet, 0, snippet.len())
    } else {
        sub_chars(snippet, 0, 100)
    };
    proof {
        if snippet@.len() > 100 {
            assert(snippet@.subrange(0, 100) =~= snippet@.take(100));
        } else {
            assert(snippet@.subrange(0, snippet@.len() as int) =~= snippet@);
        }
    }
    let mut summary = literal("[");
    push_all(&mut summary, &label);
    push_all(&mut summary, &literal("] "));
    push_all(&mut summary, subject);
    push_all(&mut summary, &literal(" \u{2014} "));
    push_all(&mut summary, &snippet_head);
    let mut url = literal("https://mail.google.com/mail/u/0/#inbox/");
    push_all(&mut url, &chars_of(msg.id.as_str()));
    let email_chars = chars_of(sender_email.as_str());
    let mut note = literal("Priority email from ");
    push_all(&mut note, &email_chars);
    push_all(&mut note, &literal(": "));
    push_all(&mut note, subject);
    let notification_name = sender_name.clone();
    CrawlMatch {
        priority_mail: CreatePriorityMail {
            sender_name,
            sender_email,
            summary: text_of(&summary),
            url_link: text_of(&url),
            message_id: Some(msg.id.clone()),
            category,
        },
        notification: CreateNotification { sender_name: notification_name, summary: text_of(&note) },
    }
}

/// Evaluates one message against the keywords: the first keyword whose content
/// the lower-cased subject and snippet hold makes the message priority mail.
pub fn evaluate_message(keywords: &[Keyword], msg: &GmailMessage) -> (r: Option<CrawlMatch>)
    requires
        from_header_sliceable(from_of(*msg)),
    ensures
        match r {
            Some(m) => exists|k: int|
                is_first_hit(keywords@, scanned_text(*msg), k) && is_match_of(m, keywords@[k], *msg),
            None => forall|k: int|
                0 <= k < keywords@.len() ==> !keyword_hits(#[trigger] keywords@[k], scanned_text(*msg)),
        },
        r is Some <==> exists|k: int|
            0 <= k < keywords@.len() && (opt_text(#[trigger] keywords@[k].content) matches Some(c)
                && contains_text(lowercase(subject_of(*msg) + " "@ + snippet_of(*msg)), lowercase(c))),
        r matches Some(m) ==> exists|k: int|
            0 <= k < keywords@.len() && (opt_text(#[trigger] keywords@[k].content) matches Some(c)
                && contains_text(lowercase(subject_of(*msg) + " "@ + snippet_of(*msg)), lowercase(c)))
                && opt_text(m.priority_mail.category) == opt_text(keywords@[k].category)
                && forall|j: int| 0 <= j < k ==> !(opt_text(#[trigger] keywords@[j].content) matches Some(c)
                    && contains_text(lowercase(subject_of(*msg) + " "@ + snippet_of(*msg)), lowercase(c))),
{
    let from = text_of(&value_or_empty(extract_header(&msg.headers, "From")));
    let subject = value_or_empty(extract_header(&msg.headers, "Subject"));
    let snippet = match &msg.snippet {
        Some(s) => chars_of(s.as_str()),
        None => Vec::new(),
    };
    let mut joined = literal("");
    push_all(&mut joined, &subject);
    push_all(&mut joined, &literal(" "));
    push_all(&mut joined, &snippet);
    let scanned = lowercase_chars(&joined);
    proof {
        assert(joined@ =~= subject_of(*msg) + " "@ + snippet_of(*msg)) by {
            reveal_strlit("");
        }
    }
    let mut k: usize = 0;
    while k < keywords.len()
        invariant
            k <= keywords@.len(),
            scanned@ == scanned_text(*msg),
            from@ == from_of(*msg),
            subject@ == subject_of(*msg),
            snippet@ == snippet_of(*msg),
            from_header_sliceable(from_of(*msg)),
            forall|j: int| 0 <= j < k ==> !keyword_hits(#[trigger] keywords@[j], scanned_text(*msg)),
        decreases keywords@.len() - k,
    {
        let keyword = &keywords[k];
        let hit = match &keyword.content {
            Some(c) => {
                let content = lowercase_chars(&chars_of(c.as_str()));
                contains_chars(&scanned, &content)
            },
            None => false,
        };
        if hit {
            let m = build_match(keyword, msg, from.as_str(), &subject, &snippet);
            assert(is_first_hit(keywords@, scanned_text(*msg), k as int));
            return Some(m);
        }
        k = k + 1;
    }
    None
}

} // verus!
