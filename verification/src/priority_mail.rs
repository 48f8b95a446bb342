//! Priority mail: opaque pagination cursors and pages of newest-first rows.
use vstd::prelude::*;
use vstd::utf8::{decode_utf8, encode_utf8, encode_utf8_decode_utf8, encode_utf8_valid_utf8, valid_utf8};

use crate::codec::{base64_decode, base64_decoded, base64_encode, base64_text, utf8_text};
use crate::ids::{hyphenated, parse_uuid, parsed_uuid, uuid_text};
use crate::text::{chars_of, find_char, first_index, sub_chars, text_of, push_all};
use crate::timestamp::{
    format_rfc3339, has_rfc3339_text, in_four_digit_years, parse_rfc3339, parsed_rfc3339, rfc3339_char, rfc3339_text,
    Timestamp,
};

verus! {

broadcast use vstd::string::group_string_axioms;

/// A stored priority mail row. `id` is the row's UUID.
#[derive(Debug)]
pub struct PriorityMail {
    pub id: u128,
    pub sender_name: Option<String>,
    pub sender_email: String,
    pub summary: String,
    pub url_link: String,
    pub category: Option<String>,
    pub message_id: Option<String>,
    pub created_at: Timestamp,
}

/// The fields of a priority mail row to insert.
#[derive(Debug)]
pub struct CreatePriorityMail {
    pub sender_name: Option<String>,
    pub sender_email: String,
    pub summary: String,
    pub url_link: String,
    pub message_id: Option<String>,
    pub category: Option<String>,
}

/// Query parameters of a page request: an opaque cursor and a page size.
#[derive(Debug)]
pub struct CursorParams {
    pub cursor: Option<String>,
    pub limit: Option<i64>,
}

/// One page of rows, newest first, with the cursor of the next page.
#[derive(Debug)]
pub struct CursorPage {
    pub items: Vec<PriorityMail>,
    pub next_cursor: Option<String>,
    pub has_more: bool,
}

/// A validated page request: where to start and how many rows to return.
#[derive(Debug)]
pub struct PageRequest {
    pub cursor: Option<(Timestamp, u128)>,
    pub limit: i64,
}

/// Why a cursor could not be read.
#[derive(Clone, Copy, PartialEq, Eq, Debug, Structural)]
pub enum CursorError {
    NotBase64,
    NotUtf8,
    Malformed,
    BadTimestamp,
    BadId,
}

// ── Specifications ───────────────────────────────────────────────────────────

/// Every character is one that `to_rfc3339` may write (so none is `|`).
pub open spec fn rfc3339_shaped(s: Seq<char>) -> bool {
    forall|i: int| 0 <= i < s.len() ==> rfc3339_char(#[trigger] s[i])
}

/// The text inside a cursor: `<created_at as RFC 3339>|<id as UUID>`.
pub open spec fn cursor_raw(rfc: Seq<char>, id: u128) -> Seq<char> {
    rfc + seq!['|'] + hyphenated(id)
}

/// The cursor of a row position: the Base64 of its raw text, or `None` where the
/// instant has no RFC 3339 text.
pub open spec fn cursor_text(created_at: Timestamp, id: u128) -> Option<Seq<char>> {
    match rfc3339_text(created_at.secs, created_at.nanos) {
        Some(rfc) => Some(base64_text(encode_utf8(cursor_raw(rfc, id)))),
        None => None,
    }
}

/// What reading a cursor gives: its Base64 bytes as UTF-8, split at the first
/// `|` into an RFC 3339 instant and a UUID.
pub open spec fn cursor_position(s: Seq<char>) -> Result<(Timestamp, u128), CursorError> {
    match base64_decoded(s) {
        None => Err(CursorError::NotBase64),
        Some(bytes) => if !valid_utf8(bytes) {
            Err(CursorError::NotUtf8)
        } else {
            let raw = decode_utf8(bytes);
            match first_index(raw, '|') {
                None => Err(CursorError::Malformed),
                Some(i) => match parsed_rfc3339(raw.subrange(0, i)) {
                    None => Err(CursorError::BadTimestamp),
                    Some(t) => match parsed_uuid(raw.subrange(i + 1, raw.len() as int)) {
                        None => Err(CursorError::BadId),
                        Some(id) => Ok((Timestamp { secs: t.0, nanos: t.1 }, id)),
                    },
                },
            }
        },
    }
}

/// Whether a fetch of `limit + 1` rows shows a further page.
pub open spec fn page_has_more(fetched: Seq<PriorityMail>, limit: i64) -> bool {
    fetched.len() > limit
}

/// The rows of the page: at most `limit` of the fetched rows, in order.
pub open spec fn page_items(fetched: Seq<PriorityMail>, limit: i64) -> Seq<PriorityMail> {
    if page_has_more(fetched, limit) && limit >= 0 {
        fetched.take(limit as int)
    } else {
        fetched
    }
}

/// The page size of a request: 20 unless given, and kept within 1 to 100.
pub open spec fn page_limit(requested: Option<i64>) -> i64 {
    let l = match requested {
        Some(l) => l,
        None => 20,
    };
    if l < 1 {
        1
    } else if l > 100 {
        100
    } else {
        l
    }
}

// ── Laws ─────────────────────────────────────────────────────────────────────

/// A page never holds more rows than its size, and holds the first rows fetched,
/// in order.
pub proof fn lemma_page_is_bounded_prefix(fetched: Seq<PriorityMail>, limit: i64)
    requires
        limit >= 0,
    ensures
        page_items(fetched, limit).len() <= limit,
        page_items(fetched, limit) == fetched.take(page_items(fetched, limit).len() as int),
{
    assert(fetched.take(fetched.len() as int) =~= fetched);
}

/// With a page size of at least one, a page that has more after it is not empty,
/// so it has a last row to continue from.
pub proof fn lemma_more_pages_continue(fetched: Seq<PriorityMail>, limit: i64)
    requires
        limit >= 1,
        page_has_more(fetched, limit),
    ensures
        page_items(fetched, limit).len() == limit,
{
}

/// The page size of a request is always between 1 and 100.
pub proof fn lemma_page_limit_in_range(requested: Option<i64>)
    ensures
        1 <= page_limit(requested) <= 100,
        requested matches Some(l) ==> (1 <= l <= 100 ==> page_limit(requested) == l),
{
}

// ── Cursors ──────────────────────────────────────────────────────────────────

/// Encodes a row position `(created_at, id)` into an opaque cursor; `None` only
/// where the instant has no RFC 3339 text.
pub fn encode_cursor(created_at: Timestamp, id: u128) -> (r: Option<String>)
    ensures
        match r {
            Some(s) => cursor_text(created_at, id) == Some(s@),
            None => cursor_text(created_at, id) is None,
        },
        r is Some ==> rfc3339_shaped(rfc3339_text(created_at.secs, created_at.nanos)->0),
        has_rfc3339_text(created_at) ==> r is Some,
{
    let rfc = match format_rfc3339(created_at) {
        Some(t) => t,
        None => return None,
    };
    let mut raw = chars_of(rfc.as_str());
    raw.push('|');
    let id_text = uuid_text(id);
    let id_chars = chars_of(id_text.as_str());
    push_all(&mut raw, &id_chars);
    let raw_text = text_of(&raw);
    assert(raw_text@ =~= cursor_raw(rfc@, id));
    let encoded = base64_encode(raw_text.as_str().as_bytes());
    Some(encoded)
}

/// `s` is the cursor that `encode_cursor` writes for `(created_at, id)`, with an
/// instant in the years 0000 to 9999.
pub open spec fn written_for(s: Seq<char>, created_at: Timestamp, id: u128) -> bool {
    &&& in_four_digit_years(created_at)
    &&& cursor_text(created_at, id) == Some(s)
    &&& rfc3339_shaped(rfc3339_text(created_at.secs, created_at.nanos)->0)
}

proof fn lemma_written_cursor(s: Seq<char>, created_at: Timestamp, id: u128)
    requires
        written_for(s, created_at, id),
    ensures
        ({
            let rfc = rfc3339_text(created_at.secs, created_at.nanos)->0;
            let raw = cursor_raw(rfc, id);
            &&& s == base64_text(encode_utf8(raw))
            &&& valid_utf8(encode_utf8(raw))
            &&& decode_utf8(encode_utf8(raw)) == raw
            &&& first_index(raw, '|') == Some(rfc.len() as int)
            &&& raw.subrange(0, rfc.len() as int) == rfc
            &&& raw.subrange(rfc.len() as int + 1, raw.len() as int) == hyphenated(id)
        }),
{
    let rfc = rfc3339_text(created_at.secs, created_at.nanos)->0;
    let raw = cursor_raw(rfc, id);
    encode_utf8_valid_utf8(raw);
    encode_utf8_decode_utf8(raw);
    assert(raw[rfc.len() as int] == '|');
    assert forall|j: int| 0 <= j < rfc.len() implies raw[j] != '|' by {
        assert(rfc3339_char(rfc[j]));
    }
    crate::text::lemma_first_index(raw, '|', rfc.len() as int);
    assert(raw.subrange(0, rfc.len() as int) =~= rfc);
    assert(raw.subrange(rfc.len() as int + 1, raw.len() as int) =~= hyphenated(id));
}

/// Decodes an opaque cursor back into a row position. A cursor written by
/// `encode_cursor` for an instant in the years 0000 to 9999, a leap second
/// included, reads back as the position it was written for.
#[verifier::spinoff_prover]
#[verifier::rlimit(60)]
pub fn decode_cursor(cursor: &str) -> (r: Result<(Timestamp, u128), CursorError>)
    ensures
        r == cursor_position(cursor@),
        forall|created_at: Timestamp, id: u128|
            written_for(cursor@, created_at, id) ==> r == Ok::<(Timestamp, u128), CursorError>((created_at, id)),
{
    let bytes = match base64_decode(cursor) {
        Some(b) => b,
        None => {
            proof {
                assert forall|t: Timestamp, id: u128| !written_for(cursor@, t, id) by {
                    if written_for(cursor@, t, id) {
                        lemma_written_cursor(cursor@, t, id);
                    }
                }
            }
            return Err(CursorError::NotBase64);
        },
    };
    let ghost byte_seq = bytes@;
    proof {
        assert forall|t: Timestamp, id: u128| #[trigger] written_for(cursor@, t, id) implies byte_seq
            == encode_utf8(cursor_raw(rfc3339_text(t.secs, t.nanos)->0, id)) by {
            lemma_written_cursor(cursor@, t, id);
        }
    }
    let raw = match utf8_text(bytes) {
        Some(s) => s,
        None => {
            proof {
                assert forall|t: Timestamp, id: u128| !written_for(cursor@, t, id) by {
                    if written_for(cursor@, t, id) {
                        lemma_written_cursor(cursor@, t, id);
                    }
                }
            }
            return Err(CursorError::NotUtf8);
        },
    };
    let raw_chars = chars_of(raw.as_str());
    proof {
        assert forall|t: Timestamp, id: u128| #[trigger] written_for(cursor@, t, id) implies raw_chars@
            == cursor_raw(rfc3339_text(t.secs, t.nanos)->0, id) by {
            lemma_written_cursor(cursor@, t, id);
        }
    }
    let split = match find_char(&raw_chars, '|') {
        Some(i) => i,
        None => {
            proof {
                assert forall|t: Timestamp, id: u128| !written_for(cursor@, t, id) by {
                    if written_for(cursor@, t, id) {
                        lemma_written_cursor(cursor@, t, id);
                    }
                }
            }
            return Err(CursorError::Malformed);
        },
    };
    let n = raw_chars.len();
    assert(split < n);
    let ts_chars = sub_chars(&raw_chars, 0, split);
    let id_chars = sub_chars(&raw_chars, split + 1, n);
    let ts_text = text_of(&ts_chars);
    let id_text = text_of(&id_chars);
    proof {
        assert forall|t: Timestamp, id: u128| #[trigger] written_for(cursor@, t, id) implies ts_text@
            == rfc3339_text(t.secs, t.nanos)->0 && id_text@ == hyphenated(id) by {
            lemma_written_cursor(cursor@, t, id);
        }
    }
    let created_at = match parse_rfc3339(ts_text.as_str()) {
        Some(t) => t,
        None => {
            proof {
                assert forall|t: Timestamp, id: u128| !written_for(cursor@, t, id) by {
                    if written_for(cursor@, t, id) {
                        assert(ts_text@ == rfc3339_text(t.secs, t.nanos)->0);
                    }
                }
            }
            return Err(CursorError::BadTimestamp);
        },
    };
    let id = match parse_uuid(id_text.as_str()) {
        Some(v) => v,
        None => {
            proof {
                assert forall|t: Timestamp, i: u128| !written_for(cursor@, t, i) by {
                    if written_for(cursor@, t, i) {
                        assert(id_text@ == hyphenated(i));
                    }
                }
            }
            return Err(CursorError::BadId);
        },
    };
    proof {
        assert forall|t: Timestamp, i: u128| written_for(cursor@, t, i) implies (created_at, id) == (t, i) by {
            assert(ts_text@ == rfc3339_text(t.secs, t.nanos)->0);
            assert(id_text@ == hyphenated(i));
        }
    }
    Ok((created_at, id))
}

// ── Pages ────────────────────────────────────────────────────────────────────

/// Builds a page from rows fetched newest first, one more than `limit` when
/// available: keeps at most `limit` of them and, when more remain, gives the
/// cursor of the last row kept.
pub fn fetch_priority_mail_page(fetched: Vec<PriorityMail>, limit: i64) -> (page: CursorPage)
    ensures
        page.has_more == page_has_more(fetched@, limit),
        page.items@ == page_items(fetched@, limit),
        match page.next_cursor {
            Some(c) => page.has_more && page.items@.len() > 0 && cursor_text(
                page.items@.last().created_at,
                page.items@.last().id,
            ) == Some(c@),
            None => !(page.has_more && page.items@.len() > 0) || cursor_text(
                page.items@.last().created_at,
                page.items@.last().id,
            ) is None,
        },
        page.has_more && page.items@.len() > 0 && has_rfc3339_text(page.items@.last().created_at)
            ==> page.next_cursor is Some,
{
    let mut items = fetched;
    let fetched_len = items.len() as u64;
    let has_more = limit < 0 || fetched_len > limit as u64;
    if has_more && limit >= 0 {
        items.truncate(limit as usize);
    }
    let next_cursor = if has_more && items.len() > 0 {
        let last = &items[items.len() - 1];
        encode_cursor(last.created_at, last.id)
    } else {
        None
    };
    CursorPage { items, next_cursor, has_more }
}

/// Reads the query of a page request: the page size (see `page_limit`) and the
/// cursor, whose error is the request's error.
pub fn page_request(params: &CursorParams) -> (r: Result<PageRequest, CursorError>)
    ensures
        match r {
            Ok(req) => req.limit == page_limit(params.limit) && match params.cursor {
                Some(c) => cursor_position(c@) matches Ok(p) && req.cursor == Some(p),
                None => req.cursor is None,
            },
            Err(e) => params.cursor matches Some(c) && cursor_position(c@) == Err::<(Timestamp, u128), CursorError>(e),
        },
{
    let requested = match params.limit {
        Some(l) => l,
        None => 20,
    };
    let limit = if requested < 1 {
        1
    } else if requested > 100 {
        100
    } else {
        requested
    };
    let cursor = match &params.cursor {
        Some(c) => match decode_cursor(c.as_str()) {
            Ok(p) => Some(p),
            Err(e) => return Err(e),
        },
        None => None,
    };
    Ok(PageRequest { cursor, limit })
}

} // verus!
