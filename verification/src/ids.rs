//! UUIDs, held as 128-bit integers (the big-endian value of their 16 bytes).
use vstd::prelude::*;

verus! {

/// 16 to the power `e`.
pub open spec fn pow16(e: nat) -> int
    decreases e,
{
    if e == 0 {
        1
    } else {
        16 * pow16((e - 1) as nat)
    }
}

/// The `k`-th hexadecimal digit of `v`, counting from the most significant (0 to 31).
pub open spec fn nibble(v: u128, k: int) -> int {
    (v as int / pow16((31 - k) as nat)) % 16
}

/// The lower-case hexadecimal character of a digit value below 16.
pub open spec fn hex_char(d: int) -> char {
    if d < 10 {
        (('0' as int) + d) as char
    } else {
        (('a' as int) + d - 10) as char
    }
}

/// Which digit stands at position `i` of the hyphenated form.
pub open spec fn digit_at(i: int) -> int {
    if i < 8 {
        i
    } else if i < 13 {
        i - 1
    } else if i < 18 {
        i - 2
    } else if i < 23 {
        i - 3
    } else {
        i - 4
    }
}

/// The hyphenated lower-case form `xxxxxxxx-xxxx-xxxx-xxxx-xxxxxxxxxxxx` that
/// `Uuid`'s `Display` writes.
pub open spec fn hyphenated(v: u128) -> Seq<char> {
    Seq::new(
        36,
        |i: int|
            if i == 8 || i == 13 || i == 18 || i == 23 {
                '-'
            } else {
                hex_char(nibble(v, digit_at(i)))
            },
    )
}

/// What `Uuid::parse_str` makes of a text (as a 128-bit value), if it accepts it.
pub uninterp spec fn parsed_uuid(s: Seq<char>) -> Option<u128>;

/// The text of a UUID: `Uuid::from_u128(id).to_string()`, which the `uuid`
/// crate writes in hyphenated lower-case form.
#[verifier::external_body]
pub(crate) fn uuid_text(id: u128) -> (s: String)
    ensures
        s@ == hyphenated(id),
{
    uuid::Uuid::from_u128(id).to_string()
}

/// `Uuid::parse_str`. Its result is named by `parsed_uuid`; the crate reads the
/// hyphenated form back as the UUID that was written.
#[verifier::external_body]
pub(crate) fn parse_uuid(s: &str) -> (r: Option<u128>)
    ensures
        r == parsed_uuid(s@),
        forall|v: u128| s@ == hyphenated(v) ==> r == Some(v),
{
    match uuid::Uuid::parse_str(s) {
        Ok(u) => Some(u.as_u128()),
        Err(_) => None,
    }
}

} // verus!
