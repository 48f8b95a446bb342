//! Instants in UTC, as whole seconds since the Unix epoch and nanoseconds
//! within the second (a leap second shows as nanoseconds of a billion or more).
use vstd::prelude::*;

verus! {

/// An instant in UTC.
#[derive(Clone, Copy, PartialEq, Eq, Debug, Structural)]
pub struct Timestamp {
    pub secs: i64,
    pub nanos: u32,
}

/// `a` is strictly later than `b`.
pub open spec fn is_after(a: Timestamp, b: Timestamp) -> bool {
    a.secs > b.secs || (a.secs == b.secs && a.nanos > b.nanos)
}

/// The instants that `chrono::DateTime<Utc>` can hold lie well inside these bounds.
pub open spec fn in_clock_range(t: Timestamp) -> bool {
    &&& -10_000_000_000_000 < t.secs < 10_000_000_000_000
    &&& t.nanos < 2_000_000_000
}

/// An instant that a reading of the system clock can give: since the Unix
/// epoch, no later than chrono's last instant, and outside a leap second.
pub open spec fn is_clock_reading(t: Timestamp) -> bool {
    &&& in_clock_range(t)
    &&& 0 <= t.secs <= 8_210_266_876_799
    &&& t.nanos < 1_000_000_000
}

/// The RFC 3339 text that `DateTime::to_rfc3339` writes for an instant, or
/// `None` where `DateTime::from_timestamp` cannot build the instant.
pub uninterp spec fn rfc3339_text(secs: i64, nanos: u32) -> Option<Seq<char>>;

/// The instant, as seconds and nanoseconds in UTC, that
/// `DateTime::parse_from_rfc3339` reads from a text, if it accepts it.
pub uninterp spec fn parsed_rfc3339(s: Seq<char>) -> Option<(i64, u32)>;

/// The instant lies in the years 0000 to 9999, whose RFC 3339 text has a
/// four-digit year (from 0000-01-01T00:00:00Z up to 10000-01-01T00:00:00Z).
pub open spec fn in_four_digit_years(t: Timestamp) -> bool {
    -62_167_219_200 <= t.secs < 253_402_300_800
}

/// The instant has RFC 3339 text with a four-digit year: it lies in the years
/// 0000 to 9999, and its nanoseconds are below a billion, or below two billion
/// in the last second of a minute (a leap second).
pub open spec fn has_rfc3339_text(t: Timestamp) -> bool {
    &&& in_four_digit_years(t)
    &&& (t.nanos < 1_000_000_000 || (t.nanos < 2_000_000_000 && t.secs % 60 == 59))
}

/// A character that `to_rfc3339` may write: a digit, a sign, `:`, `.` or `T`.
pub open spec fn rfc3339_char(c: char) -> bool {
    ('0' <= c && c <= '9') || c == '-' || c == '+' || c == ':' || c == '.' || c == 'T'
}

/// Decides `is_after`.
pub fn after(a: Timestamp, b: Timestamp) -> (r: bool)
    ensures
        r == is_after(a, b),
{
    a.secs > b.secs || (a.secs == b.secs && a.nanos > b.nanos)
}

/// The current instant (`chrono::Utc::now`). Which instant is left open: it
/// depends on the time of the call. What is stated is what every reading meets:
/// `Utc::now` takes the system time since the Unix epoch (it panics before the
/// epoch), with sub-second nanoseconds below a billion, and builds it with
/// `DateTime::from_timestamp(..).unwrap()`, so the instant is no later than
/// `DateTime::<Utc>::MAX_UTC` (the last second of the year 262142).
#[verifier::external_body]
pub(crate) fn now() -> (t: Timestamp)
    ensures
        in_clock_range(t),
        0 <= t.secs <= 8_210_266_876_799,
        t.nanos < 1_000_000_000,
{
    let t = chrono::Utc::now();
    Timestamp { secs: t.timestamp(), nanos: t.timestamp_subsec_nanos() }
}

/// `DateTime::from_timestamp(secs, nanos)` followed by `to_rfc3339`. The text is
/// named by `rfc3339_text`; it is made of digits, signs, `:`, `.` and `T` only.
/// `from_timestamp` builds every instant of `has_rfc3339_text` (its date lies well
/// inside chrono's range, and its nanoseconds pass `from_num_seconds_from_midnight_opt`).
#[verifier::external_body]
pub(crate) fn format_rfc3339(t: Timestamp) -> (r: Option<String>)
    ensures
        r matches Some(s) ==> rfc3339_text(t.secs, t.nanos) == Some(s@),
        r matches Some(s) ==> forall|i: int| 0 <= i < s@.len() ==> rfc3339_char(#[trigger] s@[i]),
        r is None ==> rfc3339_text(t.secs, t.nanos) is None,
        has_rfc3339_text(t) ==> r is Some,
{
    match chrono::DateTime::from_timestamp(t.secs, t.nanos) {
        Some(d) => Some(d.to_rfc3339()),
        None => None,
    }
}

/// `DateTime::parse_from_rfc3339`, converted to UTC. Its result is named by
/// `parsed_rfc3339`; the text that `to_rfc3339` writes for an instant in the
/// years 0000 to 9999 reads back as that instant, a leap second included (it is
/// written as second 60 and read back as second 59 plus a billion nanoseconds).
/// Other years are written with a sign and more or fewer digits, which the
/// parser, wanting four digits, refuses; nothing is stated of them.
#[verifier::external_body]
pub(crate) fn parse_rfc3339(s: &str) -> (r: Option<Timestamp>)
    ensures
        r matches Some(t) ==> parsed_rfc3339(s@) == Some((t.secs, t.nanos)),
        r is None ==> parsed_rfc3339(s@) is None,
        forall|secs: i64, nanos: u32|
            in_four_digit_years(Timestamp { secs, nanos }) && rfc3339_text(
                secs,
                nanos,
            ) == Some(s@) ==> r == Some(
                Timestamp { secs, nanos },
            ),
{
    match chrono::DateTime::parse_from_rfc3339(s) {
        Ok(d) => {
            let u = d.with_timezone(&chrono::Utc);
            Some(Timestamp { secs: u.timestamp(), nanos: u.timestamp_subsec_nanos() })
        },
        Err(_) => None,
    }
}

} // verus!
