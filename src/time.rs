use vstd::prelude::*;

use chrono::{DateTime, Utc};

verus! {

/// An instant in UTC: whole seconds since the Unix epoch and the nanoseconds past them.
#[derive(Clone, Copy, PartialEq, Eq, Debug, Structural)]
pub struct Timestamp {
    pub secs: i64,
    pub nanos: u32,
}

/// The instant that an RFC 3339 text denotes, as seconds and nanoseconds in UTC, or `None`
/// where the text is no RFC 3339 date and time.
pub uninterp spec fn rfc3339_instant(s: Seq<char>) -> Option<(i64, u32)>;

/// The RFC 3339 text of an instant in UTC, with the offset written `+00:00`.
pub uninterp spec fn rfc3339_text(secs: i64, nanos: u32) -> Seq<char>;

/// The text of an instant in UTC in the form `YYYY-MM-DDTHH:MM:SSZ`.
pub uninterp spec fn utc_seconds_text(secs: i64, nanos: u32) -> Seq<char>;

/// Relies on chrono's `Utc::now`: the current instant; nothing is known of its value.
#[verifier::external_body]
pub(crate) fn now() -> (r: Timestamp) {
    let t = Utc::now();
    Timestamp { secs: t.timestamp(), nanos: t.timestamp_subsec_nanos() }
}

/// Relies on chrono's `DateTime::parse_from_rfc3339`, taken to UTC: the instant of the text,
/// or `None` where chrono rejects it.
#[verifier::external_body]
pub(crate) fn parse_rfc3339(s: &str) -> (r: Option<Timestamp>)
    ensures
        r matches Some(t) ==> rfc3339_instant(s@) == Some((t.secs, t.nanos)),
        r is None ==> rfc3339_instant(s@) is None,
{
    match DateTime::parse_from_rfc3339(s) {
        Ok(d) => {
            let u = d.with_timezone(&Utc);
            Some(Timestamp { secs: u.timestamp(), nanos: u.timestamp_subsec_nanos() })
        },
        Err(_) => None,
    }
}

/// Whether a text has the characters of an RFC 3339 date and time: digits and `-+:.T` only,
/// with no two hyphens in a row.
pub open spec fn rfc3339_plain(s: Seq<char>) -> bool {
    &&& forall|i: int|
        0 <= i < s.len() ==> ('0' <= #[trigger] s[i] && s[i] <= '9') || s[i] == '-' || s[i] == '+'
            || s[i] == ':' || s[i] == '.' || s[i] == 'T'
    &&& forall|i: int| 0 <= i < s.len() - 1 ==> !(#[trigger] s[i] == '-' && s[i + 1] == '-')
}

/// Relies on chrono's `DateTime::<Utc>::from_timestamp` and `to_rfc3339`: the RFC 3339 text
/// of the instant (empty for an instant that chrono cannot represent). chrono writes the year
/// (with its sign only outside 0 to 9999), month, day, time, fraction and offset with digits,
/// `-`, `+`, `:`, `.` and `T`, never two hyphens in a row.
#[verifier::external_body]
pub(crate) fn format_rfc3339(t: Timestamp) -> (r: String)
    ensures
        r@ == rfc3339_text(t.secs, t.nanos),
        rfc3339_plain(r@),
{
    match DateTime::<Utc>::from_timestamp(t.secs, t.nanos) {
        Some(d) => d.to_rfc3339(),
        None => String::new(),
    }
}

/// Relies on chrono's `DateTime::<Utc>::from_timestamp` and `format` with
/// `%Y-%m-%dT%H:%M:%SZ` (empty for an instant that chrono cannot represent). A year takes at
/// most seven characters with its sign, so the text is short.
#[verifier::external_body]
pub(crate) fn format_utc_seconds(t: Timestamp) -> (r: String)
    ensures
        r@ == utc_seconds_text(t.secs, t.nanos),
        r@.len() <= 32,
{
    match DateTime::<Utc>::from_timestamp(t.secs, t.nanos) {
        Some(d) => d.format("%Y-%m-%dT%H:%M:%SZ").to_string(),
        None => String::new(),
    }
}

} // verus!
