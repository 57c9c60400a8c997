//! Time stamps: the current time from `chrono`, and RFC 3339 text read back
//! into an instant.

use vstd::prelude::*;

verus! {

/// An instant in UTC: seconds since the Unix epoch and the nanoseconds within that second.
#[derive(Debug, Clone, Copy, PartialEq, Eq)]
pub struct UtcTime {
    pub secs: i64,
    pub nanos: u32,
}

/// The instant that `chrono::DateTime::parse_from_rfc3339` reads from a text,
/// as UTC seconds and sub-second nanoseconds; `None` where it rejects the text.
pub uninterp spec fn rfc3339_instant(s: Seq<char>) -> Option<(i64, u32)>;

/// Reads an RFC 3339 text with `chrono::DateTime::parse_from_rfc3339`.
/// Claimed: the result is the named `rfc3339_instant` of the text.
#[verifier::external_body]
pub fn parse_rfc3339(s: &str) -> (r: Option<(i64, u32)>)
    ensures
        r == rfc3339_instant(s@),
{
    match chrono::DateTime::parse_from_rfc3339(s) {
        Ok(dt) => Some((dt.timestamp(), dt.timestamp_subsec_nanos())),
        Err(_) => None,
    }
}

/// The current instant, from `chrono::Utc::now`. Nothing is claimed of it:
/// it depends on the clock.
#[verifier::external_body]
pub fn utc_now() -> (r: UtcTime) {
    let now = chrono::Utc::now();
    UtcTime { secs: now.timestamp(), nanos: now.timestamp_subsec_nanos() }
}

/// The current instant as RFC 3339 text, from `chrono::Utc::now` and
/// `DateTime::to_rfc3339`. Claimed: the text reads back as an RFC 3339
/// instant; which instant depends on the clock and is not claimed.
#[verifier::external_body]
pub fn now_rfc3339() -> (r: String)
    ensures
        rfc3339_instant(r@) is Some,
{
    chrono::Utc::now().to_rfc3339()
}

/// Reads a stored time stamp; where the text is not RFC 3339 the current
/// instant stands in for it.
pub fn parse_dt(s: &str) -> (r: UtcTime)
    ensures
        rfc3339_instant(s@) matches Some(t) ==> r == (UtcTime { secs: t.0, nanos: t.1 }),
{
    match parse_rfc3339(s) {
        Some(t) => UtcTime { secs: t.0, nanos: t.1 },
        None => utc_now(),
    }
}

} // verus!
