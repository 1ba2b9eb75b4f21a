//! Instants as plain values, and the few `chrono` calls that read, print
//! or take them.

use vstd::prelude::*;
use chrono::{DateTime, Utc};

verus! {

/// An instant: whole seconds since the Unix epoch and the nanoseconds past
/// that second (as `chrono` reports them, up to 1_999_999_999 inside a leap
/// second). Instants order by seconds, then nanoseconds.
#[derive(Debug, Clone, Copy, PartialEq, Eq, Structural, Hash)]
pub struct Timestamp {
    pub secs: i64,
    pub nanos: u32,
}

/// `a` is strictly earlier than `b`.
pub open spec fn ts_lt(a: Timestamp, b: Timestamp) -> bool {
    a.secs < b.secs || (a.secs == b.secs && a.nanos < b.nanos)
}

impl Timestamp {
    /// Whether `self` is strictly earlier than `other`.
    pub fn before(&self, other: &Timestamp) -> (r: bool)
        ensures
            r == ts_lt(*self, *other),
    {
        self.secs < other.secs || (self.secs == other.secs && self.nanos < other.nanos)
    }

    /// Whole seconds from `self` until `later`, rounded toward zero, and 0
    /// when `later` is not after `self` (`(later - self).num_seconds().max(0)`).
    pub fn seconds_until(&self, later: &Timestamp) -> (r: i64)
        ensures
            r == spec_seconds_until(*self, *later),
    {
        let diff: i128 = (later.secs as i128 - self.secs as i128) * 1_000_000_000
            + (later.nanos as i128 - self.nanos as i128);
        if diff <= 0 {
            0
        } else {
            let s = diff / 1_000_000_000;
            if s > i64::MAX as i128 {
                i64::MAX
            } else {
                s as i64
            }
        }
    }
}

/// Nanoseconds from `a` to `b`.
pub open spec fn nanos_between(a: Timestamp, b: Timestamp) -> int {
    (b.secs - a.secs) * 1_000_000_000 + (b.nanos - a.nanos)
}

/// Whole seconds from `a` until `b`, truncated, at least 0 (and at most
/// `i64::MAX`).
pub open spec fn spec_seconds_until(a: Timestamp, b: Timestamp) -> i64 {
    let d = nanos_between(a, b);
    if d <= 0 {
        0
    } else if d / 1_000_000_000 > i64::MAX {
        i64::MAX
    } else {
        (d / 1_000_000_000) as i64
    }
}

/// What `chrono::DateTime::parse_from_rfc3339` yields for a text, taken to
/// UTC as seconds and nanoseconds; `None` where it reports an error.
pub uninterp spec fn spec_parse_rfc3339(text: Seq<char>) -> Option<Timestamp>;

/// What `DateTime::<Utc>::from_timestamp(secs, 0)` followed by
/// `to_rfc3339()` yields; `None` where the instant is out of range.
pub uninterp spec fn spec_rfc3339_of_unix(secs: int) -> Option<Seq<char>>;

/// Calls `chrono::DateTime::parse_from_rfc3339` and reads the instant back
/// with `timestamp()` and `timestamp_subsec_nanos()`.
#[verifier::external_body]
pub(crate) fn parse_rfc3339(text: &str) -> (r: Option<Timestamp>)
    ensures
        r == spec_parse_rfc3339(text@),
{
    DateTime::parse_from_rfc3339(text).ok().map(
        |d| {
            let u = d.with_timezone(&Utc);
            Timestamp { secs: u.timestamp(), nanos: u.timestamp_subsec_nanos() }
        },
    )
}

/// Calls `DateTime::<Utc>::from_timestamp(secs, 0)` and, for an instant in
/// range, `to_rfc3339()`.
#[verifier::external_body]
pub(crate) fn rfc3339_of_unix(secs: i64) -> (r: Option<String>)
    ensures
        r matches Some(s) ==> spec_rfc3339_of_unix(secs as int) == Some(s@),
        r is None <==> spec_rfc3339_of_unix(secs as int) is None,
{
    DateTime::<Utc>::from_timestamp(secs, 0).map(|d| d.to_rfc3339())
}

/// Whether `DateTime::<Utc>::from_timestamp(secs, 0)` gives an instant:
/// whether `secs` lies within chrono's range of dates.
pub uninterp spec fn spec_unix_in_range(secs: int) -> bool;

/// Calls `DateTime::<Utc>::from_timestamp(secs, 0)`: the instant `secs`
/// whole seconds after the epoch, `None` out of chrono's range.
#[verifier::external_body]
pub(crate) fn from_unix(secs: i64) -> (r: Option<Timestamp>)
    ensures
        r is Some <==> spec_unix_in_range(secs as int),
        r matches Some(t) ==> t == (Timestamp { secs, nanos: 0 }),
{
    DateTime::<Utc>::from_timestamp(secs, 0).map(|d| Timestamp { secs: d.timestamp(), nanos: d.timestamp_subsec_nanos() })
}

/// Calls `chrono::Utc::now()`: the current instant. Nothing is stated of it.
#[verifier::external_body]
pub(crate) fn now_timestamp() -> Timestamp {
    let u = Utc::now();
    Timestamp { secs: u.timestamp(), nanos: u.timestamp_subsec_nanos() }
}

} // verus!
