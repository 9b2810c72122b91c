//! Points in time and the distances between them.

use chrono::{DateTime, Utc};
use vstd::prelude::*;

verus! {

/// The first second of the calendar, in seconds since the Unix epoch.
pub const FIRST_SECOND: i64 = -8_334_601_228_800;

/// The last second of the calendar, in seconds since the Unix epoch.
pub const LAST_SECOND: i64 = 8_210_266_876_799;

/// A point in time: whole seconds since the Unix epoch and the nanoseconds
/// into that second.
#[derive(Clone, Copy, PartialEq, Eq, Structural, Debug)]
pub struct Timestamp {
    pub secs: i64,
    pub nanos: u32,
}

/// Whether second `secs` lies in the calendar.
pub open spec fn in_calendar(secs: i64) -> bool {
    FIRST_SECOND <= secs <= LAST_SECOND
}

/// `n / d` without its fraction: the quotient is rounded towards zero.
pub open spec fn truncated(n: int, d: int) -> int {
    if n >= 0 {
        n / d
    } else {
        -((-n) / d)
    }
}

impl Timestamp {
    /// A time that the clock can show.
    pub open spec fn wf(self) -> bool {
        &&& in_calendar(self.secs)
        &&& self.nanos < 1_000_000_000
    }

    /// Nanoseconds since the Unix epoch.
    pub open spec fn instant(self) -> int {
        self.secs * 1_000_000_000 + self.nanos
    }

    /// Whether `self` is not later than `other`: seconds count first.
    pub open spec fn not_after(self, other: Timestamp) -> bool {
        self.secs < other.secs || (self.secs == other.secs && self.nanos <= other.nanos)
    }

    /// Whether `self` comes strictly before `other`.
    pub fn is_before(self, other: Timestamp) -> (r: bool)
        ensures
            r == !other.not_after(self),
    {
        self.secs < other.secs || (self.secs == other.secs && self.nanos < other.nanos)
    }
}

/// Calls `chrono::DateTime::from_timestamp`. It yields a time exactly for the
/// seconds of the calendar, and that time is the one asked for. (Nanosecond
/// counts that stand for a leap second are left out.)
#[verifier::external_body]
pub(crate) fn from_timestamp(secs: i64, nanos: u32) -> (r: Option<Timestamp>)
    requires
        nanos < 1_000_000_000,
    ensures
        r == (if in_calendar(secs) {
            Some(Timestamp { secs, nanos })
        } else {
            None
        }),
{
    match DateTime::<Utc>::from_timestamp(secs, nanos) {
        Some(t) => Some(Timestamp { secs: t.timestamp(), nanos: t.timestamp_subsec_nanos() }),
        None => None,
    }
}

/// Subtracts two `chrono::DateTime<Utc>` and calls `TimeDelta::num_seconds` on
/// the difference: the whole seconds from `earlier` to `later`, rounded towards
/// zero and negative where `later` comes first.
#[verifier::external_body]
pub(crate) fn seconds_between(later: Timestamp, earlier: Timestamp) -> (r: i64)
    requires
        later.wf(),
        earlier.wf(),
    ensures
        r == truncated(later.instant() - earlier.instant(), 1_000_000_000),
{
    let end = DateTime::<Utc>::from_timestamp(later.secs, later.nanos).unwrap();
    let start = DateTime::<Utc>::from_timestamp(earlier.secs, earlier.nanos).unwrap();
    (end - start).num_seconds()
}

/// Subtracts two `chrono::DateTime<Utc>` and calls `TimeDelta::num_milliseconds`
/// on the difference: the whole milliseconds from `earlier` to `later`, rounded
/// towards zero and negative where `later` comes first.
#[verifier::external_body]
pub(crate) fn milliseconds_between(later: Timestamp, earlier: Timestamp) -> (r: i64)
    requires
        later.wf(),
        earlier.wf(),
    ensures
        r == truncated(later.instant() - earlier.instant(), 1_000_000),
{
    let end = DateTime::<Utc>::from_timestamp(later.secs, later.nanos).unwrap();
    let start = DateTime::<Utc>::from_timestamp(earlier.secs, earlier.nanos).unwrap();
    (end - start).num_milliseconds()
}

/// Earlier and later go by the nanoseconds since the epoch.
pub proof fn law_earlier_means_fewer_nanoseconds(a: Timestamp, b: Timestamp)
    requires
        a.nanos < 1_000_000_000,
        b.nanos < 1_000_000_000,
    ensures
        a.not_after(b) <==> a.instant() <= b.instant(),
        a.secs == b.secs ==> b.instant() - a.instant() == b.nanos - a.nanos,
        a.nanos == b.nanos ==> b.instant() - a.instant() == (b.secs - a.secs) * 1_000_000_000,
{
}

/// A whole count of units is the largest one that does not exceed the distance, and
/// the same count back.
pub proof fn law_whole_units(n: int, d: int)
    requires
        n >= 0,
        d > 0,
    ensures
        truncated(n, d) * d <= n < (truncated(n, d) + 1) * d,
        truncated(-n, d) == -truncated(n, d),
{
    vstd::arithmetic::div_mod::lemma_fundamental_div_mod(n, d);
    vstd::arithmetic::div_mod::lemma_mod_bound(n, d);
    let q = n / d;
    assert(q * d <= n < (q + 1) * d) by (nonlinear_arith)
        requires
            n == d * q + n % d,
            0 <= n % d < d,
    ;
    if n == 0 {
        assert(0int / d == 0) by (nonlinear_arith)
            requires
                d > 0,
        ;
    }
}

} // verus!
