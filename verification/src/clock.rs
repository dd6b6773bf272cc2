//! Moments of time and the whole seconds and minutes between them.

use vstd::prelude::*;

verus! {

/// The first second that a moment can lie in.
pub const FIRST_SECOND: i64 = -8_334_601_228_800;

/// The last second that a moment can lie in.
pub const LAST_SECOND: i64 = 8_210_266_876_799;

/// A moment, in seconds and nanoseconds since 1970-01-01 00:00:00 UTC.
#[derive(Clone, Copy, PartialEq, Eq, Structural, Debug)]
pub struct Timestamp {
    /// Whole seconds.
    pub secs: i64,
    /// Nanoseconds past the second.
    pub nanos: u32,
}

impl Timestamp {
    /// Whether this is a moment of the calendar.
    pub open spec fn valid(self) -> bool {
        &&& FIRST_SECOND <= self.secs <= LAST_SECOND
        &&& self.nanos < 1_000_000_000
    }
}

/// The nanoseconds from `then` to `now`; negative where `now` is earlier.
pub open spec fn nanos_between(now: Timestamp, then: Timestamp) -> int {
    (now.secs - then.secs) * 1_000_000_000 + (now.nanos - then.nanos)
}

/// How many whole times `unit` goes into `n`, rounded towards zero.
pub open spec fn whole(n: int, unit: int) -> int {
    if n >= 0 {
        n / unit
    } else {
        -((-n) / unit)
    }
}

/// The whole seconds from `then` to `now`.
pub open spec fn seconds_between(now: Timestamp, then: Timestamp) -> int {
    whole(nanos_between(now, then), 1_000_000_000)
}

/// The present moment, from `chrono::Utc::now`. It is claimed to lie in the
/// range of dates that chrono has; which moment it is, the clock says. Chrono
/// takes for granted that the clock stands later than 1970.
#[verifier::external_body]
pub(crate) fn utc_now() -> (now: Timestamp)
    ensures
        now.valid(),
{
    let now = chrono::Utc::now();
    Timestamp { secs: now.timestamp(), nanos: now.timestamp_subsec_nanos() }
}

/// `num_seconds` of chrono's `signed_duration_since`, on the dates of two
/// moments. It is claimed to be the number of whole seconds between them.
#[verifier::external_body]
pub(crate) fn whole_seconds(now: Timestamp, then: Timestamp) -> (seconds: i64)
    requires
        now.valid(),
        then.valid(),
    ensures
        seconds == seconds_between(now, then),
{
    let later = chrono::DateTime::from_timestamp(now.secs, now.nanos).unwrap();
    let earlier = chrono::DateTime::from_timestamp(then.secs, then.nanos).unwrap();
    later.signed_duration_since(earlier).num_seconds()
}

/// Whether more than `seconds` seconds have gone by from `then` to `now`.
pub fn longer_ago(now: Timestamp, then: Timestamp, seconds: i64) -> (longer: bool)
    requires
        now.valid(),
        then.valid(),
        seconds > 0,
    ensures
        longer == (nanos_between(now, then) > seconds * 1_000_000_000),
{
    let whole_part: i64 = whole_seconds(now, then);
    whole_part > seconds || (whole_part == seconds && now.nanos != then.nanos)
}

} // verus!
