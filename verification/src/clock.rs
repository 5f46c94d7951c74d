//! Wall-clock and monotonic time, read through std.

use vstd::prelude::*;

verus! {

/// `std::time::SystemTime`, carried through unchanged.
#[verifier::external_type_specification]
#[verifier::external_body]
pub struct ExSystemTime(std::time::SystemTime);

/// `std::time::Instant`, carried through unchanged.
#[verifier::external_type_specification]
#[verifier::external_body]
pub struct ExInstant(std::time::Instant);

/// Calls `SystemTime::now`. The wall clock is read: nothing is stated.
#[verifier::external_body]
pub(crate) fn system_now() -> std::time::SystemTime {
    std::time::SystemTime::now()
}

/// Calls `SystemTime::duration_since` with `UNIX_EPOCH`; `None` when the
/// clock reads before the epoch. Nothing is stated of the time itself.
#[verifier::external_body]
pub(crate) fn since_unix_epoch(t: &std::time::SystemTime) -> Option<core::time::Duration> {
    t.duration_since(std::time::UNIX_EPOCH).ok()
}

/// The whole seconds of a `Duration` (what `Duration::as_secs` gives).
pub uninterp spec fn duration_whole_secs(d: core::time::Duration) -> u64;

/// The total nanoseconds of a `Duration` (what `Duration::as_nanos` gives).
pub uninterp spec fn duration_total_nanos(d: core::time::Duration) -> u128;

/// Calls `Duration::as_secs`: the duration's whole seconds.
#[verifier::external_body]
pub(crate) fn duration_secs(d: &core::time::Duration) -> (s: u64)
    ensures
        s == duration_whole_secs(*d),
{
    d.as_secs()
}

/// Calls `Duration::as_nanos`: the duration's total nanoseconds.
#[verifier::external_body]
pub(crate) fn duration_nanos(d: &core::time::Duration) -> (n: u128)
    ensures
        n == duration_total_nanos(*d),
{
    d.as_nanos()
}

/// Calls `Duration::from_secs`: a duration of exactly `secs` seconds, so
/// `secs` whole seconds and `secs * 10^9` nanoseconds.
#[verifier::external_body]
pub(crate) fn duration_from_secs(secs: u64) -> (d: core::time::Duration)
    ensures
        duration_whole_secs(d) == secs,
        duration_total_nanos(d) == secs * 1_000_000_000,
{
    core::time::Duration::from_secs(secs)
}

/// Calls `Instant::now`. The monotonic clock is read: nothing is stated.
#[verifier::external_body]
pub(crate) fn instant_now() -> std::time::Instant {
    std::time::Instant::now()
}

/// Calls `Instant::saturating_duration_since`: the time from `earlier` to
/// `later`, zero if `later` is not later. Nothing is stated of its value.
#[verifier::external_body]
pub(crate) fn elapsed_between(
    later: &std::time::Instant,
    earlier: &std::time::Instant,
) -> core::time::Duration {
    later.saturating_duration_since(*earlier)
}

/// A Unix time in whole seconds from a clock reading: the seconds since
/// the epoch (`None` when the clock reads before it) give 0 before the
/// epoch, the seconds themselves up to `i64::MAX`, and `i64::MAX` beyond.
pub fn unix_secs(since: Option<u64>) -> (secs: i64)
    ensures
        secs == match since {
            None => 0,
            Some(s) => if s <= i64::MAX as u64 {
                s as int
            } else {
                i64::MAX as int
            },
        },
{
    match since {
        Some(s) => {
            if s <= 9223372036854775807u64 {
                s as i64
            } else {
                i64::MAX
            }
        },
        None => 0,
    }
}

/// The Unix time in whole seconds of a clock reading taken as its time
/// since the epoch (`None` when the reading is before it): 0 before the
/// epoch, else the whole seconds of `since`, up to `i64::MAX`.
pub fn unix_time_of(since: Option<core::time::Duration>) -> (secs: i64)
    ensures
        since is None ==> secs == 0,
        since matches Some(d) ==> secs == duration_whole_secs(d) || (duration_whole_secs(d)
            > i64::MAX && secs == i64::MAX),
        secs >= 0,
{
    let whole = match since {
        Some(d) => Some(duration_secs(&d)),
        None => None,
    };
    unix_secs(whole)
}

/// The current Unix time in whole seconds: `SystemTime::now` read as its
/// time since the epoch, through [`unix_time_of`].
pub fn unix_now() -> (secs: i64)
    ensures
        secs >= 0,
{
    let now = system_now();
    unix_time_of(since_unix_epoch(&now))
}

} // verus!
