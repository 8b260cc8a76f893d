//! Statistic settings of a threshold, as read back from the database.

use vstd::prelude::*;

verus! {

#[verifier::external_type_specification]
#[verifier::external_body]
pub struct ExSystemTime(std::time::SystemTime);

/// `std::time::SystemTime::now`: the current time of the system clock.
/// Nothing is stated of the value, which depends on the clock.
#[verifier::external_body]
fn system_time_now() -> std::time::SystemTime {
    std::time::SystemTime::now()
}

/// `std::time::SystemTime::duration_since`, from the Unix epoch: the time
/// elapsed since the epoch, or `None` where `time` lies before it. The time is
/// opaque here, so nothing is stated of the value.
#[verifier::external_body]
fn since_unix_epoch(time: &std::time::SystemTime) -> Option<std::time::Duration> {
    time.duration_since(std::time::UNIX_EPOCH).ok()
}

/// `std::time::Duration::as_secs`: the whole seconds of `duration`. The
/// duration is opaque here, so nothing is stated of the value.
#[verifier::external_body]
fn duration_secs(duration: &std::time::Duration) -> u64 {
    duration.as_secs()
}

/// `std::time::Duration::subsec_nanos`: the fractional part of `duration` in
/// nanoseconds, which std documents to be less than one billion.
#[verifier::external_body]
fn duration_subsec_nanos(duration: &std::time::Duration) -> (nanos: u32)
    ensures
        nanos < 1_000_000_000,
{
    duration.subsec_nanos()
}

/// The instant `secs` seconds and `nsecs` nanoseconds after the Unix epoch,
/// in nanoseconds since the epoch, where an `i64` counts it.
pub open spec fn spec_timestamp_nanos(secs: i64, nsecs: u32) -> Option<i64> {
    let n = secs * 1_000_000_000 + nsecs;
    if i64::MIN <= n <= i64::MAX {
        Some(n as i64)
    } else {
        None
    }
}

/// `chrono::DateTime::<Utc>::from_timestamp(secs, nsecs)` read back with
/// `DateTime::timestamp_nanos_opt`. `from_timestamp` gives `None` only for
/// seconds far outside the `i64` nanosecond range (hundreds of thousands of
/// years), and otherwise round-trips to `timestamp() == secs` and
/// `timestamp_subsec_nanos() == nsecs`; `timestamp_nanos_opt` then gives
/// `secs * 10^9 + nsecs` with checked arithmetic, `None` where it leaves the
/// `i64` range. Both calls stand in one item because Verus refuses to declare
/// `chrono::DateTime`, the value that passes between them.
#[verifier::external_body]
fn timestamp_nanos(secs: i64, nsecs: u32) -> (nanos: Option<i64>)
    requires
        nsecs < 1_000_000_000,
    ensures
        nanos == spec_timestamp_nanos(secs, nsecs),
{
    match chrono::DateTime::from_timestamp(secs, nsecs) {
        Some(time) => time.timestamp_nanos_opt(),
        None => None,
    }
}

/// The current time of the system clock in nanoseconds since the Unix epoch:
/// `None` where the clock reads a time before the epoch or later than an
/// `i64` counts in nanoseconds.
fn now_nanos() -> (nanos: Option<i64>)
    ensures
        nanos matches Some(n) ==> n >= 0,
{
    let now = system_time_now();
    match since_unix_epoch(&now) {
        None => None,
        Some(elapsed) => {
            let secs = duration_secs(&elapsed);
            let nsecs = duration_subsec_nanos(&elapsed);
            if secs > 9_223_372_036_854_775_807u64 {
                None
            } else {
                timestamp_nanos(secs as i64, nsecs)
            }
        },
    }
}

/// The sample size of a statistic: the stored one, or no limit (`i64::MAX`)
/// when none is stored.
pub fn unwrap_sample_size(sample_size: Option<i64>) -> (size: i64)
    ensures
        size == match sample_size {
            Some(s) => s,
            None => i64::MAX,
        },
{
    match sample_size {
        Some(s) => s,
        None => i64::MAX,
    }
}

/// The oldest instant of a statistic's sliding window, given the current time
/// `now` and the stored window length: the window reaches back `window` from
/// `now`, and with no stored window it starts at the epoch (`0`). `None` where
/// `now - window` leaves the `i64` range.
pub open spec fn spec_window_start(now: i64, window: Option<i64>) -> Option<i64> {
    match window {
        None => Some(0i64),
        Some(w) => if i64::MIN <= now - w <= i64::MAX {
            Some((now - w) as i64)
        } else {
            None
        },
    }
}

/// The start of the window at time `now` (see [`spec_window_start`]).
pub fn window_start(now: i64, window: Option<i64>) -> (start: Option<i64>)
    ensures
        start == spec_window_start(now, window),
        window is None ==> start == Some(0i64),
        window matches Some(w) ==> (start is Some <==> i64::MIN <= now - w <= i64::MAX),
        window matches Some(w) ==> (start matches Some(s) ==> s == now - w),
{
    match window {
        None => Some(0),
        Some(w) => now.checked_sub(w),
    }
}

/// The start of a statistic's window, measured back from the current time of
/// the system clock. Without a stored window the clock is not read and the
/// window starts at the epoch. `None` when the clock reads a time before the
/// epoch or beyond what an `i64` counts in nanoseconds, or when the
/// subtraction leaves the `i64` range.
pub fn unwrap_window(window: Option<i64>) -> (start: Option<i64>)
    ensures
        window is None ==> start == Some(0i64),
        window matches Some(w) ==> (start matches Some(s) ==> exists|now: i64|
            0 <= now && #[trigger] spec_window_start(now, window) == Some(s) && s == now - w),
{
    match window {
        None => Some(0),
        Some(_) => match now_nanos() {
            Some(now) => window_start(now, window),
            None => None,
        },
    }
}

/// A window reaches back exactly its length from `now`: with no window the
/// start is the epoch, and with a window `w` the start is `now - w`, present
/// exactly when that difference is an `i64`.
pub proof fn lemma_window_start_reaches_back(now: i64, window: Option<i64>)
    ensures
        window is None ==> spec_window_start(now, window) == Some(0i64),
        window matches Some(w) ==> (spec_window_start(now, window) is Some <==> i64::MIN <= now
            - w <= i64::MAX),
        window matches Some(w) ==> (spec_window_start(now, window) matches Some(s) ==> s == now
            - w),
{
}

/// At a time `now` at or after the epoch, a non-negative window always has a
/// start, `now - w`, and that start is not after `now`.
pub proof fn lemma_window_start_not_after_now(now: i64, w: i64)
    requires
        0 <= now,
        0 <= w,
    ensures
        spec_window_start(now, Some(w)) == Some((now - w) as i64),
        now - w <= now,
{
}

/// A wider window starts earlier: at the same time `now`, the start of a
/// window `w2 >= w1` is no later than the start of `w1`, when both exist.
pub proof fn lemma_wider_window_starts_earlier(now: i64, w1: i64, w2: i64)
    requires
        w1 <= w2,
    ensures
        spec_window_start(now, Some(w1)) matches Some(s1) ==> (spec_window_start(now, Some(w2))
            matches Some(s2) ==> s2 <= s1),
{
}

} // verus!
