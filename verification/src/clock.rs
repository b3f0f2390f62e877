//! Points in time, elapsed time and the time budget of a refresh.

use std::time::{Duration, SystemTime, SystemTimeError};
use vstd::prelude::*;

verus! {

/// The milliseconds that all calls of one refresh may take together.
pub const CDGC_REFRESH_BUDGET_MS: i64 = 15_000;

/// The milliseconds that one call may take where the configuration gives no other limit.
pub const DEFAULT_TIMEOUT_MS: i64 = 5_000;

/// A point in time of the system clock.
#[verifier::external_type_specification]
#[verifier::external_body]
pub struct ExSystemTime(SystemTime);

/// The error that a later point in time is subtracted from an earlier one.
#[verifier::external_type_specification]
#[verifier::external_body]
pub struct ExSystemTimeError(SystemTimeError);

/// Where a point in time stands on the clock, in nanoseconds from the Unix epoch; negative before
/// it.
pub uninterp spec fn clock_nanos(at: SystemTime) -> int;

/// The nanoseconds that a span of time holds.
pub uninterp spec fn duration_nanos(span: Duration) -> nat;

/// `SystemTime::duration_since`: the time from `earlier` to `at`, or an error where `earlier` is
/// later than `at`.
pub assume_specification[ SystemTime::duration_since ](
    at: &SystemTime,
    earlier: SystemTime,
) -> (r: Result<Duration, SystemTimeError>)
    ensures
        match r {
            Ok(span) => clock_nanos(*at) - clock_nanos(earlier) == duration_nanos(span),
            Err(_) => clock_nanos(*at) < clock_nanos(earlier),
        },
;

/// `Duration::as_nanos`: the total number of nanoseconds.
pub assume_specification[ Duration::as_nanos ](span: &Duration) -> (r: u128)
    ensures
        r == duration_nanos(*span),
;

/// `Duration::as_millis`: the total number of whole milliseconds.
pub assume_specification[ Duration::as_millis ](span: &Duration) -> (r: u128)
    ensures
        r == duration_nanos(*span) / 1_000_000,
;

/// `Duration::as_secs`: the number of whole seconds.
pub assume_specification[ Duration::as_secs ](span: &Duration) -> (r: u64)
    ensures
        r == duration_nanos(*span) / 1_000_000_000,
;

/// `Duration::from_millis`: a span of that many milliseconds.
pub assume_specification[ Duration::from_millis ](millis: u64) -> (r: Duration)
    ensures
        duration_nanos(r) == millis * 1_000_000,
;

/// `SystemTime::UNIX_EPOCH`: the point that [`clock_nanos`] counts from.
#[verifier::external_body]
pub(crate) fn unix_epoch() -> (r: SystemTime)
    ensures
        clock_nanos(r) == 0,
{
    SystemTime::UNIX_EPOCH
}

/// The whole seconds from the Unix epoch to a point in time; 0 before the epoch.
pub fn now_secs(now: SystemTime) -> (r: i64)
    ensures
        r == if clock_nanos(now) >= 0 {
            ((clock_nanos(now) / 1_000_000_000) as u64) as i64
        } else {
            0
        },
        0 <= clock_nanos(now) < 0x7fff_ffff_ffff_ffff * 1_000_000_000 ==> r * 1_000_000_000
            <= clock_nanos(now) < (r + 1) * 1_000_000_000,
{
    match now.duration_since(unix_epoch()) {
        Ok(span) => span.as_secs() as i64,
        Err(_) => 0,
    }
}

/// The whole milliseconds from one point in time to another; 0 where the second is the earlier one.
pub fn elapsed_ms(start: SystemTime, now: SystemTime) -> (r: i64)
    ensures
        r == if clock_nanos(now) >= clock_nanos(start) {
            (((clock_nanos(now) - clock_nanos(start)) / 1_000_000) as u128) as i64
        } else {
            0
        },
        0 <= clock_nanos(now) - clock_nanos(start) < 0x7fff_ffff_ffff_ffff * 1_000_000 ==> r
            * 1_000_000 <= clock_nanos(now) - clock_nanos(start) < (r + 1) * 1_000_000,
{
    match now.duration_since(start) {
        Ok(span) => span.as_millis() as i64,
        Err(_) => 0,
    }
}

/// The milliseconds that the next call of a refresh may take: its own limit, cut to what is left
/// of the budget and at least one; `None` where nothing is left.
pub open spec fn call_limit_ms(per_call_ms: int, elapsed: int) -> Option<int> {
    let remaining = CDGC_REFRESH_BUDGET_MS - elapsed;
    if remaining <= 0 {
        None
    } else if per_call_ms < 1 {
        Some(1)
    } else if per_call_ms < remaining {
        Some(per_call_ms)
    } else {
        Some(remaining)
    }
}

/// The time that the next call of a refresh may take.
pub fn next_call_timeout(per_call_ms: i64, elapsed: i64) -> (r: Option<Duration>)
    ensures
        match call_limit_ms(per_call_ms as int, elapsed as int) {
            Some(millis) => r is Some && duration_nanos(r->0) == millis * 1_000_000,
            None => r is None,
        },
{
    let remaining: i128 = CDGC_REFRESH_BUDGET_MS as i128 - elapsed as i128;
    if remaining <= 0 {
        return None;
    }
    let own: i64 = if (per_call_ms as i128) < remaining {
        per_call_ms
    } else {
        remaining as i64
    };
    let limit: i64 = if own < 1 {
        1
    } else {
        own
    };
    Some(Duration::from_millis(limit as u64))
}

/// A call that keeps to its limit ends within the budget, and has at least a millisecond.
pub proof fn calls_stay_within_the_budget(per_call_ms: int, elapsed: int)
    ensures
        match call_limit_ms(per_call_ms, elapsed) {
            Some(limit) => 1 <= limit && elapsed + limit <= CDGC_REFRESH_BUDGET_MS && (per_call_ms
                >= 1 ==> limit <= per_call_ms),
            None => elapsed >= CDGC_REFRESH_BUDGET_MS,
        },
{
}

/// A call gets all the time that it may have: its own limit where the fifteen seconds leave that
/// much, else what they leave. There is none exactly where they are over.
pub proof fn a_call_gets_the_time_that_is_left(per_call_ms: int, elapsed: int)
    ensures
        call_limit_ms(per_call_ms, elapsed) is None <==> elapsed >= 15_000,
        call_limit_ms(per_call_ms, elapsed) matches Some(limit) ==> 1 <= limit <= 15_000 - elapsed
            && (per_call_ms >= 1 ==> limit <= per_call_ms) && (limit == per_call_ms || limit
            == 15_000 - elapsed || (limit == 1 && per_call_ms < 1)),
{
}

} // verus!
