use vstd::prelude::*;

verus! {

/// A reading of the system clock (`std::time::SystemTime`), carried as it is.
#[verifier::external_type_specification]
#[verifier::external_body]
pub struct ExSystemTime(std::time::SystemTime);

/// The error `SystemTime::duration_since` gives for a later reference time.
#[verifier::external_type_specification]
#[verifier::external_body]
pub struct ExSystemTimeError(std::time::SystemTimeError);

/// Calls `std::time::SystemTime::now()`. What it reads depends on the clock, so nothing
/// is stated of it.
#[verifier::external_body]
fn system_now() -> (r: std::time::SystemTime) {
    std::time::SystemTime::now()
}

/// Calls `SystemTime::duration_since(UNIX_EPOCH)`: the time elapsed since the Unix epoch,
/// or an error when `t` lies before it. Which of the two comes back depends on the clock
/// reading, so nothing is stated of it.
#[verifier::external_body]
fn since_epoch(t: &std::time::SystemTime) -> (r: Result<std::time::Duration, std::time::SystemTimeError>) {
    t.duration_since(std::time::UNIX_EPOCH)
}

/// Calls `Duration::as_nanos`: the whole duration in nanoseconds (its value, taken from
/// a clock reading, is not stated).
#[verifier::external_body]
fn duration_nanos(d: &std::time::Duration) -> (r: u128) {
    d.as_nanos()
}

/// Calls `Duration::as_secs`: the whole seconds of the duration (its value, taken from a
/// clock reading, is not stated).
#[verifier::external_body]
fn duration_secs(d: &std::time::Duration) -> (r: u64) {
    d.as_secs()
}

/// Calls `Duration::subsec_nanos`: the nanoseconds past the whole seconds, which std
/// documents as always below one billion.
#[verifier::external_body]
fn duration_subsec_nanos(d: &std::time::Duration) -> (r: u32)
    ensures
        r < 1_000_000_000,
{
    d.subsec_nanos()
}

/// Calls `chrono::DateTime::from_timestamp(secs, nanos)` and, when that gives a time, its
/// `timestamp_millis()`. chrono documents that `from_timestamp` round-trips with
/// `timestamp` and `timestamp_subsec_nanos`, so a result, when there is one, is `secs`
/// seconds and `nanos` nanoseconds in whole milliseconds. Which seconds lie outside
/// chrono's range of dates (where it gives none) is not stated.
#[verifier::external_body]
fn utc_timestamp_millis(secs: i64, nanos: u32) -> (r: Option<i64>)
    requires
        nanos < 1_000_000_000,
    ensures
        r matches Some(m) ==> m == secs * 1000 + nanos / 1_000_000,
{
    match chrono::DateTime::from_timestamp(secs, nanos) {
        Some(t) => Some(t.timestamp_millis()),
        None => None,
    }
}

/// The current time in milliseconds since the Unix epoch, as chrono gives it: 0 for a
/// clock set before the epoch or past the dates chrono can hold. Never negative.
pub(crate) fn now_millis() -> (r: i64)
    ensures
        r >= 0,
{
    let t = system_now();
    match since_epoch(&t) {
        Ok(d) => {
            let secs = duration_secs(&d);
            let nanos = duration_subsec_nanos(&d);
            if secs > 9_223_372_036_854_775_807u64 {
                0
            } else {
                match utc_timestamp_millis(secs as i64, nanos) {
                    Some(m) => m,
                    None => 0,
                }
            }
        },
        Err(_) => 0,
    }
}

/// The nanoseconds elapsed since the Unix epoch by the system clock (0 for a clock set
/// before it).
pub(crate) fn now_nanos() -> (r: u128) {
    let t = system_now();
    match since_epoch(&t) {
        Ok(d) => duration_nanos(&d),
        Err(_) => 0,
    }
}

} // verus!
