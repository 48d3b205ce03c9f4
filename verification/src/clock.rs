//! The time, as the machine tells it.

use vstd::prelude::*;

verus! {

#[verifier::external_type_specification]
#[verifier::external_body]
pub struct ExSystemTime(std::time::SystemTime);

/// `SystemTime::now`: the time of the system clock. Nothing is claimed of
/// it.
#[verifier::external_body]
pub(crate) fn system_now() -> (r: std::time::SystemTime) {
    std::time::SystemTime::now()
}

/// `SystemTime::duration_since`: the time passed since the start of 1970,
/// or `None` for a clock that stands before it. Nothing is claimed of the
/// result.
#[verifier::external_body]
pub(crate) fn since_epoch(t: &std::time::SystemTime) -> (r: Option<core::time::Duration>) {
    t.duration_since(std::time::UNIX_EPOCH).ok()
}

/// `Duration::as_nanos`: a duration in nanoseconds. Nothing is claimed of
/// the number.
#[verifier::external_body]
pub(crate) fn nanos_of(d: &core::time::Duration) -> (r: u128) {
    d.as_nanos()
}

/// `Duration::as_secs`: the whole seconds of a duration. Nothing is claimed
/// of the number.
#[verifier::external_body]
pub(crate) fn secs_of(d: &core::time::Duration) -> (r: u64) {
    d.as_secs()
}

/// `Duration::subsec_nanos`: the part of a duration beyond its whole
/// seconds, in nanoseconds. It is less than one second, as the standard
/// library documents.
#[verifier::external_body]
pub(crate) fn subsec_nanos_of(d: &core::time::Duration) -> (r: u32)
    ensures
        r < 1_000_000_000,
{
    d.subsec_nanos()
}

/// `chrono::DateTime::from_timestamp` and `DateTime::timestamp_millis`:
/// the time stamp in milliseconds of the moment that lies `secs` seconds
/// and `nanos` nanoseconds after the start of 1970, or `None` for a moment
/// that chrono cannot hold. Neither call panics. For a part of less than one
/// second the time stamp is the seconds in milliseconds plus the whole
/// milliseconds of the part, as chrono documents the two.
#[verifier::external_body]
pub(crate) fn stamp_millis(secs: i64, nanos: u32) -> (r: Option<i64>)
    ensures
        nanos < 1_000_000_000 ==> (r matches Some(ms) ==> ms == secs * 1000 + nanos / 1_000_000),
{
    chrono::DateTime::from_timestamp(secs, nanos).map(|t| t.timestamp_millis())
}

/// The nanoseconds passed since the start of 1970; 0 for a clock that
/// stands before it.
pub fn now_nanos() -> u128 {
    let t = system_now();
    match since_epoch(&t) {
        Some(d) => nanos_of(&d),
        None => 0,
    }
}

/// The time stamp of now: the milliseconds passed since the start of
/// 1970, as chrono counts them; 0 for a clock that stands before it, and the
/// largest time stamp for a clock beyond what chrono can hold. The time
/// stamp is never negative.
pub fn now_ms() -> (r: i64)
    ensures
        r >= 0,
{
    let t = system_now();
    match since_epoch(&t) {
        Some(d) => {
            let secs = secs_of(&d);
            let nanos = subsec_nanos_of(&d);
            if secs > i64::MAX as u64 {
                i64::MAX
            } else {
                match stamp_millis(secs as i64, nanos) {
                    Some(ms) => ms,
                    None => i64::MAX,
                }
            }
        },
        None => 0,
    }
}

} // verus!
