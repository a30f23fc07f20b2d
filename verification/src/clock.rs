//! The wall clock.
use std::time::{Duration, SystemTime};
use vstd::prelude::*;

verus! {

/// `std::time::SystemTime`, carried through only.
#[verifier::external_type_specification]
#[verifier::external_body]
pub struct ExSystemTime(SystemTime);

/// Reads the machine's clock with `SystemTime::now`. Nothing is promised of
/// the value: it is the machine's.
#[verifier::external_body]
fn system_now() -> SystemTime {
    SystemTime::now()
}

/// The time since the Unix epoch, with `SystemTime::duration_since`;
/// `None` for a time before the epoch. Nothing more is promised: the value
/// comes from the machine's clock.
#[verifier::external_body]
fn since_epoch(t: SystemTime) -> Option<Duration> {
    t.duration_since(std::time::UNIX_EPOCH).ok()
}

/// The whole seconds of a duration, with `Duration::as_secs`.
#[verifier::external_body]
fn whole_secs(d: Duration) -> u64 {
    d.as_secs()
}

/// Seconds since the Unix epoch by the machine's clock; `None` when the
/// clock is set before the epoch.
pub fn now_unix_secs() -> Option<u64> {
    match since_epoch(system_now()) {
        Some(d) => Some(whole_secs(d)),
        None => None,
    }
}

} // verus!
