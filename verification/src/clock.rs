//! Reading the clock, behind a seam so end-condition arithmetic can be driven
//! by a test.

use vstd::prelude::*;

use core::time::Duration;
use std::time::SystemTime;

verus! {

#[verifier::external_type_specification]
#[verifier::external_body]
pub struct ExSystemTime(SystemTime);

/// Something that says what time it is, in whole seconds since the epoch.
pub trait Clock {
    fn now_unix_seconds(&self) -> u64;
}

/// The wall clock.
pub struct SystemClock;

/// `SystemTime::now`. Nothing is promised of the value: it is the wall clock.
#[verifier::external_body]
fn system_now() -> SystemTime {
    SystemTime::now()
}

/// `SystemTime::duration_since` the epoch, with the error of a clock set
/// before the epoch turned into `None`. Nothing more is promised.
#[verifier::external_body]
fn since_epoch(t: &SystemTime) -> Option<Duration> {
    t.duration_since(std::time::UNIX_EPOCH).ok()
}

/// `Duration::as_secs`, the whole seconds of a duration.
#[verifier::external_body]
fn whole_seconds(d: &Duration) -> u64 {
    d.as_secs()
}

impl Clock for SystemClock {
    /// Whole seconds since the epoch, or zero for a clock set before it.
    fn now_unix_seconds(&self) -> u64 {
        match since_epoch(&system_now()) {
            Some(elapsed) => whole_seconds(&elapsed),
            None => 0,
        }
    }
}

} // verus!
