//! The engine's clock: milliseconds since the engine was built, read off
//! the system's monotonic clock.

use std::time::Instant;
use vstd::prelude::*;

verus! {

/// `std::time::Instant`, carried through as an opaque value.
#[verifier::external_type_specification]
#[verifier::external_body]
pub struct ExInstant(std::time::Instant);

/// A clock reading that holds `millis` milliseconds, or the largest
/// reading if they do not fit.
pub open spec fn reading_of(millis: u128) -> u64 {
    if millis <= u64::MAX {
        millis as u64
    } else {
        u64::MAX
    }
}

/// Turns a number of milliseconds into a clock reading.
pub fn to_reading(millis: u128) -> (reading: u64)
    ensures
        reading == reading_of(millis),
{
    if millis <= u64::MAX as u128 {
        millis as u64
    } else {
        u64::MAX
    }
}

/// A clock that counts the milliseconds since it was started.
pub struct Clock {
    started: Instant,
}

impl Clock {
    /// A clock that starts now.
    pub fn start() -> Clock {
        Clock { started: instant_now() }
    }

    /// The milliseconds since the clock was started. Nothing is known of
    /// a reading but that it is one: what the engine does with readings is
    /// proved for every reading.
    pub fn now(&self) -> (reading: u64) {
        to_reading(elapsed_millis(&self.started))
    }
}

/// `Instant::now`: the present moment on the system's monotonic clock.
/// Nothing is claimed of the result.
#[verifier::external_body]
fn instant_now() -> (moment: Instant) {
    Instant::now()
}

/// `Instant::elapsed`, read in whole milliseconds by `Duration::as_millis`.
/// Nothing is claimed of the result.
#[verifier::external_body]
fn elapsed_millis(since: &Instant) -> (millis: u128) {
    since.elapsed().as_millis()
}

} // verus!
