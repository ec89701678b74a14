//! The monotonic clock that the gateway and the trackers read.
//!
//! A time is a count of nanoseconds since the clock was started. What the
//! machine's clock shows cannot be known in advance, so every decision is
//! made by a function that takes the time as an argument. What is known of a
//! reading is that it is no less than the one before: the clock keeps its
//! latest reading and never shows less.

use vstd::prelude::*;

verus! {

/// Nanoseconds in one second.
pub const NANOS_PER_SEC: u64 = 1_000_000_000;

/// `std::time::Instant`: a moment on the monotonic clock of the machine. It
/// is carried from where it is taken to where the time since then is asked
/// for; nothing is read from it.
#[verifier::external_type_specification]
#[verifier::external_body]
pub struct ExInstant(std::time::Instant);

/// Calls `std::time::Instant::now`. The result depends on when the call is
/// made, so nothing is claimed of it.
#[verifier::external_body]
fn instant_now() -> (origin: std::time::Instant) {
    std::time::Instant::now()
}

/// Calls `std::time::Instant::elapsed`: the time that has passed since
/// `origin` was taken. The result depends on when the call is made, so
/// nothing is claimed of it.
#[verifier::external_body]
fn elapsed_since(origin: &std::time::Instant) -> (elapsed: std::time::Duration) {
    origin.elapsed()
}

/// Calls `std::time::Duration::as_nanos`: the whole nanoseconds in `span`.
/// A duration is opaque here, so nothing is claimed of the number.
#[verifier::external_body]
fn whole_nanos(span: &std::time::Duration) -> (nanos: u128) {
    span.as_nanos()
}

/// The whole nanoseconds `elapsed` as a time: the number itself, or
/// `u64::MAX` where it is larger than that.
pub open spec fn saturated(elapsed: u128) -> u64 {
    if elapsed > u64::MAX {
        u64::MAX
    } else {
        elapsed as u64
    }
}

/// The later of two times.
pub open spec fn later_of(one: u64, other: u64) -> u64 {
    if one >= other {
        one
    } else {
        other
    }
}

/// The time that a clock shows when its latest reading was `latest` and the
/// machine reports that `elapsed` nanoseconds have passed since it was
/// started: the time that has passed, held at `u64::MAX` once it no longer
/// fits, but never less than the clock has shown before.
pub fn reading(latest: u64, elapsed: u128) -> (nanos: u64)
    ensures
        nanos == later_of(latest, saturated(elapsed)),
{
    let passed: u64 = if elapsed > u64::MAX as u128 {
        u64::MAX
    } else {
        elapsed as u64
    };
    if passed >= latest {
        passed
    } else {
        latest
    }
}

/// A monotonic clock that counts nanoseconds from the moment it was made.
pub struct Clock {
    origin: std::time::Instant,
    latest: u64,
}

impl Clock {
    /// The latest time that the clock has shown; zero as long as it has not
    /// been read.
    pub closed spec fn latest(&self) -> u64 {
        self.latest
    }

    /// Starts a clock at the present moment. It has shown no time yet.
    pub fn new() -> (clock: Clock)
        ensures
            clock.latest() == 0,
    {
        Clock { origin: instant_now(), latest: 0 }
    }

    /// Reads the clock: the nanoseconds that have passed since it was
    /// started, held at `u64::MAX` once they no longer fit. The clock
    /// never shows less than it has shown before, whatever the machine
    /// reports, and it keeps what it shows as its latest reading.
    pub fn now(&mut self) -> (nanos: u64)
        ensures
            old(self).latest() <= nanos,
            final(self).latest() == nanos,
    {
        let elapsed: u128 = whole_nanos(&elapsed_since(&self.origin));
        let nanos: u64 = reading(self.latest, elapsed);
        self.latest = nanos;
        nanos
    }
}

} // verus!
