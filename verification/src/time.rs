//! Points in time and spans of time, both counted in whole nanoseconds.
//!
//! The cache compares and adds times but never interprets them, so both types
//! are plain counters. Only [`Instant::now`] touches the machine's clock.

use vstd::prelude::*;
use std::time::SystemTime;
use std::time::SystemTimeError;
use std::time::UNIX_EPOCH;

verus! {

/// Nanoseconds in one second.
pub const NANOS_PER_SEC: u128 = 1_000_000_000;

/// Nanoseconds in one millisecond.
pub const NANOS_PER_MILLI: u128 = 1_000_000;

/// A span of time.
#[derive(Clone, Copy, Debug, PartialEq, Eq, Structural)]
pub struct Duration {
    /// Length of the span in nanoseconds.
    pub nanos: u128,
}

/// A point in time: nanoseconds since the Unix epoch.
#[derive(Clone, Copy, Debug, PartialEq, Eq, Structural)]
pub struct Instant {
    /// Nanoseconds since the Unix epoch.
    pub nanos: u128,
}

impl Duration {
    /// A span of `nanos` nanoseconds.
    pub fn from_nanos(nanos: u128) -> (d: Duration)
        ensures
            d.nanos == nanos,
    {
        Duration { nanos }
    }

    /// A span of `millis` milliseconds.
    pub fn from_millis(millis: u64) -> (d: Duration)
        ensures
            d.nanos == millis * NANOS_PER_MILLI,
    {
        let wide: u128 = millis as u128;
        Duration { nanos: wide * NANOS_PER_MILLI }
    }

    /// A span of `secs` seconds.
    pub fn from_secs(secs: u64) -> (d: Duration)
        ensures
            d.nanos == secs * NANOS_PER_SEC,
    {
        let wide: u128 = secs as u128;
        Duration { nanos: wide * NANOS_PER_SEC }
    }

    /// The length of the span in nanoseconds.
    pub fn as_nanos(&self) -> (n: u128)
        ensures
            n == self.nanos,
    {
        self.nanos
    }
}

impl Instant {
    /// The instant `self + span`, where the counter can hold it.
    pub open spec fn plus(self, span: Duration) -> Option<Instant> {
        if self.nanos + span.nanos <= u128::MAX {
            Some(Instant { nanos: (self.nanos + span.nanos) as u128 })
        } else {
            None
        }
    }

    /// The instant `nanos` nanoseconds after the Unix epoch.
    pub fn from_nanos(nanos: u128) -> (t: Instant)
        ensures
            t.nanos == nanos,
    {
        Instant { nanos }
    }

    /// Nanoseconds since the Unix epoch.
    pub fn as_nanos(&self) -> (n: u128)
        ensures
            n == self.nanos,
    {
        self.nanos
    }

    /// Adds a span to an instant. `None` means that the sum lies beyond the
    /// last instant the counter can hold.
    pub fn checked_add(&self, span: Duration) -> (r: Option<Instant>)
        ensures
            r == self.plus(span),
    {
        if span.nanos <= u128::MAX - self.nanos {
            Some(Instant { nanos: self.nanos + span.nanos })
        } else {
            None
        }
    }

    /// Whether `self` lies strictly before `other`.
    pub fn is_before(&self, other: Instant) -> (r: bool)
        ensures
            r == (self.nanos < other.nanos),
    {
        self.nanos < other.nanos
    }

    /// The instant a reading of the wall clock stands for: the reading itself,
    /// or the epoch where the clock is set before it.
    pub open spec fn of_reading(reading: Option<u128>) -> Instant {
        match reading {
            Some(nanos) => Instant { nanos },
            None => Instant { nanos: 0 },
        }
    }

    /// Turns a reading of the wall clock into an instant.
    pub fn from_reading(reading: Option<u128>) -> (t: Instant)
        ensures
            t == Instant::of_reading(reading),
    {
        match reading {
            Some(nanos) => Instant { nanos },
            None => Instant { nanos: 0 },
        }
    }

    /// The current instant on the system's wall clock. Which instant that is
    /// depends on the machine, so nothing is stated of it.
    pub fn now() -> Instant {
        Instant::from_reading(wall_clock_nanos())
    }
}

/// The system clock's time type, `std::time::SystemTime`, carried through
/// as an opaque value.
#[verifier::external_type_specification]
#[verifier::external_body]
pub struct ExSystemTime(SystemTime);

/// The error of `SystemTime::duration_since`, carried through as an opaque
/// value.
#[verifier::external_type_specification]
#[verifier::external_body]
pub struct ExSystemTimeError(SystemTimeError);

/// `SystemTime::now` reads the wall clock. Nothing is claimed of the
/// reading: it differs from call to call.
pub assume_specification[ SystemTime::now ]() -> (t: SystemTime)
;

/// `SystemTime::duration_since` gives the time elapsed since `earlier`, or an
/// error where `earlier` is the later of the two. Nothing is claimed of the
/// result.
pub assume_specification[ SystemTime::duration_since ](
    t: &SystemTime,
    earlier: SystemTime,
) -> (r: Result<std::time::Duration, SystemTimeError>)
;

/// `std::time::Duration::as_nanos` gives the length of a span in
/// nanoseconds. Nothing is claimed of the number, since the span is opaque
/// here.
pub assume_specification[ std::time::Duration::as_nanos ](d: &std::time::Duration) -> (n: u128)
;

/// The constant `std::time::UNIX_EPOCH`, the instant from which the wall
/// clock is counted. Nothing is claimed of it: the value is opaque here.
#[verifier::external_body]
fn unix_epoch() -> (epoch: SystemTime) {
    UNIX_EPOCH
}

/// Reads the wall clock: nanoseconds since the Unix epoch, or `None` where
/// the clock is set before the epoch.
fn wall_clock_nanos() -> (r: Option<u128>) {
    let t = SystemTime::now();
    match t.duration_since(unix_epoch()) {
        Ok(elapsed) => Some(elapsed.as_nanos()),
        Err(_) => None,
    }
}

} // verus!
