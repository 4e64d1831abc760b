//! Time since a moment, in nanoseconds.

use std::time::{Duration, Instant};
use vstd::prelude::*;

verus! {

/// A moment on the machine's monotonic clock.
#[verifier::external_type_specification]
#[verifier::external_body]
pub struct ExInstant(Instant);

/// `Instant::now` of the standard library: the current moment. It is a reading of
/// the machine's clock, so nothing is promised of it.
pub assume_specification[ Instant::now ]() -> Instant
;

/// `Instant::elapsed` of the standard library: the time since a moment, by the
/// machine's clock, so nothing is promised of it.
pub assume_specification[ Instant::elapsed ](i: &Instant) -> Duration
;

/// The most nanoseconds that a span of time holds: its whole seconds are a `u64`,
/// and what is left is under a second.
pub const NANOS_MAX: u128 = 18_446_744_073_709_551_615_999_999_999;

/// `Duration::as_nanos` of the standard library: the nanoseconds of a span of
/// time. Its whole seconds are a `u64`, which bounds them. A span is opaque here,
/// so which number that is is left unsaid.
pub assume_specification[ Duration::as_nanos ](d: &Duration) -> (ns: u128)
    ensures
        ns <= NANOS_MAX,
;

/// A clock that counts from when it was made.
pub struct Clock {
    pub started: Instant,
}

/// Whether a moment is one that a call of `Instant::now` gives.
pub open spec fn shown(moment: Instant) -> bool {
    call_ensures(Instant::now, (), moment)
}

/// Whether `ns` is a time since a moment that a call of `Instant::elapsed` gives,
/// in nanoseconds.
pub open spec fn passed_since(moment: Instant, ns: u128) -> bool {
    exists|span: Duration|
        #![trigger call_ensures(Instant::elapsed, (&moment,), span)]
        call_ensures(Instant::elapsed, (&moment,), span) && call_ensures(
            Duration::as_nanos,
            (&span,),
            ns,
        )
}

impl Clock {
    /// Whether the clock may show `ns`, as the nanoseconds since it was made.
    pub open spec fn shows(self, ns: u128) -> bool {
        ns <= NANOS_MAX && passed_since(self.started, ns)
    }

    /// A clock that starts now.
    pub fn new() -> (c: Clock)
        ensures
            shown(c.started),
    {
        Clock { started: Instant::now() }
    }

    /// Nanoseconds since the clock was made. What depends on them takes them as
    /// an argument, and is verified for every value.
    pub fn now(&self) -> (ns: u128)
        ensures
            self.shows(ns),
    {
        let span = self.started.elapsed();
        span.as_nanos()
    }
}

} // verus!
