//! Points in time and spans between them, counted in nanoseconds.

use vstd::prelude::*;
use vstd::string::*;
use crate::text;

verus! {

pub const NANOS_PER_SEC: u128 = 1_000_000_000;

pub const NANOS_PER_MILLI: u128 = 1_000_000;

/// The latest and the earliest point that a count of seconds of 64 bits and
/// nanoseconds within a second can name.
pub const SYSTEM_TIME_MAX: i128 = 9_223_372_036_854_775_807_999_999_999;

pub const SYSTEM_TIME_MIN: i128 = -9_223_372_036_854_775_808_000_000_000;

/// The longest span: seconds of 64 bits and nanoseconds within a second.
pub const DURATION_MAX: u128 = 18_446_744_073_709_551_615_999_999_999;

/// A span of time.
#[derive(Clone, Copy, Debug, PartialEq, Eq, Structural)]
pub struct Duration {
    pub nanos: u128,
}

/// A point on a clock that never goes back, counted from an arbitrary origin.
#[derive(Clone, Copy, Debug, PartialEq, Eq, Structural)]
pub struct Instant {
    pub nanos: u128,
}

/// A point on the wall clock, counted from the start of 1970.
#[derive(Clone, Copy, Debug, PartialEq, Eq, Structural)]
pub struct SystemTime {
    pub nanos: i128,
}

impl Duration {
    pub open spec fn valid(self) -> bool {
        self.nanos <= DURATION_MAX
    }

    pub fn from_secs(secs: u64) -> (r: Duration)
        ensures
            r.nanos == secs * NANOS_PER_SEC,
            r.valid(),
    {
        Duration { nanos: secs as u128 * NANOS_PER_SEC }
    }

    pub fn from_millis(millis: u64) -> (r: Duration)
        ensures
            r.nanos == millis * NANOS_PER_MILLI,
            r.valid(),
    {
        Duration { nanos: millis as u128 * NANOS_PER_MILLI }
    }

    /// The whole seconds of the span.
    pub fn as_secs(self) -> (r: u64)
        requires
            self.valid(),
        ensures
            r == self.nanos / NANOS_PER_SEC,
    {
        (self.nanos / NANOS_PER_SEC) as u64
    }

    /// The whole milliseconds of the span.
    pub fn as_millis(self) -> (r: u128)
        ensures
            r == self.nanos / NANOS_PER_MILLI,
    {
        self.nanos / NANOS_PER_MILLI
    }
}

impl Instant {
    /// The span from `earlier` to this point; none where `earlier` is later.
    pub open spec fn since(self, earlier: Instant) -> int {
        if self.nanos >= earlier.nanos {
            self.nanos - earlier.nanos
        } else {
            0
        }
    }

    pub fn duration_since(self, earlier: Instant) -> (r: Duration)
        ensures
            r.nanos == self.since(earlier),
    {
        if self.nanos >= earlier.nanos {
            Duration { nanos: self.nanos - earlier.nanos }
        } else {
            Duration { nanos: 0 }
        }
    }

    pub fn plus(self, span: Duration) -> (r: Instant)
        requires
            self.nanos + span.nanos <= u128::MAX,
        ensures
            r.nanos == self.nanos + span.nanos,
    {
        Instant { nanos: self.nanos + span.nanos }
    }
}

impl SystemTime {
    /// The start of 1970.
    pub fn unix_epoch() -> (r: SystemTime)
        ensures
            r.nanos == 0,
            r.valid(),
    {
        SystemTime { nanos: 0 }
    }

    pub open spec fn valid(self) -> bool {
        SYSTEM_TIME_MIN <= self.nanos <= SYSTEM_TIME_MAX
    }

    pub fn plus(self, span: Duration) -> (r: SystemTime)
        requires
            self.valid(),
            self.nanos + span.nanos <= SYSTEM_TIME_MAX,
        ensures
            r.nanos == self.nanos + span.nanos,
            r.valid(),
    {
        SystemTime { nanos: self.nanos + span.nanos as i128 }
    }

    /// This point less `span`, where such a point exists.
    pub open spec fn minus(self, span: int) -> Option<SystemTime> {
        if self.nanos - span >= SYSTEM_TIME_MIN {
            Some(SystemTime { nanos: (self.nanos - span) as i128 })
        } else {
            None
        }
    }

    pub fn checked_sub(self, span: Duration) -> (r: Option<SystemTime>)
        requires
            self.valid(),
            span.valid(),
        ensures
            r == self.minus(span.nanos as int),
    {
        let nanos: i128 = self.nanos - span.nanos as i128;
        if nanos >= SYSTEM_TIME_MIN {
            Some(SystemTime { nanos })
        } else {
            None
        }
    }

    /// The span from `earlier` to this point, where `earlier` is not later.
    pub fn duration_since(self, earlier: SystemTime) -> (r: Option<Duration>)
        requires
            self.valid(),
            earlier.valid(),
        ensures
            match r {
                Some(span) => self.nanos >= earlier.nanos && span.nanos == self.nanos
                    - earlier.nanos && span.valid(),
                None => self.nanos < earlier.nanos,
            },
    {
        if self.nanos >= earlier.nanos {
            Some(Duration { nanos: (self.nanos - earlier.nanos) as u128 })
        } else {
            None
        }
    }

    /// Seconds and nanoseconds, as debug output shows a point in time.
    pub open spec fn shown(self) -> Seq<char> {
        let secs = self.nanos as int / NANOS_PER_SEC as int;
        let sub = self.nanos as int % NANOS_PER_SEC as int;
        "SystemTime { tv_sec: "@ + (if secs < 0 {
            "-"@ + text::decimal((-secs) as nat)
        } else {
            text::decimal(secs as nat)
        }) + ", tv_nsec: "@ + text::decimal(sub as nat) + " }"@
    }

    pub fn debug_text(self) -> (r: String)
        requires
            self.valid(),
        ensures
            r@ == self.shown(),
    {
        let billion: i128 = 1_000_000_000;
        let mut r: String = "SystemTime { tv_sec: ".to_owned();
        if self.nanos >= 0 {
            let secs: i128 = self.nanos / billion;
            let sub: i128 = self.nanos % billion;
            r.append(text::decimal_text(secs as u128).as_str());
            r.append(", tv_nsec: ");
            r.append(text::decimal_text(sub as u128).as_str());
        } else {
            let up: i128 = (-self.nanos + (billion - 1)) / billion;
            let sub: i128 = self.nanos + up * billion;
            assert(self.nanos as int / 1_000_000_000int == -up);
            assert(self.nanos as int % 1_000_000_000int == sub);
            let mut shown: String = "-".to_owned();
            shown.append(text::decimal_text(up as u128).as_str());
            r.append(shown.as_str());
            r.append(", tv_nsec: ");
            r.append(text::decimal_text(sub as u128).as_str());
        }
        r.append(" }");
        r
    }
}

}
