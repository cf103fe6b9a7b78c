//! Points in time and the spans between them.
use vstd::prelude::*;

verus! {

pub const NANOS_PER_SECOND: i128 = 1_000_000_000;

/// A point in calendar time, in nanoseconds since 1970-01-01 00:00 UTC.
#[derive(Clone, Copy, PartialEq, Eq, Structural, Debug)]
pub struct Timestamp {
    pub nanos: i64,
}

/// A reading of a clock that never runs backwards, in nanoseconds since some fixed moment.
#[derive(Clone, Copy, PartialEq, Eq, Structural, Debug)]
pub struct Instant {
    pub nanos: u64,
}

/// The whole part of `a / b`, towards zero.
pub open spec fn truncated(a: int, b: int) -> int
    recommends
        b > 0,
{
    if a >= 0 {
        a / b
    } else {
        -((-a) / b)
    }
}

fn truncated_quotient(a: i128, b: i128) -> (r: i128)
    requires
        b > 0,
        a > i128::MIN,
    ensures
        r == truncated(a as int, b as int),
        -i128::MAX <= r <= i128::MAX,
        a >= 0 ==> 0 <= r <= a,
        a < 0 ==> a <= r <= 0,
{
    assert(forall|x: int, y: int| x >= 0 && y > 0 ==> 0 <= #[trigger] (x / y) <= x)
        by (nonlinear_arith);
    if a >= 0 {
        let q: u128 = a as u128 / b as u128;
        q as i128
    } else {
        let q: u128 = (-a) as u128 / b as u128;
        -(q as i128)
    }
}

impl Timestamp {
    /// Nanoseconds from `earlier` to `self`.
    pub open spec fn nanos_since(self, earlier: Timestamp) -> int {
        self.nanos - earlier.nanos
    }

    /// Whole units of `unit` nanoseconds from `earlier` to `self`, towards zero.
    fn units_since(self, earlier: Timestamp, unit: i64) -> (r: i64)
        requires
            unit > 1,
        ensures
            r == truncated(self.nanos_since(earlier), unit as int),
    {
        let span: i128 = self.nanos as i128 - earlier.nanos as i128;
        let q: i128 = truncated_quotient(span, unit as i128);
        proof {
            let s = if span >= 0 {
                span as int
            } else {
                -(span as int)
            };
            let u = unit as int;
            assert(s / u <= s / 2) by (nonlinear_arith)
                requires
                    s >= 0,
                    u >= 2,
            ;
        }
        q as i64
    }

    pub open spec fn spec_seconds_since(self, earlier: Timestamp) -> i64 {
        truncated(self.nanos_since(earlier), 1_000_000_000) as i64
    }

    /// Whole seconds from `earlier` to `self`, towards zero.
    #[verifier::when_used_as_spec(spec_seconds_since)]
    pub fn seconds_since(self, earlier: Timestamp) -> (r: i64)
        ensures
            r == self.seconds_since(earlier),
            r == truncated(self.nanos_since(earlier), 1_000_000_000),
    {
        self.units_since(earlier, 1_000_000_000)
    }

    pub open spec fn spec_minutes_since(self, earlier: Timestamp) -> i64 {
        truncated(self.nanos_since(earlier), 60_000_000_000) as i64
    }

    /// Whole minutes from `earlier` to `self`, towards zero.
    #[verifier::when_used_as_spec(spec_minutes_since)]
    pub fn minutes_since(self, earlier: Timestamp) -> (r: i64)
        ensures
            r == self.minutes_since(earlier),
            r == truncated(self.nanos_since(earlier), 60_000_000_000),
    {
        self.units_since(earlier, 60_000_000_000)
    }

    pub open spec fn spec_millis_since(self, earlier: Timestamp) -> i64 {
        truncated(self.nanos_since(earlier), 1_000_000) as i64
    }

    /// Whole milliseconds from `earlier` to `self`, towards zero.
    #[verifier::when_used_as_spec(spec_millis_since)]
    pub fn millis_since(self, earlier: Timestamp) -> (r: i64)
        ensures
            r == self.millis_since(earlier),
            r == truncated(self.nanos_since(earlier), 1_000_000),
    {
        self.units_since(earlier, 1_000_000)
    }

    pub open spec fn spec_within(self, now: Timestamp, seconds: u64) -> bool {
        now.nanos_since(self) <= seconds * NANOS_PER_SECOND
    }

    /// Whether `self` is no further back from `now` than the given seconds.
    #[verifier::when_used_as_spec(spec_within)]
    pub fn within(self, now: Timestamp, seconds: u64) -> (r: bool)
        ensures
            r == self.within(now, seconds),
    {
        now.nanos as i128 - self.nanos as i128 <= seconds as i128 * NANOS_PER_SECOND
    }
}

impl Instant {
    /// Nanoseconds from `earlier` to `self`, none where `earlier` is later.
    pub open spec fn elapsed_nanos(self, earlier: Instant) -> int {
        if self.nanos >= earlier.nanos {
            self.nanos - earlier.nanos
        } else {
            0
        }
    }

    pub open spec fn spec_elapsed_seconds(self, earlier: Instant) -> u64 {
        (self.elapsed_nanos(earlier) / 1_000_000_000) as u64
    }

    /// Whole seconds from `earlier` to `self`.
    #[verifier::when_used_as_spec(spec_elapsed_seconds)]
    pub fn elapsed_seconds(self, earlier: Instant) -> (r: u64)
        ensures
            r == self.elapsed_seconds(earlier),
            r == self.elapsed_nanos(earlier) / 1_000_000_000,
    {
        if self.nanos >= earlier.nanos {
            (self.nanos - earlier.nanos) / 1_000_000_000
        } else {
            0
        }
    }

    pub open spec fn spec_elapsed_at_least(self, earlier: Instant, seconds: u64) -> bool {
        self.elapsed_nanos(earlier) >= seconds * NANOS_PER_SECOND
    }

    /// Whether the given seconds have passed from `earlier` to `self`.
    #[verifier::when_used_as_spec(spec_elapsed_at_least)]
    pub fn elapsed_at_least(self, earlier: Instant, seconds: u64) -> (r: bool)
        ensures
            r == self.elapsed_at_least(earlier, seconds),
    {
        let span: u64 = if self.nanos >= earlier.nanos {
            self.nanos - earlier.nanos
        } else {
            0
        };
        span as i128 >= seconds as i128 * NANOS_PER_SECOND
    }

    pub open spec fn spec_elapsed_minutes(self, earlier: Instant, minutes: u64) -> bool {
        self.elapsed_nanos(earlier) >= minutes * 60 * NANOS_PER_SECOND
    }

    /// Whether the given minutes have passed from `earlier` to `self`.
    #[verifier::when_used_as_spec(spec_elapsed_minutes)]
    pub fn elapsed_minutes(self, earlier: Instant, minutes: u64) -> (r: bool)
        ensures
            r == self.elapsed_minutes(earlier, minutes),
    {
        let span: u64 = if self.nanos >= earlier.nanos {
            self.nanos - earlier.nanos
        } else {
            0
        };
        span as i128 >= minutes as i128 * 60 * NANOS_PER_SECOND
    }
}

/// A span cut to whole units has as many of them as fit into it, whichever way it runs.
pub proof fn law_spans_are_full_units(span: int, unit: int)
    requires
        unit > 0,
    ensures
        span >= 0 ==> truncated(span, unit) * unit <= span < (truncated(span, unit) + 1) * unit,
        span <= 0 ==> (truncated(span, unit) - 1) * unit < span <= truncated(span, unit) * unit,
        truncated(-span, unit) == -truncated(span, unit),
{
    let size = if span >= 0 {
        span
    } else {
        -span
    };
    let q = size / unit;
    assert(q * unit <= size < (q + 1) * unit) by (nonlinear_arith)
        requires
            q == size / unit,
            unit > 0,
    ;
    assert((-q) * unit == -(q * unit) && (-q - 1) * unit == -((q + 1) * unit)) by (nonlinear_arith);
    assert(0int / unit == 0) by (nonlinear_arith)
        requires
            unit > 0,
    ;
    assert((0 - 1) * unit < 0) by (nonlinear_arith)
        requires
            unit > 0,
    ;
    assert(0 * unit == 0) by (nonlinear_arith);
}

/// Between two points in time lie so many full seconds, minutes and milliseconds.
pub proof fn law_full_units_lie_between(earlier: Timestamp, later: Timestamp)
    requires
        earlier.nanos <= later.nanos,
    ensures
        ({
            let span = later.nanos - earlier.nanos;
            let (seconds, minutes, millis) = (
                later.seconds_since(earlier),
                later.minutes_since(earlier),
                later.millis_since(earlier),
            );
            &&& seconds * 1_000_000_000 <= span < (seconds + 1) * 1_000_000_000
            &&& minutes * 60_000_000_000 <= span < (minutes + 1) * 60_000_000_000
            &&& millis * 1_000_000 <= span < (millis + 1) * 1_000_000
        }),
        earlier.seconds_since(later) == -later.seconds_since(earlier),
        earlier.minutes_since(later) == -later.minutes_since(earlier),
        earlier.millis_since(later) == -later.millis_since(earlier),
{
}

/// A point in time lies within so many seconds exactly until they are over.
pub proof fn law_points_are_within_their_seconds(point: Timestamp, now: Timestamp, seconds: u64)
    ensures
        point.within(now, seconds) <==> now.nanos <= point.nanos + seconds * 1_000_000_000,
{
}

/// Time has passed once the clock has run on for so long; a clock that shows an earlier time has
/// not run at all.
pub proof fn law_elapsed_time_is_counted(earlier: Instant, now: Instant, n: u64)
    ensures
        now.nanos < earlier.nanos ==> now.elapsed_seconds(earlier) == 0,
        now.nanos >= earlier.nanos ==> now.elapsed_seconds(earlier) * 1_000_000_000 <= now.nanos
            - earlier.nanos < (now.elapsed_seconds(earlier) + 1) * 1_000_000_000,
        now.elapsed_at_least(earlier, n) <==> n == 0 || now.nanos - earlier.nanos >= n
            * 1_000_000_000,
        now.elapsed_minutes(earlier, n) <==> n == 0 || now.nanos - earlier.nanos >= n
            * 60_000_000_000,
{
}

} // verus!
