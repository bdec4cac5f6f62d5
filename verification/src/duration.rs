//! A span of time in whole seconds and nanoseconds, with exact arithmetic.
use vstd::prelude::*;

verus! {

/// Nanoseconds in one second.
pub const NANOS_PER_SEC: u32 = 1_000_000_000;

/// A span of time: whole seconds plus a nanosecond part below one second.
#[derive(Debug, Clone, Copy, PartialEq, Eq, Structural)]
pub struct Duration {
    secs: u64,
    nanos: u32,
}

impl Duration {
    /// The nanosecond part is below one second.
    pub open spec fn wf(self) -> bool {
        self.spec_nanos() < NANOS_PER_SEC
    }

    /// Whole seconds.
    pub closed spec fn spec_secs(self) -> u64 {
        self.secs
    }

    /// The part below one second, in nanoseconds.
    pub closed spec fn spec_nanos(self) -> u32 {
        self.nanos
    }

    /// The span in nanoseconds.
    pub open spec fn total_nanos(self) -> int {
        self.spec_secs() * NANOS_PER_SEC + self.spec_nanos()
    }

    /// Two well-formed spans of equal length are equal.
    pub proof fn lemma_eq(a: Duration, b: Duration)
        requires
            a.wf(),
            b.wf(),
            a.total_nanos() == b.total_nanos(),
        ensures
            a == b,
    {
        assert(a.secs == b.secs) by (nonlinear_arith)
            requires
                a.nanos < 1_000_000_000,
                b.nanos < 1_000_000_000,
                a.secs * 1_000_000_000 + a.nanos == b.secs * 1_000_000_000 + b.nanos,
        ;
    }

    /// The empty span.
    pub fn zero() -> (r: Duration)
        ensures
            r.wf(),
            r.total_nanos() == 0,
    {
        Duration { secs: 0, nanos: 0 }
    }

    /// `secs` whole seconds.
    pub fn from_secs(secs: u64) -> (r: Duration)
        ensures
            r.wf(),
            r.spec_secs() == secs,
            r.spec_nanos() == 0,
            r.total_nanos() == secs * NANOS_PER_SEC,
    {
        Duration { secs, nanos: 0 }
    }

    /// `millis` milliseconds.
    pub fn from_millis(millis: u64) -> (r: Duration)
        ensures
            r.wf(),
            r.total_nanos() == millis * 1_000_000,
    {
        let secs = millis / 1000;
        let nanos = ((millis % 1000) as u32) * 1_000_000;
        Duration { secs, nanos }
    }

    /// `secs` seconds plus `nanos` nanoseconds, the nanoseconds carried into seconds
    /// (`Duration::new`, which panics where the seconds overflow).
    pub fn new(secs: u64, nanos: u32) -> (r: Duration)
        requires
            secs + nanos / NANOS_PER_SEC <= u64::MAX,
        ensures
            r.wf(),
            r.total_nanos() == secs * NANOS_PER_SEC + nanos,
    {
        let carry = (nanos / NANOS_PER_SEC) as u64;
        Duration { secs: secs + carry, nanos: nanos % NANOS_PER_SEC }
    }

    /// Whole seconds.
    pub fn as_secs(&self) -> (r: u64)
        ensures
            r == self.spec_secs(),
    {
        self.secs
    }

    /// The part below one second, in nanoseconds.
    pub fn subsec_nanos(&self) -> (r: u32)
        ensures
            r == self.spec_nanos(),
    {
        self.nanos
    }

    /// Whole milliseconds.
    pub fn as_millis(&self) -> (r: u128)
        requires
            self.wf(),
        ensures
            r == self.total_nanos() / 1_000_000,
    {
        let r = (self.secs as u128) * 1000 + (self.nanos / 1_000_000) as u128;
        assert(r == self.total_nanos() / 1_000_000) by (nonlinear_arith)
            requires
                r == self.secs * 1000 + self.nanos / 1_000_000,
                self.total_nanos() == self.secs * 1_000_000_000 + self.nanos,
                self.nanos < 1_000_000_000,
        ;
        r
    }

    /// Whole microseconds, `u64::MAX` where they do not fit.
    pub fn as_micros_u64(&self) -> (r: u64)
        requires
            self.wf(),
        ensures
            r == if self.total_nanos() / 1000 <= u64::MAX {
                self.total_nanos() / 1000
            } else {
                u64::MAX as int
            },
    {
        let micros = (self.secs as u128) * 1_000_000 + (self.nanos / 1000) as u128;
        assert(micros == self.total_nanos() / 1000) by (nonlinear_arith)
            requires
                micros == self.secs * 1_000_000 + self.nanos / 1000,
                self.total_nanos() == self.secs * 1_000_000_000 + self.nanos,
                self.nanos < 1_000_000_000,
        ;
        if micros > u64::MAX as u128 {
            u64::MAX
        } else {
            micros as u64
        }
    }

    /// The whole span in nanoseconds.
    pub fn as_nanos(&self) -> (r: u128)
        requires
            self.wf(),
        ensures
            r == self.total_nanos(),
    {
        self.secs as u128 * 1_000_000_000 + self.nanos as u128
    }

    /// The span of `nanos` nanoseconds.
    pub fn from_total_nanos(nanos: u128) -> (r: Duration)
        requires
            nanos <= max_total_nanos(),
        ensures
            r.wf(),
            r.total_nanos() == nanos,
    {
        let secs = (nanos / 1_000_000_000) as u64;
        let sub = (nanos % 1_000_000_000) as u32;
        Duration { secs, nanos: sub }
    }

    /// No time at all.
    pub fn is_zero(&self) -> (r: bool)
        requires
            self.wf(),
        ensures
            r == (self.total_nanos() == 0),
    {
        self.secs == 0 && self.nanos == 0
    }

    /// Whether `self` is at least as long as `other`.
    pub fn ge(&self, other: &Duration) -> (r: bool)
        requires
            self.wf(),
            other.wf(),
        ensures
            r == (self.total_nanos() >= other.total_nanos()),
    {
        self.secs > other.secs || (self.secs == other.secs && self.nanos >= other.nanos)
    }
}

/// The longest span a `Duration` holds, in nanoseconds.
pub open spec fn max_total_nanos() -> int {
    u64::MAX * NANOS_PER_SEC + (NANOS_PER_SEC - 1)
}

/// A well-formed span is at most the longest one.
pub proof fn lemma_total_bounded(d: Duration)
    requires
        d.wf(),
    ensures
        0 <= d.total_nanos() <= max_total_nanos(),
{
    assert(d.spec_secs() * NANOS_PER_SEC <= u64::MAX * NANOS_PER_SEC) by (nonlinear_arith)
        requires
            d.spec_secs() <= u64::MAX,
    ;
}

/// The whole milliseconds of `duration`, saturated at `u64::MAX` milliseconds.
pub open spec fn spec_floor_ms(duration: Duration) -> int {
    let millis = duration.total_nanos() / 1_000_000;
    if millis <= u64::MAX {
        millis * 1_000_000
    } else {
        u64::MAX * 1_000_000
    }
}

/// `duration` without its sub-millisecond part, so it prints readably
/// (milliseconds beyond `u64::MAX` saturate).
pub fn floor_ms(duration: Duration) -> (r: Duration)
    requires
        duration.wf(),
    ensures
        r.wf(),
        r.total_nanos() == spec_floor_ms(duration),
{
    let millis = duration.as_millis();
    let m: u64 = if millis > u64::MAX as u128 {
        u64::MAX
    } else {
        millis as u64
    };
    Duration::from_millis(m)
}

/// `duration` without its sub-millisecond part, so it prints readably
/// (milliseconds beyond `u64::MAX` saturate).
pub fn round_ms(duration: Duration) -> (r: Duration)
    requires
        duration.wf(),
    ensures
        r.wf(),
        r.total_nanos() == spec_floor_ms(duration),
{
    floor_ms(duration)
}

} // verus!
