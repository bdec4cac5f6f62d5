//! When progress is logged while running non-interactively.
use vstd::prelude::*;
use vstd::arithmetic::power2::pow2;
use crate::duration::Duration;

verus! {

/// `2^e`.
fn pow2_u128(e: u32) -> (r: u128)
    requires
        e < 127,
    ensures
        r == pow2(e as nat),
{
    let mut p: u128 = 1;
    let mut i: u32 = 0;
    proof {
        vstd::arithmetic::power2::lemma2_to64();
    }
    while i < e
        invariant
            i <= e < 127,
            p == pow2(i as nat),
        decreases e - i,
    {
        proof {
            vstd::arithmetic::power2::lemma_pow2_unfold((i + 1) as nat);
            vstd::arithmetic::power2::lemma_pow2_strictly_increases((i + 1) as nat, 127);
            lemma_pow2_127();
        }
        p = p * 2;
        i = i + 1;
    }
    p
}

proof fn lemma_pow2_127()
    ensures
        pow2(127) < 0x1_0000_0000_0000_0000_0000_0000_0000_0000,
{
    vstd::arithmetic::power2::lemma2_to64();
    vstd::arithmetic::power2::lemma_pow2_adds(64, 63);
    vstd::arithmetic::power2::lemma2_to64_rest();
}

/// The log count after `elapsed` nanoseconds, from count `c`: the first count
/// whose next log time, `2^(count + 4)` seconds, is not yet passed.
pub open spec fn spec_exp_count(elapsed: int, c: nat) -> nat
    decreases 64 - c,
{
    if c >= 60 {
        c
    } else if elapsed > pow2(c + 4) * 1_000_000_000 {
        spec_exp_count(elapsed, c + 1)
    } else {
        c
    }
}

/// How many progress logs have been made.
#[derive(Debug, Clone, Copy)]
pub struct ProgressLogger {
    log_count: u32,
}

impl ProgressLogger {
    /// The number of logs made.
    pub closed spec fn spec_log_count(self) -> u32 {
        self.log_count
    }

    /// No log made yet.
    pub fn new() -> (r: Self)
        ensures
            r.spec_log_count() == 0,
    {
        ProgressLogger { log_count: 0 }
    }

    /// The number of logs made.
    pub fn log_count(&self) -> (r: u32)
        ensures
            r == self.spec_log_count(),
    {
        self.log_count
    }

    /// The time of the next exponential log: first after 16s, then 32s etc.
    pub fn next_log_exponential(&self) -> (r: Duration)
        requires
            self.spec_log_count() < 60,
        ensures
            r.wf(),
            r.total_nanos() == pow2((self.spec_log_count() + 4) as nat) * 1_000_000_000,
    {
        let p = pow2_u128(self.log_count + 4);
        proof {
            vstd::arithmetic::power2::lemma2_to64();
            vstd::arithmetic::power2::lemma_pow2_strictly_increases((self.log_count + 4) as nat, 64);
        }
        Duration::from_secs(p as u64)
    }

    /// Log when `elapsed` has passed the next exponential log time, counting
    /// every log time passed.
    pub fn should_log_exponential(&mut self, elapsed: Duration) -> (r: bool)
        requires
            elapsed.wf(),
            old(self).spec_log_count() <= 59,
            elapsed.total_nanos() <= pow2(63) * 1_000_000_000,
        ensures
            final(self).spec_log_count() == spec_exp_count(elapsed.total_nanos(), old(self).spec_log_count() as nat),
            r == (final(self).spec_log_count() != old(self).spec_log_count()),
    {
        let before = self.log_count;
        let e = elapsed.as_nanos();
        proof {
            vstd::arithmetic::power2::lemma2_to64_rest();
            assert forall|c: nat| c <= 63 implies #[trigger] pow2(c) <= 0x8000_0000_0000_0000 by {
                if c < 63 {
                    vstd::arithmetic::power2::lemma_pow2_strictly_increases(c, 63);
                }
            }
        }
        while self.log_count < 60 && e > pow2_u128(self.log_count + 4) * 1_000_000_000
            invariant
                forall|c: nat| c <= 63 ==> #[trigger] pow2(c) <= 0x8000_0000_0000_0000,
                self.log_count <= 60,
                e == elapsed.total_nanos(),
                e <= pow2(63) * 1_000_000_000,
                spec_exp_count(e as int, self.log_count as nat) == spec_exp_count(e as int, before as nat),
            decreases 60 - self.log_count,
        {
            self.log_count = self.log_count + 1;
        }
        proof {
            if self.log_count >= 60 {
                vstd::arithmetic::power2::lemma2_to64_rest();
            }
        }
        before != self.log_count
    }

    /// Log when a whole `interval` more has passed since the last log, counting
    /// the intervals passed (`u32::MAX` at most; every count where `interval` is
    /// zero and time has passed).
    pub fn should_log_duration(&mut self, elapsed: Duration, interval: Duration) -> (r: bool)
        requires
            elapsed.wf(),
            interval.wf(),
        ensures
            r == (spec_expected_count(elapsed, interval) > old(self).spec_log_count()),
            final(self).spec_log_count() == if r {
                spec_expected_count(elapsed, interval) as u32
            } else {
                old(self).spec_log_count()
            },
    {
        let e = elapsed.as_nanos();
        let i = interval.as_nanos();
        let expected: u32 = if i == 0 {
            if e == 0 {
                0
            } else {
                u32::MAX
            }
        } else if e / i > u32::MAX as u128 {
            u32::MAX
        } else {
            (e / i) as u32
        };
        if expected > self.log_count {
            self.log_count = expected;
            true
        } else {
            false
        }
    }
}

/// The whole intervals in `elapsed`, saturated at `u32::MAX`: `u32::MAX` for a
/// zero interval after some time, 0 before any.
pub open spec fn spec_expected_count(elapsed: Duration, interval: Duration) -> int {
    if interval.total_nanos() == 0 {
        if elapsed.total_nanos() == 0 {
            0
        } else {
            u32::MAX as int
        }
    } else if elapsed.total_nanos() / interval.total_nanos() > u32::MAX {
        u32::MAX as int
    } else {
        elapsed.total_nanos() / interval.total_nanos()
    }
}

} // verus!
