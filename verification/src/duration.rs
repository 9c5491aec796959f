//! A span of time with nanosecond resolution, as used by schedules,
//! timeouts and back-off delays.
use vstd::prelude::*;

verus! {

/// Nanoseconds in one second.
pub const NANOS_PER_SEC: u32 = 1_000_000_000;

/// A span of time: whole seconds plus a sub-second part in nanoseconds.
#[derive(Clone, Copy, Debug, PartialEq, Eq, PartialOrd, Ord, Structural)]
pub struct Duration {
    /// Whole seconds.
    pub secs: u64,
    /// Sub-second nanoseconds, below one second.
    pub nanos: u32,
}

impl View for Duration {
    type V = nat;

    /// The span in nanoseconds.
    open spec fn view(&self) -> nat {
        (self.secs as nat) * 1_000_000_000 + self.nanos as nat
    }
}

impl Duration {
    /// The sub-second part is below one second.
    pub open spec fn wf(self) -> bool {
        self.nanos < NANOS_PER_SEC
    }

    /// The largest representable span.
    pub open spec fn spec_max() -> Duration {
        Duration { secs: u64::MAX, nanos: (NANOS_PER_SEC - 1) as u32 }
    }

    /// A span of `secs` whole seconds.
    pub fn from_secs(secs: u64) -> (d: Duration)
        ensures
            d.wf(),
            d.secs == secs,
            d.nanos == 0,
            d@ == secs * 1_000_000_000,
    {
        Duration { secs, nanos: 0 }
    }

    /// A span of `millis` milliseconds.
    pub fn from_millis(millis: u64) -> (d: Duration)
        ensures
            d.wf(),
            d@ == millis * 1_000_000,
    {
        let secs = millis / 1000;
        let rest = millis % 1000;
        assert(rest * 1_000_000 < 1_000_000_000) by (nonlinear_arith)
            requires rest < 1000;
        let nanos = (rest as u32) * 1_000_000;
        assert((secs as nat) * 1_000_000_000 + (rest as nat) * 1_000_000 == millis * 1_000_000)
            by (nonlinear_arith)
            requires secs == millis / 1000, rest == millis % 1000;
        Duration { secs, nanos }
    }

    /// The zero span.
    pub fn zero() -> (d: Duration)
        ensures
            d.wf(),
            d@ == 0,
    {
        Duration { secs: 0, nanos: 0 }
    }

    /// Whole seconds in the span.
    pub fn as_secs(&self) -> (s: u64)
        ensures
            s == self.secs,
    {
        self.secs
    }

    /// Whole milliseconds in the span.
    pub fn as_millis(&self) -> (ms: u128)
        requires
            self.wf(),
        ensures
            ms == self@ / 1_000_000,
    {
        let ms = (self.secs as u128) * 1000 + (self.nanos / 1_000_000) as u128;
        assert(ms == self@ / 1_000_000) by (nonlinear_arith)
            requires
                ms == (self.secs as nat) * 1000 + (self.nanos as nat) / 1_000_000,
                self.nanos < 1_000_000_000,
                self@ == (self.secs as nat) * 1_000_000_000 + self.nanos as nat;
        ms
    }

    /// The span in nanoseconds.
    pub fn as_nanos(&self) -> (n: u128)
        ensures
            n == self@,
    {
        assert((self.secs as nat) * 1_000_000_000 <= 18_446_744_073_709_551_615 * 1_000_000_000)
            by (nonlinear_arith);
        (self.secs as u128) * 1_000_000_000 + self.nanos as u128
    }

    /// `self` is no longer than `other`.
    pub fn le(&self, other: &Duration) -> (b: bool)
        requires
            self.wf(),
            other.wf(),
        ensures
            b == (self@ <= other@),
    {
        proof {
            lemma_view_order(*self, *other);
        }
        self.secs < other.secs || (self.secs == other.secs && self.nanos <= other.nanos)
    }

    /// The shorter of two spans.
    pub fn min(self, other: Duration) -> (d: Duration)
        requires
            self.wf(),
            other.wf(),
        ensures
            d.wf(),
            d@ == if self@ <= other@ { self@ } else { other@ },
    {
        if self.le(&other) {
            self
        } else {
            other
        }
    }

    /// The span multiplied by `k`, or the largest span when the product does not fit.
    pub fn saturating_mul(self, k: u32) -> (d: Duration)
        requires
            self.wf(),
        ensures
            d.wf(),
            self@ * k <= Duration::spec_max()@ ==> d@ == self@ * k,
            self@ * k > Duration::spec_max()@ ==> d == Duration::spec_max(),
    {
        assert((self.nanos as nat) * (k as nat) < 1_000_000_000 * 4_294_967_296) by (nonlinear_arith)
            requires self.nanos < 1_000_000_000, k < 4_294_967_296;
        let total_nanos: u128 = (self.nanos as u128) * (k as u128);
        let extra_secs: u128 = total_nanos / 1_000_000_000;
        let nanos: u128 = total_nanos % 1_000_000_000;
        assert((self.secs as nat) * (k as nat) <= 18_446_744_073_709_551_615nat * 4_294_967_295nat) by (nonlinear_arith)
            requires self.secs <= 18_446_744_073_709_551_615u64, k <= 4_294_967_295u32;
        let secs_prod: u128 = (self.secs as u128) * (k as u128);
        let secs: u128 = secs_prod + extra_secs;
        proof {
            assert(self@ * k == (secs as nat) * 1_000_000_000 + nanos as nat) by (nonlinear_arith)
                requires
                    self@ == (self.secs as nat) * 1_000_000_000 + self.nanos as nat,
                    total_nanos == (self.nanos as nat) * (k as nat),
                    extra_secs == total_nanos / 1_000_000_000,
                    nanos == total_nanos % 1_000_000_000,
                    secs_prod == (self.secs as nat) * (k as nat),
                    secs == secs_prod + extra_secs;
        }
        if secs > u64::MAX as u128 {
            proof {
                assert((secs as nat) * 1_000_000_000 + nanos as nat > Duration::spec_max()@)
                    by (nonlinear_arith)
                    requires secs > 18_446_744_073_709_551_615u128, nanos >= 0;
            }
            Duration { secs: u64::MAX, nanos: NANOS_PER_SEC - 1 }
        } else {
            proof {
                assert((secs as nat) * 1_000_000_000 + nanos as nat <= Duration::spec_max()@)
                    by (nonlinear_arith)
                    requires secs <= 18_446_744_073_709_551_615u128, nanos < 1_000_000_000;
            }
            Duration { secs: secs as u64, nanos: nanos as u32 }
        }
    }
}

/// Spans compare by whole seconds first, then by the sub-second part.
pub proof fn lemma_view_order(a: Duration, b: Duration)
    requires
        a.wf(),
        b.wf(),
    ensures
        (a@ <= b@) == (a.secs < b.secs || (a.secs == b.secs && a.nanos <= b.nanos)),
{
    if a.secs < b.secs {
        assert((a.secs as nat) * 1_000_000_000 + 1_000_000_000 <= (b.secs as nat) * 1_000_000_000)
            by (nonlinear_arith)
            requires a.secs < b.secs;
    } else if a.secs > b.secs {
        assert((b.secs as nat) * 1_000_000_000 + 1_000_000_000 <= (a.secs as nat) * 1_000_000_000)
            by (nonlinear_arith)
            requires b.secs < a.secs;
    }
}

} // verus!
