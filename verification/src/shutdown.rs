//! Graceful shutdown: the in-flight request count, the shutdown signal,
//! and the decisions of the drain phase. Broadcasting the signal, sleeping
//! and running the hooks happen outside, as these functions direct.
use vstd::prelude::*;

use crate::duration::Duration;

verus! {

/// How long to wait between checks while draining: 50 ms.
pub const DRAIN_POLL_MS: u64 = 50;

/// What the drain phase does next.
#[derive(Debug, Clone, Copy, PartialEq, Eq, Structural)]
pub enum DrainStep {
    /// No request is in flight: run the hooks.
    Drained,
    /// The deadline passed with requests still in flight: run the hooks anyway.
    TimedOut { remaining: usize },
    /// Sleep this many milliseconds and check again.
    Wait { ms: u64 },
}

/// The state of graceful shutdown.
#[derive(Debug, Clone, Copy, PartialEq, Eq, Structural)]
pub struct ShutdownCoordinator {
    /// Whether the shutdown signal has been sent.
    pub shutting_down: bool,
    /// Whether shutdown has been initiated (it runs once).
    pub initiated: bool,
    /// Requests in flight.
    pub in_flight: usize,
    /// The longest wait for in-flight requests.
    pub drain_timeout: Duration,
}

impl ShutdownCoordinator {
    /// A coordinator with the given drain timeout, not shutting down.
    pub fn new(drain_timeout: Duration) -> (c: ShutdownCoordinator)
        ensures
            c == (ShutdownCoordinator { shutting_down: false, initiated: false, in_flight: 0, drain_timeout }),
    {
        ShutdownCoordinator { shutting_down: false, initiated: false, in_flight: 0, drain_timeout }
    }

    /// A coordinator with a 30-second drain timeout.
    pub fn with_default_timeout() -> (c: ShutdownCoordinator)
        ensures
            c == (ShutdownCoordinator {
                shutting_down: false,
                initiated: false,
                in_flight: 0,
                drain_timeout: Duration { secs: 30, nanos: 0 },
            }),
    {
        ShutdownCoordinator::new(Duration::from_secs(30))
    }

    /// Whether the shutdown signal has been sent.
    pub fn is_shutting_down(&self) -> (b: bool)
        ensures
            b == self.shutting_down,
    {
        self.shutting_down
    }

    /// Count a new request in flight; `false` (the request should be
    /// refused) once shutting down.
    pub fn track_request(&mut self) -> (accepted: bool)
        requires
            old(self).in_flight < usize::MAX,
        ensures
            accepted == !old(self).shutting_down,
            final(self).in_flight == if accepted {
                old(self).in_flight + 1
            } else {
                old(self).in_flight as int
            },
            final(self).shutting_down == old(self).shutting_down,
            final(self).initiated == old(self).initiated,
            final(self).drain_timeout == old(self).drain_timeout,
    {
        if self.shutting_down {
            return false;
        }
        self.in_flight = self.in_flight + 1;
        true
    }

    /// A request finished; the count never goes below zero.
    pub fn finish_request(&mut self)
        ensures
            final(self).in_flight == if old(self).in_flight == 0 {
                0
            } else {
                old(self).in_flight - 1
            },
            final(self).shutting_down == old(self).shutting_down,
            final(self).initiated == old(self).initiated,
            final(self).drain_timeout == old(self).drain_timeout,
    {
        if self.in_flight > 0 {
            self.in_flight = self.in_flight - 1;
        }
    }

    /// Requests in flight.
    pub fn in_flight_count(&self) -> (n: usize)
        ensures
            n == self.in_flight,
    {
        self.in_flight
    }

    /// Start shutting down: the first call sends the signal and returns
    /// `true` (the caller then drains and runs the hooks); later calls
    /// change nothing and return `false`.
    pub fn initiate_shutdown(&mut self) -> (first: bool)
        ensures
            first == !old(self).initiated,
            *final(self) == after_initiate(*old(self)),
    {
        if self.initiated {
            return false;
        }
        self.initiated = true;
        self.shutting_down = true;
        true
    }

    /// The drain phase's next step at `elapsed_ms` since it began: done when
    /// nothing is in flight, timed out once the drain timeout has passed,
    /// else wait and look again.
    pub fn drain_step(&self, elapsed_ms: u128) -> (s: DrainStep)
        requires
            self.drain_timeout.wf(),
        ensures
            self.in_flight == 0 ==> s == DrainStep::Drained,
            self.in_flight > 0 && elapsed_ms * 1_000_000 >= self.drain_timeout@ ==> s == (DrainStep::TimedOut {
                remaining: self.in_flight,
            }),
            self.in_flight > 0 && elapsed_ms * 1_000_000 < self.drain_timeout@ ==> s == (DrainStep::Wait {
                ms: DRAIN_POLL_MS,
            }),
    {
        if self.in_flight == 0 {
            return DrainStep::Drained;
        }
        let limit = self.drain_timeout.as_nanos();
        let reached = if elapsed_ms >= limit {
            true
        } else {
            elapsed_ms * 1_000_000 >= limit
        };
        if reached {
            DrainStep::TimedOut { remaining: self.in_flight }
        } else {
            DrainStep::Wait { ms: DRAIN_POLL_MS }
        }
    }
}

/// The state after initiating shutdown.
pub open spec fn after_initiate(c: ShutdownCoordinator) -> ShutdownCoordinator {
    if c.initiated {
        c
    } else {
        ShutdownCoordinator { initiated: true, shutting_down: true, ..c }
    }
}

/// Initiating shutdown is idempotent: initiating twice leaves the state the
/// first initiation left; and after an initiation from a fresh state, no new
/// request is accepted.
pub proof fn lemma_shutdown_idempotent(c: ShutdownCoordinator)
    ensures
        after_initiate(after_initiate(c)) == after_initiate(c),
        !c.initiated ==> after_initiate(c).shutting_down,
{
}

} // verus!
