//! The decisions of the thread that watches the executor: a probe task marks
//! itself as having run once per interval, and the watcher adds a worker whenever
//! an interval went by without the probe running, and lets one go every few
//! seconds.
//!
//! Times are milliseconds on a clock that only moves forward.

use vstd::prelude::*;

verus! {

/// How often the probe task marks itself as having run, in milliseconds.
pub const PROBE_INTERVAL_MS: u64 = 500;

/// How long the watcher waits between two checks: one probe interval and a
/// little more, so that a probe that runs on time is seen.
pub const CHECK_INTERVAL_MS: u64 = 510;

/// How often the executor is asked to let a worker go, in milliseconds.
pub const SCALE_DOWN_INTERVAL_MS: u64 = 5000;

/// What the watcher does after a check.
#[derive(Debug, Clone, Copy, PartialEq, Eq, Structural)]
pub struct MonitorAction {
    /// Warn that the executor is blocked, and start another worker.
    pub scale_up: bool,
    /// Ask the executor to let a worker go.
    pub scale_down: bool,
}

/// The watcher's state: when the next scale-down is due.
#[derive(Debug)]
pub struct Monitor {
    next_scale_down: u64,
}

impl Monitor {
    /// The time at which the next scale-down is due.
    pub closed spec fn due(&self) -> nat {
        self.next_scale_down as nat
    }

    /// A watcher started at `now`: the first scale-down is due one interval later.
    pub fn new(now: u64) -> (m: Monitor)
        requires
            now + SCALE_DOWN_INTERVAL_MS <= u64::MAX,
        ensures
            m.due() == now + SCALE_DOWN_INTERVAL_MS,
    {
        Monitor { next_scale_down: now + SCALE_DOWN_INTERVAL_MS }
    }

    /// The time at which the next scale-down is due.
    pub fn next_due(&self) -> (t: u64)
        ensures
            t == self.due(),
    {
        self.next_scale_down
    }

    /// A check at time `now`, where `probed` says whether the probe task ran during
    /// the interval just past: a worker is added when it did not; a worker is let
    /// go when the scale-down is due, which then falls due one interval later than
    /// it was.
    pub fn check(&mut self, probed: bool, now: u64) -> (a: MonitorAction)
        requires
            old(self).due() <= now ==> old(self).due() + SCALE_DOWN_INTERVAL_MS <= u64::MAX,
        ensures
            a.scale_up == !probed,
            a.scale_down == (old(self).due() <= now),
            final(self).due() == if old(self).due() <= now {
                old(self).due() + SCALE_DOWN_INTERVAL_MS
            } else {
                old(self).due() as int
            },
    {
        let scale_down = self.next_scale_down <= now;
        if scale_down {
            self.next_scale_down = self.next_scale_down + SCALE_DOWN_INTERVAL_MS;
        }
        MonitorAction { scale_up: !probed, scale_down }
    }
}

} // verus!
