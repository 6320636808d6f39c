//! Interval scheduling decisions: when a render tick should trigger an
//! automatic check cycle. The caller supplies the current time as
//! milliseconds of a monotonic clock; this module never reads a clock
//! itself.

use vstd::prelude::*;

verus! {

/// The default interval between automatic checks, in milliseconds.
pub const DEFAULT_CHECK_INTERVAL_MS: u64 = 30000;

/// Tracks when the endpoints were last checked and decides when the next
/// automatic check is due.
pub struct Scheduler {
    /// Time of the most recent check, in milliseconds of the caller's
    /// monotonic clock.
    pub last_check_ms: u64,
    /// Interval between automatic checks, in milliseconds.
    pub check_interval_ms: u64,
    /// Whether automatic checks are enabled.
    pub auto_check_enabled: bool,
}

impl Scheduler {
    /// A scheduler as at startup: automatic checks enabled, the given
    /// moment counting as the last check.
    pub fn new(now_ms: u64, check_interval_ms: u64) -> (s: Scheduler)
        ensures
            s == (Scheduler { last_check_ms: now_ms, check_interval_ms, auto_check_enabled: true }),
    {
        Scheduler { last_check_ms: now_ms, check_interval_ms, auto_check_enabled: true }
    }

    /// Whether a tick at `now_ms` should trigger an automatic check:
    /// automatic checks are on and at least the interval has elapsed since
    /// the last check. The clock is monotonic, so `now_ms` never lies
    /// before the recorded last check.
    pub fn should_check(&self, now_ms: u64) -> (b: bool)
        requires
            now_ms >= self.last_check_ms,
        ensures
            b == (self.auto_check_enabled && now_ms - self.last_check_ms
                >= self.check_interval_ms),
    {
        self.auto_check_enabled && now_ms - self.last_check_ms >= self.check_interval_ms
    }

    /// Records that a check cycle was started at `now_ms`, whether by the
    /// automatic trigger or by an explicit user request.
    pub fn mark_checked(&mut self, now_ms: u64)
        ensures
            *final(self) == (Scheduler { last_check_ms: now_ms, ..*old(self) }),
    {
        self.last_check_ms = now_ms;
    }

    /// Turns automatic checking on or off.
    pub fn set_auto_check(&mut self, enabled: bool)
        ensures
            *final(self) == (Scheduler { auto_check_enabled: enabled, ..*old(self) }),
    {
        self.auto_check_enabled = enabled;
    }
}

} // verus!
