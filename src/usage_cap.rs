use crate::types::GasPoolError;
use vstd::prelude::*;

verus! {

/// Length of an accounting window, in milliseconds.
pub const WINDOW_MS: u64 = 86_400_000;

/// Daily gas-usage accounting for one pool.
///
/// Usage accumulates within a window of 24 hours; the first update at or
/// after the window's end starts a new window at that instant.
#[derive(Clone, Copy, Debug)]
pub struct GasUsageCap {
    pub daily_limit: u64,
    pub window_start_ms: u64,
    pub window_usage: i64,
}

/// Whether the window that starts at `start` is over at `now`.
pub open spec fn window_over(start: u64, now: u64) -> bool {
    now >= start + WINDOW_MS
}

/// A signed sum, saturated to the range of `i64`.
pub open spec fn saturate_i64(x: int) -> int {
    if x > i64::MAX {
        i64::MAX as int
    } else if x < i64::MIN {
        i64::MIN as int
    } else {
        x
    }
}

impl GasUsageCap {
    /// The usage that counts at `now`: nothing once the window is over.
    pub open spec fn usage_at(self, now: u64) -> int {
        if window_over(self.window_start_ms, now) {
            0
        } else {
            self.window_usage as int
        }
    }

    /// The state after adding `delta` at `now`.
    pub open spec fn updated(self, delta: i64, now: u64) -> GasUsageCap {
        let start = if window_over(self.window_start_ms, now) {
            now
        } else {
            self.window_start_ms
        };
        GasUsageCap {
            daily_limit: self.daily_limit,
            window_start_ms: start,
            window_usage: saturate_i64(self.usage_at(now) + delta) as i64,
        }
    }

    pub open spec fn new_spec(daily_limit: u64, now_ms: u64) -> GasUsageCap {
        GasUsageCap { daily_limit, window_start_ms: now_ms, window_usage: 0 }
    }

    /// A cap of `daily_limit` whose first window starts at `now_ms`.
    pub fn new(daily_limit: u64, now_ms: u64) -> (r: GasUsageCap)
        ensures
            r == GasUsageCap::new_spec(daily_limit, now_ms),
    {
        GasUsageCap { daily_limit, window_start_ms: now_ms, window_usage: 0 }
    }

    fn window_is_over(&self, now_ms: u64) -> (r: bool)
        ensures
            r == window_over(self.window_start_ms, now_ms),
    {
        now_ms >= self.window_start_ms && now_ms - self.window_start_ms >= WINDOW_MS
    }

    /// Admits new work while the usage of the current window is below the limit.
    pub fn check_usage(&self, now_ms: u64) -> (r: Result<(), GasPoolError>)
        ensures
            r is Ok <==> self.usage_at(now_ms) < self.daily_limit,
            r is Err ==> r == Err::<(), GasPoolError>(GasPoolError::CapExceeded),
    {
        let usage: i64 = if self.window_is_over(now_ms) {
            0
        } else {
            self.window_usage
        };
        if usage < 0 || (usage as u64) < self.daily_limit {
            Ok(())
        } else {
            Err(GasPoolError::CapExceeded)
        }
    }

    /// Adds a signed usage `delta` at `now_ms`, first starting a new window if
    /// the current one is over, and returns the usage of the window after it.
    pub fn update_usage(&mut self, delta: i64, now_ms: u64) -> (r: i64)
        ensures
            *final(self) == old(self).updated(delta, now_ms),
            r == final(self).window_usage,
    {
        if self.window_is_over(now_ms) {
            self.window_start_ms = now_ms;
            self.window_usage = 0;
        }
        let sum: i128 = self.window_usage as i128 + delta as i128;
        self.window_usage = if sum > i64::MAX as i128 {
            i64::MAX
        } else if sum < i64::MIN as i128 {
            i64::MIN
        } else {
            sum as i64
        };
        self.window_usage
    }
}

/// Within one window, every positive update strictly raises the usage that
/// the next update returns, as long as the sum stays within `i64`.
pub proof fn lemma_usage_increases_within_window(
    cap: GasUsageCap,
    d1: i64,
    now1: u64,
    d2: i64,
    now2: u64,
)
    requires
        d2 > 0,
        !window_over(cap.updated(d1, now1).window_start_ms, now2),
        cap.updated(d1, now1).window_usage + d2 <= i64::MAX,
    ensures
        cap.updated(d1, now1).updated(d2, now2).window_usage > cap.updated(d1, now1).window_usage,
{
}

} // verus!
