//! Whether the upstream service is under high load, by its average latency.

use crate::float_bits::{greater, is_greater};
use vstd::prelude::*;

verus! {

/// Follows a moving average of the latency, and tells high load from low by two thresholds.
///
/// The average and the thresholds are held as the bits of floating-point numbers.
pub struct LatencyMonitor {
    avg_as_u64: u64,
    high_load: bool,
    high_ms: u64,
    low_ms: u64,
}

/// Whether the load is high at an average latency. The threshold is the lower one as long as it was
/// high before, so that the load does not flip back and forth.
pub open spec fn load_at(was_high: bool, average: u64, high_ms: u64, low_ms: u64) -> bool {
    greater(
        average,
        if was_high {
            low_ms
        } else {
            high_ms
        },
    )
}

impl LatencyMonitor {
    /// The bits of the average.
    pub closed spec fn average_bits(self) -> u64 {
        self.avg_as_u64
    }

    /// Whether the load is high.
    pub closed spec fn high(self) -> bool {
        self.high_load
    }

    /// The thresholds: the upper one and the lower one.
    pub closed spec fn thresholds(self) -> (u64, u64) {
        (self.high_ms, self.low_ms)
    }

    /// A monitor with an average of zero and low load.
    pub fn new(high_ms: u64, low_ms: u64) -> (r: Self)
        ensures
            r.average_bits() == 0,
            !r.high(),
            r.thresholds() == (high_ms, low_ms),
    {
        LatencyMonitor { avg_as_u64: 0, high_load: false, high_ms, low_ms }
    }

    /// Takes a new average, returning true if that changed whether the load is high.
    pub fn update(&mut self, new_avg: u64) -> (r: bool)
        ensures
            final(self).average_bits() == new_avg,
            final(self).thresholds() == old(self).thresholds(),
            final(self).high() == load_at(
                old(self).high(),
                new_avg,
                old(self).thresholds().0,
                old(self).thresholds().1,
            ),
            r == (final(self).high() != old(self).high()),
    {
        self.avg_as_u64 = new_avg;
        let old_high_load = self.high_load;
        let threshold = if old_high_load {
            self.low_ms
        } else {
            self.high_ms
        };
        let new_high_load = is_greater(new_avg, threshold);
        if new_high_load != old_high_load {
            self.high_load = new_high_load;
            return true;
        }
        false
    }

    /// The bits of the average.
    pub fn average(&self) -> (r: u64)
        ensures
            r == self.average_bits(),
    {
        self.avg_as_u64
    }

    /// Whether the load is high.
    pub fn is_high_load(&self) -> (r: bool)
        ensures
            r == self.high(),
    {
        self.high_load
    }
}

/// Between the thresholds nothing changes: an average above the lower one and not above the upper
/// one leaves the load as it was.
pub proof fn law_no_change_between_thresholds(
    was_high: bool,
    average: u64,
    high_ms: u64,
    low_ms: u64,
)
    requires
        greater(average, low_ms),
        !greater(average, high_ms),
    ensures
        load_at(was_high, average, high_ms, low_ms) == was_high,
{
}

/// The load becomes high only above the upper threshold, and low only where the average is not
/// above the lower one.
pub proof fn law_load_changes_only_beyond_a_threshold(
    was_high: bool,
    average: u64,
    high_ms: u64,
    low_ms: u64,
)
    requires
        load_at(was_high, average, high_ms, low_ms) != was_high,
    ensures
        !was_high ==> greater(average, high_ms),
        was_high ==> !greater(average, low_ms),
{
}

/// The load after an update is that of the new average: with low load before, it is high where the
/// average is above the upper threshold; with high load before, where it is above the lower one.
/// The update tells whether that is a change, keeps the average, and leaves the thresholds alone.
pub proof fn law_update_follows_the_average(
    monitor: &mut LatencyMonitor,
    new_avg: u64,
    changed: bool,
)
    requires
        call_ensures(LatencyMonitor::update, (monitor, new_avg), changed),
    ensures
        ({
            let (high_ms, low_ms) = old(monitor).thresholds();
            &&& !old(monitor).high() ==> final(monitor).high() == greater(new_avg, high_ms)
            &&& old(monitor).high() ==> final(monitor).high() == greater(new_avg, low_ms)
        }),
        changed <==> final(monitor).high() != old(monitor).high(),
        final(monitor).average_bits() == new_avg,
        final(monitor).thresholds() == old(monitor).thresholds(),
{
}

/// A new monitor has low load, no latency and the thresholds it was made with, and a monitor tells
/// its average and load as they are.
pub proof fn law_monitor_tells_its_state(
    high_ms: u64,
    low_ms: u64,
    fresh: LatencyMonitor,
    monitor: LatencyMonitor,
    average: u64,
    high: bool,
)
    requires
        call_ensures(LatencyMonitor::new, (high_ms, low_ms), fresh),
        call_ensures(LatencyMonitor::average, (&monitor,), average),
        call_ensures(LatencyMonitor::is_high_load, (&monitor,), high),
    ensures
        fresh.average_bits() == 0,
        !fresh.high(),
        fresh.thresholds() == (high_ms, low_ms),
        average == monitor.average_bits(),
        high == monitor.high(),
{
}

} // verus!
