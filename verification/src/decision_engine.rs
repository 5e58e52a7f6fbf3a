use vstd::prelude::*;

use crate::active_strategy::ActiveStrategy;
use crate::first_worker::FirstWorkerStrategy;
use crate::load_balancer::LoadBalancer;
use crate::strategy::LBStrategy;

verus! {

/// Threshold above which the engine swaps the strategy.
pub const DEFAULT_DECISION_THRESHOLD: u64 = 5;

/// Interval between two ticks of the engine, in milliseconds.
pub const DEFAULT_TICK_INTERVAL_MS: u64 = 10000;

/// The adaptive control rule.  A background task wakes on a timer, reads
/// the metrics snapshot, and hands the total request count to `evaluate`;
/// the engine itself keeps no state across ticks beyond its configuration.
pub struct DecisionEngine {
    pub threshold: u64,
    pub tick_interval_ms: Option<u64>,
}

impl DecisionEngine {
    /// A `None` interval disables recurring ticks, for deterministic
    /// driving from the outside.
    pub fn new(threshold: u64, tick_interval_ms: Option<u64>) -> (e: Self)
        ensures
            e.threshold == threshold,
            e.tick_interval_ms == tick_interval_ms,
    {
        DecisionEngine { threshold, tick_interval_ms }
    }

    /// One tick of the control loop: when the observed total request count
    /// exceeds the threshold, a fresh first-worker strategy seeded with the
    /// balancer's current worker list is installed — the worker list itself
    /// never changes; below the threshold nothing is touched.  Crossing the
    /// threshold again on a later tick reinstalls an equivalent strategy,
    /// which is wasteful but harmless.
    pub fn evaluate(&self, total_requests: u64, lb: &mut LoadBalancer)
        requires
            old(lb).wf(),
        ensures
            final(lb).wf(),
            final(lb).hosts() == old(lb).hosts(),
            total_requests > self.threshold ==> final(lb).strategy.is_first_worker(),
            total_requests <= self.threshold ==> *final(lb) == *old(lb),
    {
        if total_requests > self.threshold {
            let hosts = lb.get_worker_hosts();
            proof {
                assert(hosts@.map_values(|h: String| h@).len() == hosts@.len());
            }
            let replacement = FirstWorkerStrategy::new(hosts);
            lb.set_strategy(ActiveStrategy::FirstWorker(replacement));
        }
    }
}

} // verus!
