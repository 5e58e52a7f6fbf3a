use vstd::prelude::*;

use crate::first_worker::FirstWorkerStrategy;
use crate::least_connections::LeastConnectionsStrategy;
use crate::random::RandomStrategy;
use crate::round_robin::RoundRobinStrategy;
use crate::strategy::LBStrategy;

verus! {

/// The strategy slot of the load balancer: one of the four routing
/// policies, swappable at runtime.
pub enum ActiveStrategy {
    RoundRobin(RoundRobinStrategy),
    LeastConnections(LeastConnectionsStrategy),
    Random(RandomStrategy),
    FirstWorker(FirstWorkerStrategy),
}

impl ActiveStrategy {
    /// Whether the first-worker policy is the active one.
    pub open spec fn is_first_worker(&self) -> bool {
        matches!(self, ActiveStrategy::FirstWorker(_))
    }

    /// Whether the round-robin policy is the active one.
    pub open spec fn is_round_robin(&self) -> bool {
        matches!(self, ActiveStrategy::RoundRobin(_))
    }

    /// Whether the least-connections policy is the active one.
    pub open spec fn is_least_connections(&self) -> bool {
        matches!(self, ActiveStrategy::LeastConnections(_))
    }
}

impl LBStrategy for ActiveStrategy {
    open spec fn wf(&self) -> bool {
        match self {
            ActiveStrategy::RoundRobin(s) => s.wf(),
            ActiveStrategy::LeastConnections(s) => s.wf(),
            ActiveStrategy::Random(s) => s.wf(),
            ActiveStrategy::FirstWorker(s) => s.wf(),
        }
    }

    open spec fn hosts(&self) -> Seq<Seq<char>> {
        match self {
            ActiveStrategy::RoundRobin(s) => s.hosts(),
            ActiveStrategy::LeastConnections(s) => s.hosts(),
            ActiveStrategy::Random(s) => s.hosts(),
            ActiveStrategy::FirstWorker(s) => s.hosts(),
        }
    }

    /// A selection keeps the active variant and steps it exactly as that
    /// variant's own transition relation says.
    open spec fn select_ens(&self, post: Self, w: Seq<char>) -> bool {
        match (self, post) {
            (ActiveStrategy::RoundRobin(a), ActiveStrategy::RoundRobin(b)) => a.select_ens(b, w),
            (
                ActiveStrategy::LeastConnections(a),
                ActiveStrategy::LeastConnections(b),
            ) => a.select_ens(b, w),
            (ActiveStrategy::Random(a), ActiveStrategy::Random(b)) => a.select_ens(b, w),
            (ActiveStrategy::FirstWorker(a), ActiveStrategy::FirstWorker(b)) => a.select_ens(b, w),
            _ => false,
        }
    }

    /// The start hook keeps the active variant and steps it as that
    /// variant's start hook says.
    open spec fn start_ens(&self, post: Self, worker: Seq<char>) -> bool {
        match (self, post) {
            (ActiveStrategy::RoundRobin(a), ActiveStrategy::RoundRobin(b)) => a.start_ens(
                b,
                worker,
            ),
            (
                ActiveStrategy::LeastConnections(a),
                ActiveStrategy::LeastConnections(b),
            ) => a.start_ens(b, worker),
            (ActiveStrategy::Random(a), ActiveStrategy::Random(b)) => a.start_ens(b, worker),
            (ActiveStrategy::FirstWorker(a), ActiveStrategy::FirstWorker(b)) => a.start_ens(
                b,
                worker,
            ),
            _ => false,
        }
    }

    /// The completion hook keeps the active variant and steps it as that
    /// variant's completion hook says.
    open spec fn complete_ens(&self, post: Self, worker: Seq<char>) -> bool {
        match (self, post) {
            (ActiveStrategy::RoundRobin(a), ActiveStrategy::RoundRobin(b)) => a.complete_ens(
                b,
                worker,
            ),
            (
                ActiveStrategy::LeastConnections(a),
                ActiveStrategy::LeastConnections(b),
            ) => a.complete_ens(b, worker),
            (ActiveStrategy::Random(a), ActiveStrategy::Random(b)) => a.complete_ens(b, worker),
            (ActiveStrategy::FirstWorker(a), ActiveStrategy::FirstWorker(b)) => a.complete_ens(
                b,
                worker,
            ),
            _ => false,
        }
    }

    fn get_next_worker(&mut self) -> (w: String) {
        match self {
            ActiveStrategy::RoundRobin(s) => s.get_next_worker(),
            ActiveStrategy::LeastConnections(s) => s.get_next_worker(),
            ActiveStrategy::Random(s) => s.get_next_worker(),
            ActiveStrategy::FirstWorker(s) => s.get_next_worker(),
        }
    }

    fn on_request_start(&mut self, worker: &str) {
        match self {
            ActiveStrategy::RoundRobin(s) => s.on_request_start(worker),
            ActiveStrategy::LeastConnections(s) => s.on_request_start(worker),
            ActiveStrategy::Random(s) => s.on_request_start(worker),
            ActiveStrategy::FirstWorker(s) => s.on_request_start(worker),
        }
    }

    fn on_request_complete(&mut self, worker: &str) {
        match self {
            ActiveStrategy::RoundRobin(s) => s.on_request_complete(worker),
            ActiveStrategy::LeastConnections(s) => s.on_request_complete(worker),
            ActiveStrategy::Random(s) => s.on_request_complete(worker),
            ActiveStrategy::FirstWorker(s) => s.on_request_complete(worker),
        }
    }

    fn get_worker_hosts(&self) -> (v: Vec<String>) {
        match self {
            ActiveStrategy::RoundRobin(s) => s.get_worker_hosts(),
            ActiveStrategy::LeastConnections(s) => s.get_worker_hosts(),
            ActiveStrategy::Random(s) => s.get_worker_hosts(),
            ActiveStrategy::FirstWorker(s) => s.get_worker_hosts(),
        }
    }
}

} // verus!
