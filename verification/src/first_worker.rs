use vstd::prelude::*;

use crate::strategy::LBStrategy;
use crate::util::clone_string_vec;

verus! {

/// Degenerate strategy: every selection returns the first worker of the
/// list.  The decision engine installs it once traffic crosses its
/// threshold.
pub struct FirstWorkerStrategy {
    pub worker_hosts: Vec<String>,
}

impl FirstWorkerStrategy {
    pub fn new(worker_hosts: Vec<String>) -> (s: Self)
        requires
            worker_hosts@.len() > 0,
        ensures
            s.wf(),
            s.hosts() == worker_hosts@.map_values(|h: String| h@),
    {
        FirstWorkerStrategy { worker_hosts }
    }
}

impl LBStrategy for FirstWorkerStrategy {
    open spec fn wf(&self) -> bool {
        self.hosts().len() > 0
    }

    open spec fn hosts(&self) -> Seq<Seq<char>> {
        self.worker_hosts@.map_values(|h: String| h@)
    }

    /// A selection leaves the state alone and returns the first worker.
    open spec fn select_ens(&self, post: Self, w: Seq<char>) -> bool {
        &&& post.worker_hosts@ == self.worker_hosts@
        &&& w == self.hosts()[0]
    }

    /// The start hook is a no-op.
    open spec fn start_ens(&self, post: Self, worker: Seq<char>) -> bool {
        post.worker_hosts@ == self.worker_hosts@
    }

    /// The completion hook is a no-op.
    open spec fn complete_ens(&self, post: Self, worker: Seq<char>) -> bool {
        post.worker_hosts@ == self.worker_hosts@
    }

    fn get_next_worker(&mut self) -> (w: String) {
        let w = self.worker_hosts[0].clone();
        proof {
            assert(self.hosts()[0] == w@);
        }
        w
    }

    fn on_request_start(&mut self, worker: &str) {
    }

    fn on_request_complete(&mut self, worker: &str) {
    }

    fn get_worker_hosts(&self) -> (v: Vec<String>) {
        clone_string_vec(&self.worker_hosts)
    }
}

} // verus!
