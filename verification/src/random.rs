use vstd::prelude::*;

use crate::strategy::LBStrategy;
use crate::util::clone_string_vec;

verus! {

/// Relies on rand::random: draws a value from the thread-local generator.
/// Nothing can be promised of a random value, so no clause is stated.
pub assume_specification<T>[ rand::random::<T> ]() -> (r: T)
    where
        rand::distributions::Standard: rand::distributions::Distribution<T>,
;

/// Strategy that picks a worker uniformly at random on every selection and
/// keeps no per-request state.
pub struct RandomStrategy {
    pub worker_hosts: Vec<String>,
}

impl RandomStrategy {
    pub fn new(worker_hosts: Vec<String>) -> (s: Self)
        requires
            worker_hosts@.len() > 0,
        ensures
            s.wf(),
            s.hosts() == worker_hosts@.map_values(|h: String| h@),
    {
        RandomStrategy { worker_hosts }
    }
}

impl LBStrategy for RandomStrategy {
    open spec fn wf(&self) -> bool {
        self.hosts().len() > 0
    }

    open spec fn hosts(&self) -> Seq<Seq<char>> {
        self.worker_hosts@.map_values(|h: String| h@)
    }

    /// A selection leaves the state alone; which worker comes back is up to
    /// the random draw, so only membership is stated.
    open spec fn select_ens(&self, post: Self, w: Seq<char>) -> bool {
        &&& post.worker_hosts@ == self.worker_hosts@
        &&& self.hosts().contains(w)
    }

    /// The start hook is a no-op.
    open spec fn start_ens(&self, post: Self, worker: Seq<char>) -> bool {
        post.worker_hosts@ == self.worker_hosts@
    }

    /// The completion hook is a no-op.
    open spec fn complete_ens(&self, post: Self, worker: Seq<char>) -> bool {
        post.worker_hosts@ == self.worker_hosts@
    }

    fn get_next_worker(&mut self) -> (w: String) {
        let r = rand::random::<usize>();
        let n = self.worker_hosts.len();
        let index = r % n;
        let w = self.worker_hosts[index].clone();
        proof {
            assert(self.hosts()[index as int] == w@);
        }
        w
    }

    fn on_request_start(&mut self, worker: &str) {
    }

    fn on_request_complete(&mut self, worker: &str) {
    }

    fn get_worker_hosts(&self) -> (v: Vec<String>) {
        clone_string_vec(&self.worker_hosts)
    }
}

} // verus!
