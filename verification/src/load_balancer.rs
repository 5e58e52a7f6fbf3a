use vstd::prelude::*;

use crate::active_strategy::ActiveStrategy;
use crate::outbound::OutboundRequest;
use crate::outbound::build_outbound_request;
use crate::outbound::header_map;
use crate::outbound::header_names_unique;
use crate::strategy::LBStrategy;

verus! {

/// Owner of the active routing strategy.  The transport around the
/// balancer keeps the value behind one exclusive-or-shared lock; every
/// method here is a brief in-memory step, so no lock is ever held across
/// an outbound network call.
pub struct LoadBalancer {
    pub strategy: ActiveStrategy,
}

impl LoadBalancer {
    pub open spec fn wf(&self) -> bool {
        self.strategy.wf()
    }

    /// The worker list of the active strategy.
    pub open spec fn hosts(&self) -> Seq<Seq<char>> {
        self.strategy.hosts()
    }

    pub fn new(strategy: ActiveStrategy) -> (lb: Self)
        requires
            strategy.wf(),
        ensures
            lb.wf(),
            lb.strategy == strategy,
    {
        LoadBalancer { strategy }
    }

    /// The worker list of the active strategy, for introspection and for
    /// seeding a replacement strategy during a swap.
    pub fn get_worker_hosts(&self) -> (v: Vec<String>)
        requires
            self.wf(),
        ensures
            v@.map_values(|h: String| h@) == self.hosts(),
    {
        self.strategy.get_worker_hosts()
    }

    /// Replaces the active strategy.  In-flight requests may run their
    /// remaining lifecycle hooks against the new strategy; that race is
    /// benign and tolerated.
    pub fn set_strategy(&mut self, strategy: ActiveStrategy)
        requires
            strategy.wf(),
        ensures
            final(self).strategy == strategy,
            final(self).wf(),
    {
        self.strategy = strategy;
    }

    /// The forwarding steps up to the outbound call: selects a worker,
    /// builds the outbound request from the inbound method, path-and-query
    /// and headers, and runs the strategy's start hook.  The transport then
    /// performs the call, with no lock held, and afterwards hands the
    /// selected worker back to `complete_forward`.
    pub fn prepare_forward(
        &mut self,
        method: &str,
        path_and_query: &Option<String>,
        headers: &Vec<(String, String)>,
    ) -> (r: (String, OutboundRequest))
        requires
            old(self).wf(),
        ensures
            final(self).wf(),
            final(self).hosts() == old(self).hosts(),
            old(self).hosts().contains(r.0@),
            exists|mid: ActiveStrategy|
                #[trigger] old(self).strategy.select_ens(mid, r.0@)
                    && mid.start_ens(final(self).strategy, r.0@),
            path_and_query matches Some(pq) ==> r.1.uri@ == r.0@ + pq@,
            path_and_query is None ==> r.1.uri@ == r.0@,
            r.1.method@ == method@,
            header_names_unique(r.1.headers@),
            header_map(r.1.headers@) == header_map(headers@),
    {
        let worker = self.strategy.get_next_worker();
        let ghost mid = self.strategy;
        let outbound = build_outbound_request(worker.as_str(), method, path_and_query, headers);
        self.strategy.on_request_start(worker.as_str());
        proof {
            assert(old(self).strategy.select_ens(mid, worker@)
                && mid.start_ens(self.strategy, worker@));
        }
        (worker, outbound)
    }

    /// The forwarding step after the outbound call: runs the strategy's
    /// completion hook for the selected worker.  It runs on the failure
    /// path exactly as on the success path, so least-connections
    /// bookkeeping cannot leak.
    pub fn complete_forward(&mut self, worker: &str)
        requires
            old(self).wf(),
        ensures
            final(self).wf(),
            final(self).hosts() == old(self).hosts(),
            old(self).strategy.complete_ens(final(self).strategy, worker@),
    {
        self.strategy.on_request_complete(worker);
    }
}

} // verus!
