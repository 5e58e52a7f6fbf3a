use vstd::prelude::*;

use crate::active_strategy::ActiveStrategy;
use crate::least_connections::LeastConnectionsStrategy;
use crate::load_balancer::LoadBalancer;
use crate::round_robin::RoundRobinStrategy;
use crate::strategy::LBStrategy;

verus! {

/// Rejection of a control-surface command.
#[derive(Debug, PartialEq, Eq, Structural)]
pub enum ControlError {
    /// The request body named no known strategy.
    UnknownStrategy,
}

/// The administrative swap: a body reading exactly `round_robin` or
/// `least_connections` (case-sensitive) installs a fresh strategy of that
/// kind seeded with the balancer's current worker list; any other body is
/// rejected and nothing is mutated.
pub fn apply_strategy_command(lb: &mut LoadBalancer, name: &str) -> (r: Result<(), ControlError>)
    requires
        old(lb).wf(),
    ensures
        final(lb).wf(),
        final(lb).hosts() == old(lb).hosts(),
        name@ == "round_robin"@ ==> r is Ok && (final(lb).strategy matches
        ActiveStrategy::RoundRobin(s) && s.hosts() == old(lb).hosts() && s.current_worker == 0),
        name@ == "least_connections"@ ==> r is Ok && (final(lb).strategy matches
        ActiveStrategy::LeastConnections(s) && s.hosts() == old(lb).hosts() && forall|w: Seq<char>|
            s.count_of(w) == 0),
        name@ != "round_robin"@ && name@ != "least_connections"@ ==> r == Result::<(),
        ControlError>::Err(ControlError::UnknownStrategy) && *final(lb) == *old(lb),
{
    proof {
        reveal_strlit("round_robin");
        reveal_strlit("least_connections");
        assert("round_robin"@.len() == 11);
        assert("least_connections"@.len() == 17);
        assert("round_robin"@ != "least_connections"@);
    }
    let requested = name.to_owned();
    if requested == "round_robin".to_owned() {
        let hosts = lb.get_worker_hosts();
        proof {
            assert(hosts@.map_values(|h: String| h@).len() == hosts@.len());
        }
        let replacement = RoundRobinStrategy::new(hosts);
        lb.set_strategy(ActiveStrategy::RoundRobin(replacement));
        Result::Ok(())
    } else if requested == "least_connections".to_owned() {
        let hosts = lb.get_worker_hosts();
        proof {
            assert(hosts@.map_values(|h: String| h@).len() == hosts@.len());
        }
        let replacement = LeastConnectionsStrategy::new(hosts);
        lb.set_strategy(ActiveStrategy::LeastConnections(replacement));
        Result::Ok(())
    } else {
        Result::Err(ControlError::UnknownStrategy)
    }
}

/// The control endpoint's decision, transport aside: a recognized body
/// yields a `200` confirmation after the swap, an unrecognized one a
/// `400` and no mutation.
pub fn handle_strategy_request(lb: &mut LoadBalancer, body: &str) -> (r: (u16, String))
    requires
        old(lb).wf(),
    ensures
        final(lb).wf(),
        final(lb).hosts() == old(lb).hosts(),
        body@ == "round_robin"@ || body@ == "least_connections"@ ==> r.0 == 200,
        body@ != "round_robin"@ && body@ != "least_connections"@ ==> r.0 == 400 && *final(lb)
            == *old(lb),
        body@ == "round_robin"@ ==> final(lb).strategy.is_round_robin(),
        body@ == "least_connections"@ ==> final(lb).strategy.is_least_connections(),
{
    match apply_strategy_command(lb, body) {
        Result::Ok(()) => (200, "strategy updated".to_owned()),
        Result::Err(ControlError::UnknownStrategy) => (400, "unknown strategy".to_owned()),
    }
}

} // verus!
