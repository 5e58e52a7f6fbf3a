use vstd::prelude::*;

use crate::strategy::LBStrategy;
use crate::util::clone_string_vec;

verus! {

/// Rotating strategy: workers are chosen in construction order, one after
/// the other, the cursor wrapping around at the end of the list.
pub struct RoundRobinStrategy {
    pub worker_hosts: Vec<String>,
    pub current_worker: usize,
}

impl RoundRobinStrategy {
    pub fn new(worker_hosts: Vec<String>) -> (s: Self)
        requires
            worker_hosts@.len() > 0,
        ensures
            s.wf(),
            s.hosts() == worker_hosts@.map_values(|h: String| h@),
            s.current_worker == 0,
    {
        RoundRobinStrategy { worker_hosts, current_worker: 0 }
    }
}

impl LBStrategy for RoundRobinStrategy {
    /// The worker list is non-empty and the cursor points into it.
    open spec fn wf(&self) -> bool {
        &&& self.hosts().len() > 0
        &&& self.current_worker < self.hosts().len()
    }

    open spec fn hosts(&self) -> Seq<Seq<char>> {
        self.worker_hosts@.map_values(|h: String| h@)
    }

    /// A selection returns the worker under the cursor and advances the
    /// cursor by one, modulo the number of workers.
    open spec fn select_ens(&self, post: Self, w: Seq<char>) -> bool {
        &&& post.worker_hosts@ == self.worker_hosts@
        &&& w == self.hosts()[self.current_worker as int]
        &&& post.current_worker == (self.current_worker + 1) as int % (self.hosts().len() as int)
    }

    /// The start hook is a no-op.
    open spec fn start_ens(&self, post: Self, worker: Seq<char>) -> bool {
        &&& post.worker_hosts@ == self.worker_hosts@
        &&& post.current_worker == self.current_worker
    }

    /// The completion hook is a no-op.
    open spec fn complete_ens(&self, post: Self, worker: Seq<char>) -> bool {
        &&& post.worker_hosts@ == self.worker_hosts@
        &&& post.current_worker == self.current_worker
    }

    fn get_next_worker(&mut self) -> (w: String) {
        let worker = self.worker_hosts[self.current_worker].clone();
        proof {
            assert(self.hosts()[self.current_worker as int] == worker@);
        }
        let n = self.worker_hosts.len();
        self.current_worker = (self.current_worker + 1) % n;
        worker
    }

    fn on_request_start(&mut self, worker: &str) {
    }

    fn on_request_complete(&mut self, worker: &str) {
    }

    fn get_worker_hosts(&self) -> (v: Vec<String>) {
        clone_string_vec(&self.worker_hosts)
    }
}

/// Advancing by one commutes with the modulus.
proof fn lemma_mod_succ(a: int, n: int)
    requires
        n > 0,
        a >= 0,
    ensures
        (a % n + 1) % n == (a + 1) % n,
{
    let q = a / n;
    assert(a == q * n + a % n) by {
        vstd::arithmetic::div_mod::lemma_fundamental_div_mod(a, n);
    }
    assert((a % n + 1) + q * n == a + 1);
    vstd::arithmetic::div_mod::lemma_mod_multiples_vanish(q, a % n + 1, n);
}

/// One step of a round-robin history: either a selection, with the worker
/// it returned, or a lifecycle hook, which leaves the state alone (the
/// start and completion hooks are both no-ops).
pub struct RotationEvent {
    pub is_selection: bool,
    pub selected: Seq<char>,
}

/// Number of selections in a history.
pub open spec fn selections_in(events: Seq<RotationEvent>) -> nat
    decreases events.len(),
{
    if events.len() == 0 {
        0
    } else {
        selections_in(events.drop_last()) + if events.last().is_selection {
            1nat
        } else {
            0nat
        }
    }
}

/// Whether consecutive states are related by the step each event names.
pub open spec fn rotation_chain(states: Seq<RoundRobinStrategy>, events: Seq<RotationEvent>) -> bool {
    &&& states.len() == events.len() + 1
    &&& forall|i: int|
        0 <= i < events.len() ==> if (#[trigger] events[i]).is_selection {
            states[i].select_ens(states[i + 1], events[i].selected)
        } else {
            states[i].start_ens(states[i + 1], events[i].selected)
        }
}

/// Round-robin rotation law: in any history of selections interleaved with
/// lifecycle hooks, the cursor advances once per selection, modulo the
/// number of workers, and the selection made after `i` earlier selections
/// returns the worker at index `(initial cursor + i) % N` — for a fresh
/// strategy, whose cursor starts at zero, the worker at `i % N`, whatever
/// hooks run in between.
pub proof fn lemma_round_robin_rotation(
    states: Seq<RoundRobinStrategy>,
    events: Seq<RotationEvent>,
)
    requires
        states.first().wf(),
        rotation_chain(states, events),
    ensures
        states.last().hosts() == states.first().hosts(),
        states.last().current_worker == (states.first().current_worker + selections_in(events))
            % (states.first().hosts().len() as int),
        forall|i: int|
            0 <= i < events.len() && (#[trigger] events[i]).is_selection
                ==> events[i].selected == states.first().hosts()[(states.first().current_worker
                + selections_in(events.take(i))) % (states.first().hosts().len() as int)],
    decreases events.len(),
{
    let first = states.first();
    let n = first.hosts().len() as int;
    if events.len() == 0 {
        assert(states.last() == first);
        assert(first.current_worker as int % n == first.current_worker as int) by {
            vstd::arithmetic::div_mod::lemma_small_mod(first.current_worker as nat, n as nat);
        }
    } else {
        let k = events.len() - 1;
        let st = states.drop_last();
        let et = events.drop_last();
        assert(forall|i: int| 0 <= i < st.len() ==> st[i] == states[i]);
        assert(forall|i: int| 0 <= i < et.len() ==> et[i] == events[i]);
        assert(rotation_chain(st, et));
        lemma_round_robin_rotation(st, et);
        assert(st.first() == first);
        assert(st.last() == states[k as int]);
        let c = first.current_worker + selections_in(et);
        if events[k as int].is_selection {
            assert(states[k as int].select_ens(states[k as int + 1], events[k as int].selected));
            assert(events.take(k as int) =~= et);
            assert(states.last().current_worker == (c % n + 1) % n);
            lemma_mod_succ(c, n);
        } else {
            assert(states[k as int].start_ens(states[k as int + 1], events[k as int].selected));
        }
        assert forall|i: int|
            0 <= i < events.len() && (#[trigger] events[i]).is_selection
                implies events[i].selected == first.hosts()[(first.current_worker
                + selections_in(events.take(i))) % n] by {
            if i < k {
                assert(events.take(i) =~= et.take(i));
            } else {
                assert(events.take(i) =~= et);
            }
        }
    }
}

} // verus!
