use vstd::prelude::*;

use crate::strategy::LBStrategy;
use crate::util::clone_string_vec;

verus! {

/// Number of active connections that `entries` records for worker `w`;
/// a worker without an entry has zero.
pub open spec fn assoc_count(entries: Seq<(String, usize)>, w: Seq<char>) -> nat
    decreases entries.len(),
{
    if entries.len() == 0 {
        0
    } else if entries[0].0@ == w {
        entries[0].1 as nat
    } else {
        assoc_count(entries.drop_first(), w)
    }
}

/// Whether `entries` holds an entry for worker `w`.
pub open spec fn assoc_has_key(entries: Seq<(String, usize)>, w: Seq<char>) -> bool {
    exists|j: int| 0 <= j < entries.len() && entries[j].0@ == w
}

/// No two entries share a worker.
pub open spec fn assoc_keys_unique(entries: Seq<(String, usize)>) -> bool {
    forall|j: int, k: int| 0 <= j < k < entries.len() ==> entries[j].0@ != entries[k].0@
}

/// Index of the first occurrence of the minimum of a non-empty sequence.
pub open spec fn first_min_index(s: Seq<int>) -> int
    recommends
        s.len() > 0,
    decreases s.len(),
{
    if s.len() <= 1 {
        0
    } else {
        let r = first_min_index(s.drop_first());
        if s[0] <= s[r + 1] {
            0
        } else {
            r + 1
        }
    }
}

/// Least-connections tie-break law: `first_min_index` points into the
/// sequence, no element is smaller than the one it picks, and every element
/// before the picked one is strictly larger.  Hence a selection never
/// returns a worker while another worker has strictly fewer outstanding
/// connections, and among tied workers the first-constructed one wins.
pub proof fn lemma_first_min_index(s: Seq<int>)
    requires
        s.len() > 0,
    ensures
        0 <= first_min_index(s) < s.len(),
        forall|j: int| 0 <= j < s.len() ==> s[first_min_index(s)] <= #[trigger] s[j],
        forall|j: int| 0 <= j < first_min_index(s) ==> #[trigger] s[j] > s[first_min_index(s)],
    decreases s.len(),
{
    if s.len() > 1 {
        let t = s.drop_first();
        lemma_first_min_index(t);
        let r = first_min_index(t);
        assert(forall|j: int| 0 <= j < t.len() ==> t[j] == s[j + 1]);
        if s[0] <= s[r + 1] {
            assert forall|j: int| 0 <= j < s.len() implies s[first_min_index(s)] <= #[trigger] s[j] by {
                if j > 0 {
                    assert(t[r] <= t[j - 1]);
                }
            }
        } else {
            assert forall|j: int| 0 <= j < s.len() implies s[first_min_index(s)] <= #[trigger] s[j] by {
                if j > 0 {
                    assert(t[r] <= t[j - 1]);
                }
            }
            assert forall|j: int| 0 <= j < first_min_index(s) implies #[trigger] s[j] > s[first_min_index(s)] by {
                if j > 0 {
                    assert(t[j - 1] > t[r]);
                }
            }
        }
    }
}

/// With every worker tied, the first-constructed worker is chosen.
pub proof fn lemma_first_min_index_all_tied(s: Seq<int>)
    requires
        s.len() > 0,
        forall|j: int| 0 <= j < s.len() ==> #[trigger] s[j] == s[0],
    ensures
        first_min_index(s) == 0,
{
    lemma_first_min_index(s);
    let m = first_min_index(s);
    if m > 0 {
        assert(s[0] > s[m]);
        assert(s[m] == s[0]);
        assert(false);
    }
}

/// A worker without an entry has count zero.
proof fn lemma_assoc_count_absent(entries: Seq<(String, usize)>, w: Seq<char>)
    requires
        forall|j: int| 0 <= j < entries.len() ==> entries[j].0@ != w,
    ensures
        assoc_count(entries, w) == 0,
    decreases entries.len(),
{
    if entries.len() > 0 {
        let t = entries.drop_first();
        assert(forall|j: int| 0 <= j < t.len() ==> t[j] == entries[j + 1]);
        lemma_assoc_count_absent(t, w);
    }
}

/// Skipping a prefix without an entry for `w` does not change the count.
proof fn lemma_assoc_count_skip(entries: Seq<(String, usize)>, w: Seq<char>, i: int)
    requires
        0 <= i <= entries.len(),
        forall|j: int| 0 <= j < i ==> entries[j].0@ != w,
    ensures
        assoc_count(entries, w) == assoc_count(entries.skip(i), w),
    decreases i,
{
    if i == 0 {
        assert(entries.skip(0) =~= entries);
    } else {
        let t = entries.drop_first();
        assert(forall|j: int| 0 <= j < t.len() ==> t[j] == entries[j + 1]);
        lemma_assoc_count_skip(t, w, i - 1);
        assert(t.skip(i - 1) =~= entries.skip(i));
    }
}

/// Replacing the count in entry `i` changes only that worker's count.
proof fn lemma_assoc_count_update(entries: Seq<(String, usize)>, i: int, v: usize, w: Seq<char>)
    requires
        0 <= i < entries.len(),
        forall|j: int| 0 <= j < i ==> entries[j].0@ != entries[i].0@,
    ensures
        assoc_count(entries.update(i, (entries[i].0, v)), w) == if w == entries[i].0@ {
            v as nat
        } else {
            assoc_count(entries, w)
        },
    decreases i,
{
    let u = entries.update(i, (entries[i].0, v));
    if i == 0 {
        if w != entries[0].0@ {
            assert(u.drop_first() =~= entries.drop_first());
        }
    } else {
        assert(u[0] == entries[0]);
        if entries[0].0@ != w {
            let t = entries.drop_first();
            assert(forall|j: int| 0 <= j < t.len() ==> t[j] == entries[j + 1]);
            assert(u.drop_first() =~= t.update(i - 1, (t[i - 1].0, v)));
            lemma_assoc_count_update(t, i - 1, v, w);
        }
    }
}

/// Appending an entry for a new worker leaves every present worker's count
/// alone and gives the new worker the appended count.
proof fn lemma_assoc_count_push(entries: Seq<(String, usize)>, p: (String, usize), w: Seq<char>)
    ensures
        assoc_count(entries.push(p), w) == if assoc_has_key(entries, w) {
            assoc_count(entries, w)
        } else if p.0@ == w {
            p.1 as nat
        } else {
            0
        },
    decreases entries.len(),
{
    if entries.len() == 0 {
        let u = entries.push(p);
        assert(u[0] == p);
        assert(u.drop_first() =~= Seq::<(String, usize)>::empty());
        assert(assoc_count(Seq::<(String, usize)>::empty(), w) == 0);
        if p.0@ == w {
            assert(assoc_count(u, w) == p.1 as nat);
        } else {
            assert(assoc_count(u, w) == assoc_count(u.drop_first(), w));
        }
        assert(!assoc_has_key(entries, w));
    } else {
        assert(entries.push(p)[0] == entries[0]);
        if entries[0].0@ == w {
            assert(assoc_has_key(entries, w));
        } else {
            let t = entries.drop_first();
            assert(forall|j: int| 0 <= j < t.len() ==> t[j] == entries[j + 1]);
            assert(entries.push(p).drop_first() =~= t.push(p));
            lemma_assoc_count_push(t, p, w);
            if assoc_has_key(t, w) {
                let j = choose|j: int| 0 <= j < t.len() && t[j].0@ == w;
                assert(entries[j + 1].0@ == w);
                assert(assoc_has_key(entries, w));
            }
            if assoc_has_key(entries, w) {
                let j = choose|j: int| 0 <= j < entries.len() && entries[j].0@ == w;
                assert(j > 0);
                assert(t[j - 1].0@ == w);
                assert(assoc_has_key(t, w));
            }
        }
    }
}

/// Removing entry `i` zeroes that worker's count and leaves the others.
proof fn lemma_assoc_count_remove(entries: Seq<(String, usize)>, i: int, w: Seq<char>)
    requires
        0 <= i < entries.len(),
        assoc_keys_unique(entries),
    ensures
        assoc_count(entries.remove(i), w) == if w == entries[i].0@ {
            0
        } else {
            assoc_count(entries, w)
        },
    decreases entries.len(),
{
    entries.remove_ensures(i);
    if i == 0 {
        assert(entries.remove(0) =~= entries.drop_first());
        if w == entries[0].0@ {
            assert(forall|j: int|
                0 <= j < entries.drop_first().len() ==> entries.drop_first()[j] == entries[j + 1]);
            lemma_assoc_count_absent(entries.drop_first(), w);
        }
    } else {
        assert(entries.remove(i)[0] == entries[0]);
        let t = entries.drop_first();
        assert(forall|j: int| 0 <= j < t.len() ==> t[j] == entries[j + 1]);
        if entries[0].0@ == w {
            assert(w != entries[i].0@);
        } else {
            assert(entries.remove(i).drop_first() =~= t.remove(i - 1));
            lemma_assoc_count_remove(t, i - 1, w);
        }
    }
}

/// Strategy that tracks, per worker, how many forwarded requests have
/// started but not yet completed, and always selects a worker with the
/// fewest outstanding connections, ties broken by construction order.
pub struct LeastConnectionsStrategy {
    pub worker_hosts: Vec<String>,
    pub active_connections: Vec<(String, usize)>,
}

impl LeastConnectionsStrategy {
    /// Connection count recorded for worker `w`.
    pub open spec fn count_of(&self, w: Seq<char>) -> nat {
        assoc_count(self.active_connections@, w)
    }

    /// The outstanding-connection count of each worker, in worker order.
    pub open spec fn counts_list(&self) -> Seq<int> {
        Seq::new(self.hosts().len(), |k: int| self.count_of(self.hosts()[k]) as int)
    }

    pub fn new(worker_hosts: Vec<String>) -> (s: Self)
        requires
            worker_hosts@.len() > 0,
        ensures
            s.wf(),
            s.hosts() == worker_hosts@.map_values(|h: String| h@),
            forall|w: Seq<char>| s.count_of(w) == 0,
    {
        LeastConnectionsStrategy { worker_hosts, active_connections: Vec::new() }
    }

    /// The number of active connections recorded for `worker`; zero when the
    /// worker has no entry.
    pub fn get_connections_count(&self, worker: &str) -> (c: usize)
        ensures
            c as nat == self.count_of(worker@),
    {
        let w = worker.to_owned();
        let n = self.active_connections.len();
        let mut i: usize = 0;
        while i < n
            invariant
                n == self.active_connections@.len(),
                i <= n,
                w@ == worker@,
                forall|j: int| 0 <= j < i ==> self.active_connections@[j].0@ != worker@,
            decreases n - i,
        {
            if self.active_connections[i].0 == w {
                proof {
                    lemma_assoc_count_skip(self.active_connections@, worker@, i as int);
                    assert(self.active_connections@.skip(i as int)[0]
                        == self.active_connections@[i as int]);
                }
                return self.active_connections[i].1;
            }
            i = i + 1;
        }
        proof {
            lemma_assoc_count_absent(self.active_connections@, worker@);
        }
        0
    }

    /// Records one more active connection for `worker`, creating its entry
    /// when the worker has none yet.
    #[verifier::loop_isolation(false)]
    pub fn add_active_connection(&mut self, worker: &str)
        requires
            old(self).wf(),
            old(self).count_of(worker@) < usize::MAX,
        ensures
            final(self).wf(),
            final(self).worker_hosts@ == old(self).worker_hosts@,
            final(self).count_of(worker@) == old(self).count_of(worker@) + 1,
            forall|w: Seq<char>| w != worker@ ==> final(self).count_of(w) == old(self).count_of(w),
    {
        let ghost entries = self.active_connections@;
        let w = worker.to_owned();
        let n = self.active_connections.len();
        let mut i: usize = 0;
        while i < n
            invariant
                self.worker_hosts@ == old(self).worker_hosts@,
                self.active_connections@ == entries,
                i <= n,
                forall|j: int| 0 <= j < i ==> self.active_connections@[j].0@ != worker@,
            decreases n - i,
        {
            if self.active_connections[i].0 == w {
                proof {
                    lemma_assoc_count_skip(entries, worker@, i as int);
                    assert(entries.skip(i as int)[0] == entries[i as int]);
                    assert(assoc_count(entries, worker@) == entries[i as int].1 as nat);
                }
                let c = self.active_connections[i].1;
                let key = self.active_connections[i].0.clone();
                self.active_connections.set(i, (key, c + 1));
                proof {
                    let u = entries.update(i as int, (entries[i as int].0, (c + 1) as usize));
                    assert(self.active_connections@ =~= u);
                    assert forall|w2: Seq<char>|
                        assoc_count(self.active_connections@, w2) == if w2 == entries[i as int].0@ {
                            ((c + 1) as usize) as nat
                        } else {
                            assoc_count(entries, w2)
                        } by {
                        lemma_assoc_count_update(entries, i as int, (c + 1) as usize, w2);
                    }
                    assert forall|j: int, k: int|
                        0 <= j < k < u.len() implies u[j].0@ != u[k].0@ by {
                        assert(u[j].0 == entries[j].0);
                        assert(u[k].0 == entries[k].0);
                    }
                    assert forall|j: int| 0 <= j < u.len() implies u[j].1 >= 1 by {
                        if j != i as int {
                            assert(u[j] == entries[j]);
                        }
                    }
                }
                return ;
            }
            i = i + 1;
        }
        proof {
            lemma_assoc_count_absent(entries, worker@);
        }
        self.active_connections.push((w, 1));
        proof {
            let u = entries.push((w, 1usize));
            assert(self.active_connections@ == u);
            assert forall|w2: Seq<char>|
                assoc_count(self.active_connections@, w2) == if w2 == worker@ {
                    1nat
                } else {
                    assoc_count(entries, w2)
                } by {
                lemma_assoc_count_push(entries, (w, 1usize), w2);
                if assoc_has_key(entries, worker@) {
                    let j = choose|j: int| 0 <= j < entries.len() && entries[j].0@ == worker@;
                    assert(false);
                }
                if w2 != worker@ && !assoc_has_key(entries, w2) {
                    lemma_assoc_count_absent(entries, w2);
                }
            }
            assert forall|j: int, k: int| 0 <= j < k < u.len() implies u[j].0@ != u[k].0@ by {
                if k < entries.len() {
                    assert(u[j] == entries[j]);
                    assert(u[k] == entries[k]);
                } else {
                    assert(u[j] == entries[j]);
                    assert(u[k].0@ == worker@);
                }
            }
            assert forall|j: int| 0 <= j < u.len() implies u[j].1 >= 1 by {
                if j < entries.len() {
                    assert(u[j] == entries[j]);
                }
            }
        }
    }

    /// Forgets one active connection for `worker`: its count drops by one
    /// and the entry disappears when it reaches zero.  A worker without an
    /// entry is left alone.
    #[verifier::loop_isolation(false)]
    pub fn remove_active_connection(&mut self, worker: &str)
        requires
            old(self).wf(),
        ensures
            final(self).wf(),
            final(self).worker_hosts@ == old(self).worker_hosts@,
            final(self).count_of(worker@) == if old(self).count_of(worker@) > 0 {
                (old(self).count_of(worker@) - 1) as nat
            } else {
                0
            },
            forall|w: Seq<char>| w != worker@ ==> final(self).count_of(w) == old(self).count_of(w),
    {
        let ghost entries = self.active_connections@;
        let w = worker.to_owned();
        let n = self.active_connections.len();
        let mut i: usize = 0;
        while i < n
            invariant
                self.worker_hosts@ == old(self).worker_hosts@,
                self.active_connections@ == entries,
                i <= n,
                forall|j: int| 0 <= j < i ==> self.active_connections@[j].0@ != worker@,
            decreases n - i,
        {
            if self.active_connections[i].0 == w {
                proof {
                    lemma_assoc_count_skip(entries, worker@, i as int);
                    assert(entries.skip(i as int)[0] == entries[i as int]);
                    assert(assoc_count(entries, worker@) == entries[i as int].1 as nat);
                }
                let c = self.active_connections[i].1;
                if c <= 1 {
                    self.active_connections.remove(i);
                    proof {
                        let u = entries.remove(i as int);
                        assert(self.active_connections@ == u);
                        entries.remove_ensures(i as int);
                        assert forall|w2: Seq<char>|
                            assoc_count(self.active_connections@, w2) == if w2 == worker@ {
                                0nat
                            } else {
                                assoc_count(entries, w2)
                            } by {
                            lemma_assoc_count_remove(entries, i as int, w2);
                        }
                        assert forall|j: int, k: int|
                            0 <= j < k < u.len() implies u[j].0@ != u[k].0@ by {
                            if j < i as int {
                                assert(u[j] == entries[j]);
                            } else {
                                assert(u[j] == entries[j + 1]);
                            }
                            if k < i as int {
                                assert(u[k] == entries[k]);
                            } else {
                                assert(u[k] == entries[k + 1]);
                            }
                        }
                        assert forall|j: int| 0 <= j < u.len() implies u[j].1 >= 1 by {
                            if j < i as int {
                                assert(u[j] == entries[j]);
                            } else {
                                assert(u[j] == entries[j + 1]);
                            }
                        }
                    }
                } else {
                    let key = self.active_connections[i].0.clone();
                    self.active_connections.set(i, (key, c - 1));
                    proof {
                        let u = entries.update(i as int, (entries[i as int].0, (c - 1) as usize));
                        assert(self.active_connections@ =~= u);
                        assert forall|w2: Seq<char>|
                            assoc_count(self.active_connections@, w2) == if w2 == worker@ {
                                ((c - 1) as usize) as nat
                            } else {
                                assoc_count(entries, w2)
                            } by {
                            lemma_assoc_count_update(entries, i as int, (c - 1) as usize, w2);
                        }
                        assert forall|j: int, k: int|
                            0 <= j < k < u.len() implies u[j].0@ != u[k].0@ by {
                            assert(u[j].0 == entries[j].0);
                            assert(u[k].0 == entries[k].0);
                        }
                        assert forall|j: int| 0 <= j < u.len() implies u[j].1 >= 1 by {
                            if j != i as int {
                                assert(u[j] == entries[j]);
                            }
                        }
                    }
                }
                return ;
            }
            i = i + 1;
        }
        proof {
            lemma_assoc_count_absent(entries, worker@);
        }
    }
}

impl LBStrategy for LeastConnectionsStrategy {
    /// The worker list is non-empty, no two connection entries name the
    /// same worker, and every entry holds at least one connection.
    open spec fn wf(&self) -> bool {
        &&& self.hosts().len() > 0
        &&& assoc_keys_unique(self.active_connections@)
        &&& forall|j: int|
            0 <= j < self.active_connections@.len() ==> self.active_connections@[j].1 >= 1
    }

    open spec fn hosts(&self) -> Seq<Seq<char>> {
        self.worker_hosts@.map_values(|h: String| h@)
    }

    /// A selection leaves the bookkeeping alone and returns the first
    /// worker with the fewest outstanding connections.
    open spec fn select_ens(&self, post: Self, w: Seq<char>) -> bool {
        &&& post.worker_hosts@ == self.worker_hosts@
        &&& post.active_connections@ == self.active_connections@
        &&& w == self.hosts()[first_min_index(self.counts_list())]
    }

    /// The start hook adds one active connection for the worker (the count
    /// saturates at the machine limit).
    open spec fn start_ens(&self, post: Self, worker: Seq<char>) -> bool {
        &&& post.worker_hosts@ == self.worker_hosts@
        &&& post.count_of(worker) == if self.count_of(worker) < usize::MAX {
            self.count_of(worker) + 1
        } else {
            self.count_of(worker)
        }
        &&& forall|w: Seq<char>| w != worker ==> post.count_of(w) == self.count_of(w)
    }

    /// The completion hook removes one active connection for the worker,
    /// never dropping below zero.
    open spec fn complete_ens(&self, post: Self, worker: Seq<char>) -> bool {
        &&& post.worker_hosts@ == self.worker_hosts@
        &&& post.count_of(worker) == if self.count_of(worker) > 0 {
            (self.count_of(worker) - 1) as nat
        } else {
            0
        }
        &&& forall|w: Seq<char>| w != worker ==> post.count_of(w) == self.count_of(w)
    }

    #[verifier::loop_isolation(false)]
    fn get_next_worker(&mut self) -> (w: String) {
        let ghost counts = self.counts_list();
        let n = self.worker_hosts.len();
        let mut min_connections: usize = usize::MAX;
        let mut selected: usize = 0;
        let mut i: usize = 0;
        while i < n
            invariant
                old(self) == self,
                n == self.worker_hosts@.len(),
                counts == self.counts_list(),
                i <= n,
                n > 0,
                i == 0 ==> selected == 0 && min_connections == usize::MAX,
                i > 0 ==> selected < i && min_connections as int == counts[selected as int],
                forall|j: int| 0 <= j < i ==> counts[j] >= min_connections,
                forall|j: int| 0 <= j < selected ==> counts[j] > min_connections,
            decreases n - i,
        {
            let connections = self.get_connections_count(self.worker_hosts[i].as_str());
            proof {
                assert(counts[i as int] == self.count_of(self.hosts()[i as int]) as int);
            }
            if connections < min_connections {
                min_connections = connections;
                selected = i;
            }
            i = i + 1;
        }
        proof {
            lemma_first_min_index(counts);
            let m = first_min_index(counts);
            if m < selected {
                assert(counts[m] > min_connections);
                assert(counts[m] <= counts[selected as int]);
                assert(false);
            }
            if selected < m {
                assert(counts[selected as int] > counts[m]);
                assert(counts[m] >= min_connections);
                assert(false);
            }
        }
        let w = self.worker_hosts[selected].clone();
        proof {
            assert(self.hosts()[selected as int] == w@);
        }
        w
    }

    fn on_request_start(&mut self, worker: &str) {
        let c = self.get_connections_count(worker);
        if c < usize::MAX {
            self.add_active_connection(worker);
        }
    }

    fn on_request_complete(&mut self, worker: &str) {
        self.remove_active_connection(worker);
    }

    fn get_worker_hosts(&self) -> (v: Vec<String>) {
        clone_string_vec(&self.worker_hosts)
    }
}

/// One lifecycle event: `true` marks the start of a request to the named
/// worker, `false` its completion.
pub struct HookEvent {
    pub is_start: bool,
    pub worker: Seq<char>,
}

/// Number of start events for `w`.
pub open spec fn starts_for(events: Seq<HookEvent>, w: Seq<char>) -> int
    decreases events.len(),
{
    if events.len() == 0 {
        0
    } else {
        starts_for(events.drop_last(), w) + if events.last().is_start && events.last().worker
            == w {
            1int
        } else {
            0int
        }
    }
}

/// Number of completion events for `w`.
pub open spec fn completes_for(events: Seq<HookEvent>, w: Seq<char>) -> int
    decreases events.len(),
{
    if events.len() == 0 {
        0
    } else {
        completes_for(events.drop_last(), w) + if !events.last().is_start && events.last().worker
            == w {
            1int
        } else {
            0int
        }
    }
}

/// Whether consecutive states are related by the hook each event names.
pub open spec fn hook_chain(states: Seq<LeastConnectionsStrategy>, events: Seq<HookEvent>) -> bool {
    &&& states.len() == events.len() + 1
    &&& forall|i: int|
        0 <= i < events.len() ==> if (#[trigger] events[i]).is_start {
            states[i].start_ens(states[i + 1], events[i].worker)
        } else {
            states[i].complete_ens(states[i + 1], events[i].worker)
        }
}

/// Bookkeeping law of the lifecycle hooks: along any chain of start and
/// completion events — in any order and for any mix of workers — in which
/// no start for `w` meets a saturated counter and no completion for `w`
/// meets a zero counter, the recorded count for `w` ends at its initial
/// value plus the number of starts for `w` minus the number of
/// completions for `w`.
pub proof fn lemma_counts_track_hooks(
    states: Seq<LeastConnectionsStrategy>,
    events: Seq<HookEvent>,
    w: Seq<char>,
)
    requires
        hook_chain(states, events),
        forall|i: int|
            0 <= i < events.len() ==> ((#[trigger] events[i]).is_start && events[i].worker == w
                ==> states[i].count_of(w) < usize::MAX),
        forall|i: int|
            0 <= i < events.len() ==> (!(#[trigger] events[i]).is_start && events[i].worker == w
                ==> states[i].count_of(w) > 0),
    ensures
        states.last().count_of(w) == states.first().count_of(w) + starts_for(events, w)
            - completes_for(events, w),
    decreases events.len(),
{
    if events.len() > 0 {
        let k = events.len() - 1;
        let st = states.drop_last();
        let et = events.drop_last();
        assert(forall|i: int| 0 <= i < st.len() ==> st[i] == states[i]);
        assert(forall|i: int| 0 <= i < et.len() ==> et[i] == events[i]);
        assert(hook_chain(st, et));
        lemma_counts_track_hooks(st, et, w);
        assert(st.last() == states[k as int]);
        assert(st.first() == states.first());
        if events[k as int].is_start {
            assert(states[k as int].start_ens(states[k as int + 1], events[k as int].worker));
        } else {
            assert(states[k as int].complete_ens(states[k as int + 1], events[k as int].worker));
        }
    } else {
        assert(states.last() == states.first());
    }
}

/// Selection law of the least-connections strategy: the returned worker's
/// outstanding count — starts minus completes, as the lifecycle hooks keep
/// it — is no larger than any worker's, so a worker is never returned
/// while another has strictly fewer outstanding connections; and with all
/// workers tied, the first-constructed worker is returned.
pub proof fn lemma_least_connections_selection(
    s: LeastConnectionsStrategy,
    post: LeastConnectionsStrategy,
    w: Seq<char>,
)
    requires
        s.wf(),
        s.select_ens(post, w),
    ensures
        forall|j: int|
            0 <= j < s.hosts().len() ==> s.count_of(w) <= #[trigger] s.count_of(s.hosts()[j]),
        (forall|j: int|
            0 <= j < s.hosts().len() ==> #[trigger] s.count_of(s.hosts()[j]) == s.count_of(
                s.hosts()[0],
            )) ==> w == s.hosts()[0],
{
    let counts = s.counts_list();
    lemma_first_min_index(counts);
    let m = first_min_index(counts);
    assert(w == s.hosts()[m]);
    assert(counts[m] == s.count_of(s.hosts()[m]) as int);
    assert forall|j: int|
        0 <= j < s.hosts().len() implies s.count_of(w) <= #[trigger] s.count_of(
        s.hosts()[j],
    ) by {
        assert(counts[j] == s.count_of(s.hosts()[j]) as int);
        assert(counts[m] <= counts[j]);
    }
    if forall|j: int|
        0 <= j < s.hosts().len() ==> #[trigger] s.count_of(s.hosts()[j]) == s.count_of(
            s.hosts()[0],
        ) {
        assert forall|j: int| 0 <= j < counts.len() implies #[trigger] counts[j] == counts[0] by {
            assert(counts[j] == s.count_of(s.hosts()[j]) as int);
            assert(counts[0] == s.count_of(s.hosts()[0]) as int);
        }
        lemma_first_min_index_all_tied(counts);
    }
}

} // verus!
