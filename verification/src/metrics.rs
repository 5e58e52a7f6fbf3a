use vstd::prelude::*;

use crate::tracked_request::TrackedRequest;
use crate::tracked_request::TrackedRequestView;

verus! {

/// How many recent requests the aggregate retains; the oldest entry is
/// evicted when one more arrives at capacity.
pub const RECENT_REQUEST_CAPACITY: usize = 1000;

/// Count that `entries` records for status `code`; a status without an
/// entry has zero.
pub open spec fn status_count_in(entries: Seq<(u16, u64)>, code: u16) -> int
    decreases entries.len(),
{
    if entries.len() == 0 {
        0
    } else if entries[0].0 == code {
        entries[0].1 as int
    } else {
        status_count_in(entries.drop_first(), code)
    }
}

/// No two entries record the same status code.
pub open spec fn status_keys_unique(entries: Seq<(u16, u64)>) -> bool {
    forall|j: int, k: int| 0 <= j < k < entries.len() ==> entries[j].0 != entries[k].0
}

/// The mathematical image of the aggregate: plain numbers, a total map
/// from status code to count (zero for absent codes), and the retained
/// window of recent requests.
#[verifier::ext_equal]
pub struct MetricsView {
    pub total_requests: int,
    pub total_duration_ms: int,
    pub status_counts: Map<u16, int>,
    pub errors: int,
    pub recent_requests: Seq<TrackedRequestView>,
}

/// How one recorded call steps the aggregate: totals grow, the bucket of
/// the returned status (if any) grows, the error count grows on an
/// erroring call, and the record joins the recent window, evicting the
/// oldest entry at capacity.
pub open spec fn spec_record(m: MetricsView, r: TrackedRequestView) -> MetricsView {
    MetricsView {
        total_requests: m.total_requests + 1,
        total_duration_ms: m.total_duration_ms + r.duration_ms,
        status_counts: match r.status {
            Option::Some(c) => m.status_counts.insert(c, m.status_counts[c] + 1),
            Option::None => m.status_counts,
        },
        errors: m.errors + if r.is_error {
            1int
        } else {
            0int
        },
        recent_requests: if m.recent_requests.len() < RECENT_REQUEST_CAPACITY {
            m.recent_requests.push(r)
        } else {
            m.recent_requests.drop_first().push(r)
        },
    }
}

/// The aggregate state fed by every completed outbound call: total count,
/// cumulative duration, per-status counts, error count, and the bounded
/// window of recent requests, oldest first.
pub struct Metrics {
    pub total_requests: u64,
    pub total_duration_ms: u128,
    pub status_counts: Vec<(u16, u64)>,
    pub errors: u64,
    pub recent_requests: Vec<TrackedRequest>,
}

impl View for Metrics {
    type V = MetricsView;

    open spec fn view(&self) -> MetricsView {
        MetricsView {
            total_requests: self.total_requests as int,
            total_duration_ms: self.total_duration_ms as int,
            status_counts: Map::new(
                |c: u16| true,
                |c: u16| status_count_in(self.status_counts@, c),
            ),
            errors: self.errors as int,
            recent_requests: self.recent_requests.deep_view(),
        }
    }
}

impl Metrics {
    /// Bookkeeping invariant: status entries are unique and every status
    /// count is bounded by the total; errors are bounded by the total; the
    /// cumulative duration is bounded by one maximal duration per request;
    /// the recent window respects its capacity.
    pub open spec fn wf(&self) -> bool {
        &&& status_keys_unique(self.status_counts@)
        &&& forall|c: u16|
            #[trigger] status_count_in(self.status_counts@, c) <= self.total_requests as int
        &&& self.errors <= self.total_requests
        &&& self.total_duration_ms as int <= self.total_requests as int * u64::MAX as int
        &&& self.recent_requests@.len() <= RECENT_REQUEST_CAPACITY
    }

    /// A fresh, empty aggregate.
    pub fn new() -> (m: Self)
        ensures
            m.wf(),
            m.total_requests == 0,
            m.total_duration_ms == 0,
            m.errors == 0,
            m.recent_requests@.len() == 0,
            forall|c: u16| m@.status_counts[c] == 0,
    {
        Metrics {
            total_requests: 0,
            total_duration_ms: 0,
            status_counts: Vec::new(),
            errors: 0,
            recent_requests: Vec::new(),
        }
    }

    /// Count recorded for one status code.
    pub fn status_count(&self, code: u16) -> (c: u64)
        ensures
            c as int == self@.status_counts[code],
    {
        let n = self.status_counts.len();
        let mut i: usize = 0;
        while i < n
            invariant
                n == self.status_counts@.len(),
                i <= n,
                forall|j: int| 0 <= j < i ==> self.status_counts@[j].0 != code,
            decreases n - i,
        {
            if self.status_counts[i].0 == code {
                proof {
                    lemma_status_count_skip(self.status_counts@, code, i as int);
                    assert(self.status_counts@.skip(i as int)[0] == self.status_counts@[i as int]);
                }
                return self.status_counts[i].1;
            }
            i = i + 1;
        }
        proof {
            lemma_status_count_absent(self.status_counts@, code);
        }
        0
    }

    /// Folds one completed call into the aggregate, exactly as
    /// `spec_record` says, inside what the callers treat as one exclusive
    /// section.
    pub fn record(&mut self, r: TrackedRequest)
        requires
            old(self).wf(),
            old(self).total_requests < u64::MAX,
        ensures
            final(self).wf(),
            final(self)@ == spec_record(old(self)@, r@),
    {
        let ghost pre = self@;
        proof {
            assert((self.total_requests as int) * (u64::MAX as int) + (u64::MAX as int) <= (
            u64::MAX as int) * (u64::MAX as int)) by (nonlinear_arith)
                requires
                    (self.total_requests as int) < (u64::MAX as int),
            ;
            assert((u64::MAX as int) * (u64::MAX as int) < u128::MAX as int) by (nonlinear_arith);
            assert(self.total_duration_ms as int + r.duration_ms as int <= (u64::MAX as int) * (
            u64::MAX as int));
        }
        self.total_requests = self.total_requests + 1;
        self.total_duration_ms = self.total_duration_ms + r.duration_ms as u128;
        if r.is_error {
            self.errors = self.errors + 1;
        }
        match r.status {
            Option::Some(code) => {
                self.bump_status_count(code);
            },
            Option::None => {},
        }
        proof {
            assert(self@.status_counts =~= spec_record(pre, r@).status_counts);
            assert(self.total_duration_ms as int <= (self.total_requests as int) * (u64::MAX
            as int)) by (nonlinear_arith)
                requires
                    self.total_duration_ms as int <= (self.total_requests as int - 1) * (u64::MAX
                    as int) + (u64::MAX as int),
                    self.total_requests >= 1,
            ;
        }
        if self.recent_requests.len() >= RECENT_REQUEST_CAPACITY {
            self.recent_requests.remove(0);
        }
        self.recent_requests.push(r);
        proof {
            assert(pre.recent_requests.len() < RECENT_REQUEST_CAPACITY ==> self@.recent_requests
                =~= pre.recent_requests.push(r@));
            assert(pre.recent_requests.len() >= RECENT_REQUEST_CAPACITY ==> self@.recent_requests
                =~= pre.recent_requests.drop_first().push(r@));
        }
    }

    /// Adds one hit to the bucket of `code`, creating the bucket at one.
    #[verifier::loop_isolation(false)]
    fn bump_status_count(&mut self, code: u16)
        requires
            status_keys_unique(old(self).status_counts@),
            status_count_in(old(self).status_counts@, code) < u64::MAX,
        ensures
            final(self).total_requests == old(self).total_requests,
            final(self).total_duration_ms == old(self).total_duration_ms,
            final(self).errors == old(self).errors,
            final(self).recent_requests == old(self).recent_requests,
            status_keys_unique(final(self).status_counts@),
            forall|c: u16|
                #[trigger] status_count_in(final(self).status_counts@, c) == status_count_in(
                    old(self).status_counts@,
                    c,
                ) + if c == code {
                    1int
                } else {
                    0int
                },
    {
        let ghost entries = self.status_counts@;
        let n = self.status_counts.len();
        let mut i: usize = 0;
        while i < n
            invariant
                self.total_requests == old(self).total_requests,
                self.total_duration_ms == old(self).total_duration_ms,
                self.errors == old(self).errors,
                self.recent_requests == old(self).recent_requests,
                self.status_counts@ == entries,
                i <= n,
                forall|j: int| 0 <= j < i ==> entries[j].0 != code,
            decreases n - i,
        {
            if self.status_counts[i].0 == code {
                proof {
                    lemma_status_count_skip(entries, code, i as int);
                    assert(entries.skip(i as int)[0] == entries[i as int]);
                    assert(status_count_in(entries, code) == entries[i as int].1 as int);
                }
                let c = self.status_counts[i].1;
                self.status_counts.set(i, (code, c + 1));
                proof {
                    let u = entries.update(i as int, (code, (c + 1) as u64));
                    assert(self.status_counts@ == u);
                    assert forall|c2: u16|
                        status_count_in(u, c2) == status_count_in(entries, c2) + if c2 == code {
                            1int
                        } else {
                            0int
                        } by {
                        lemma_status_count_update(entries, i as int, (c + 1) as u64, c2);
                        lemma_status_count_skip(entries, code, i as int);
                    }
                    assert forall|j: int, k: int| 0 <= j < k < u.len() implies u[j].0 != u[k].0 by {
                        assert(u[j].0 == entries[j].0);
                        assert(u[k].0 == entries[k].0);
                    }
                }
                return ;
            }
            i = i + 1;
        }
        proof {
            lemma_status_count_absent(entries, code);
        }
        self.status_counts.push((code, 1));
        proof {
            let u = entries.push((code, 1u64));
            assert(self.status_counts@ == u);
            assert forall|c2: u16|
                status_count_in(u, c2) == status_count_in(entries, c2) + if c2 == code {
                    1int
                } else {
                    0int
                } by {
                lemma_status_count_push(entries, (code, 1u64), c2);
                if c2 != code && !status_has_key(entries, c2) {
                    lemma_status_count_absent(entries, c2);
                }
            }
            assert forall|j: int, k: int| 0 <= j < k < u.len() implies u[j].0 != u[k].0 by {
                if k < entries.len() {
                    assert(u[j] == entries[j]);
                    assert(u[k] == entries[k]);
                } else {
                    assert(u[j] == entries[j]);
                    assert(u[k].0 == code);
                }
            }
        }
    }
}

impl Metrics {
    /// A deep copy of the aggregate, taken under what the callers treat as
    /// a shared section: reading it later cannot observe a partial update.
    #[verifier::loop_isolation(false)]
    pub fn snapshot(&self) -> (m: Metrics)
        requires
            self.wf(),
        ensures
            m.wf(),
            m@ == self@,
    {
        let mut status_counts: Vec<(u16, u64)> = Vec::new();
        let n = self.status_counts.len();
        let mut i: usize = 0;
        while i < n
            invariant
                i <= n,
                status_counts@ == self.status_counts@.take(i as int),
            decreases n - i,
        {
            status_counts.push(self.status_counts[i]);
            proof {
                assert(status_counts@ =~= self.status_counts@.take(i as int + 1));
            }
            i = i + 1;
        }
        proof {
            assert(self.status_counts@.take(n as int) =~= self.status_counts@);
        }
        let mut recent_requests: Vec<TrackedRequest> = Vec::new();
        let k = self.recent_requests.len();
        let mut j: usize = 0;
        while j < k
            invariant
                j <= k,
                recent_requests@.len() == j,
                forall|x: int|
                    0 <= x < j ==> #[trigger] recent_requests@[x]@ == self.recent_requests@[x]@,
            decreases k - j,
        {
            recent_requests.push(self.recent_requests[j].duplicate());
            j = j + 1;
        }
        let m = Metrics {
            total_requests: self.total_requests,
            total_duration_ms: self.total_duration_ms,
            status_counts,
            errors: self.errors,
            recent_requests,
        };
        proof {
            assert(m@.status_counts =~= self@.status_counts);
            assert(m@.recent_requests =~= self@.recent_requests);
            assert(m@ =~= self@);
        }
        m
    }

    /// Mean duration of the recorded calls in whole milliseconds; zero
    /// while nothing has been recorded (the division is guarded, never
    /// propagated).
    pub fn average_duration_ms(&self) -> (r: u128)
        ensures
            self.total_requests == 0 ==> r == 0,
            self.total_requests > 0 ==> r == self@.total_duration_ms / self@.total_requests,
    {
        if self.total_requests == 0 {
            0
        } else {
            self.total_duration_ms / (self.total_requests as u128)
        }
    }

    /// Erroring calls per thousand recorded calls, rounded down; zero
    /// while nothing has been recorded.
    pub fn error_rate_permille(&self) -> (r: u64)
        requires
            self.wf(),
        ensures
            self.total_requests == 0 ==> r == 0,
            self.total_requests > 0 ==> r as int == self@.errors * 1000 / self@.total_requests,
    {
        if self.total_requests == 0 {
            0
        } else {
            let scaled = (self.errors as u128) * 1000;
            let rate = scaled / (self.total_requests as u128);
            proof {
                assert(rate <= 1000) by (nonlinear_arith)
                    requires
                        rate as int == (self.errors as int) * 1000 / (self.total_requests as int),
                        self.errors <= self.total_requests,
                        self.total_requests > 0,
                ;
            }
            rate as u64
        }
    }
}

/// Reads are idempotent: two snapshots taken with no recording in between
/// carry equal aggregates.
pub proof fn lemma_snapshot_idempotent(m: Metrics, s1: Metrics, s2: Metrics)
    requires
        s1@ == m@,
        s2@ == m@,
    ensures
        s1@ == s2@,
{
}

/// The aggregate after replaying a sequence of recorded calls, in order.
pub open spec fn spec_replay(m: MetricsView, rs: Seq<TrackedRequestView>) -> MetricsView
    decreases rs.len(),
{
    if rs.len() == 0 {
        m
    } else {
        spec_record(spec_replay(m, rs.drop_last()), rs.last())
    }
}

/// Sum of the durations of a sequence of recorded calls.
pub open spec fn sum_durations(rs: Seq<TrackedRequestView>) -> int
    decreases rs.len(),
{
    if rs.len() == 0 {
        0
    } else {
        sum_durations(rs.drop_last()) + rs.last().duration_ms
    }
}

/// Accumulation law: replaying `n` recorded calls adds exactly `n` to the
/// total request count and exactly the sum of their durations to the
/// cumulative duration — no rounding, no loss.
pub proof fn lemma_metrics_accumulation(m: MetricsView, rs: Seq<TrackedRequestView>)
    ensures
        spec_replay(m, rs).total_requests == m.total_requests + rs.len(),
        spec_replay(m, rs).total_duration_ms == m.total_duration_ms + sum_durations(rs),
    decreases rs.len(),
{
    if rs.len() > 0 {
        lemma_metrics_accumulation(m, rs.drop_last());
    }
}

/// Window law: replaying calls onto an aggregate whose window is within
/// capacity leaves the whole history while it fits, and afterwards exactly
/// the last `RECENT_REQUEST_CAPACITY` records, oldest first.
pub proof fn lemma_recent_requests_window(m: MetricsView, rs: Seq<TrackedRequestView>)
    requires
        m.recent_requests.len() <= RECENT_REQUEST_CAPACITY,
    ensures
        m.recent_requests.len() + rs.len() <= RECENT_REQUEST_CAPACITY ==> spec_replay(
            m,
            rs,
        ).recent_requests == m.recent_requests + rs,
        m.recent_requests.len() + rs.len() > RECENT_REQUEST_CAPACITY ==> spec_replay(
            m,
            rs,
        ).recent_requests == (m.recent_requests + rs).skip(
            m.recent_requests.len() + rs.len() - RECENT_REQUEST_CAPACITY,
        ),
    decreases rs.len(),
{
    let cap = RECENT_REQUEST_CAPACITY as int;
    if rs.len() == 0 {
        assert(m.recent_requests + rs =~= m.recent_requests);
    } else {
        let t = rs.drop_last();
        let p = rs.last();
        lemma_recent_requests_window(m, t);
        let w = spec_replay(m, t).recent_requests;
        assert(spec_replay(m, rs) == spec_record(spec_replay(m, t), p));
        if m.recent_requests.len() + t.len() <= cap {
            assert(w == m.recent_requests + t);
            if w.len() < cap {
                assert((m.recent_requests + t).push(p) =~= m.recent_requests + rs);
            } else {
                assert((m.recent_requests + t).drop_first().push(p) =~= (m.recent_requests
                    + rs).skip(1));
            }
        } else {
            let d = m.recent_requests.len() + t.len() - cap;
            assert(w == (m.recent_requests + t).skip(d));
            assert(w.len() == cap);
            assert(w.drop_first().push(p) =~= (m.recent_requests + rs).skip(d + 1));
        }
    }
}

/// The window bound of the specification, from an empty aggregate: after
/// more than `RECENT_REQUEST_CAPACITY` recorded calls the window holds
/// exactly the capacity, and its oldest entry is the record of call number
/// `n - RECENT_REQUEST_CAPACITY` (counting from zero).
pub proof fn lemma_recent_requests_bound(m: MetricsView, rs: Seq<TrackedRequestView>)
    requires
        m.recent_requests.len() == 0,
        rs.len() > RECENT_REQUEST_CAPACITY,
    ensures
        spec_replay(m, rs).recent_requests.len() == RECENT_REQUEST_CAPACITY,
        spec_replay(m, rs).recent_requests[0] == rs[rs.len() - RECENT_REQUEST_CAPACITY],
{
    lemma_recent_requests_window(m, rs);
    assert(m.recent_requests + rs =~= rs);
}

/// Whether `entries` holds an entry for `code`.
pub open spec fn status_has_key(entries: Seq<(u16, u64)>, code: u16) -> bool {
    exists|j: int| 0 <= j < entries.len() && entries[j].0 == code
}

/// A status without an entry has count zero.
proof fn lemma_status_count_absent(entries: Seq<(u16, u64)>, code: u16)
    requires
        forall|j: int| 0 <= j < entries.len() ==> entries[j].0 != code,
    ensures
        status_count_in(entries, code) == 0,
    decreases entries.len(),
{
    if entries.len() > 0 {
        let t = entries.drop_first();
        assert(forall|j: int| 0 <= j < t.len() ==> t[j] == entries[j + 1]);
        lemma_status_count_absent(t, code);
    }
}

/// Skipping a prefix without an entry for `code` keeps the count.
proof fn lemma_status_count_skip(entries: Seq<(u16, u64)>, code: u16, i: int)
    requires
        0 <= i <= entries.len(),
        forall|j: int| 0 <= j < i ==> entries[j].0 != code,
    ensures
        status_count_in(entries, code) == status_count_in(entries.skip(i), code),
    decreases i,
{
    if i == 0 {
        assert(entries.skip(0) =~= entries);
    } else {
        let t = entries.drop_first();
        assert(forall|j: int| 0 <= j < t.len() ==> t[j] == entries[j + 1]);
        lemma_status_count_skip(t, code, i - 1);
        assert(t.skip(i - 1) =~= entries.skip(i));
    }
}

/// Replacing the count in entry `i` changes only that code's count.
proof fn lemma_status_count_update(entries: Seq<(u16, u64)>, i: int, v: u64, code: u16)
    requires
        0 <= i < entries.len(),
        forall|j: int| 0 <= j < i ==> entries[j].0 != entries[i].0,
    ensures
        status_count_in(entries.update(i, (entries[i].0, v)), code) == if code == entries[i].0 {
            v as int
        } else {
            status_count_in(entries, code)
        },
    decreases i,
{
    let u = entries.update(i, (entries[i].0, v));
    if i == 0 {
        if code != entries[0].0 {
            assert(u.drop_first() =~= entries.drop_first());
        }
    } else {
        assert(u[0] == entries[0]);
        if entries[0].0 != code {
            let t = entries.drop_first();
            assert(forall|j: int| 0 <= j < t.len() ==> t[j] == entries[j + 1]);
            assert(u.drop_first() =~= t.update(i - 1, (t[i - 1].0, v)));
            lemma_status_count_update(t, i - 1, v, code);
        }
    }
}

/// Appending an entry for a new code leaves present codes alone.
proof fn lemma_status_count_push(entries: Seq<(u16, u64)>, p: (u16, u64), code: u16)
    ensures
        status_count_in(entries.push(p), code) == if status_has_key(entries, code) {
            status_count_in(entries, code)
        } else if p.0 == code {
            p.1 as int
        } else {
            0
        },
    decreases entries.len(),
{
    if entries.len() == 0 {
        let u = entries.push(p);
        assert(u[0] == p);
        assert(u.drop_first() =~= Seq::<(u16, u64)>::empty());
        assert(status_count_in(Seq::<(u16, u64)>::empty(), code) == 0);
        if p.0 == code {
            assert(status_count_in(u, code) == p.1 as int);
        } else {
            assert(status_count_in(u, code) == status_count_in(u.drop_first(), code));
        }
        assert(!status_has_key(entries, code));
    } else {
        assert(entries.push(p)[0] == entries[0]);
        if entries[0].0 == code {
            assert(status_has_key(entries, code));
        } else {
            let t = entries.drop_first();
            assert(forall|j: int| 0 <= j < t.len() ==> t[j] == entries[j + 1]);
            assert(entries.push(p).drop_first() =~= t.push(p));
            lemma_status_count_push(t, p, code);
            if status_has_key(t, code) {
                let j = choose|j: int| 0 <= j < t.len() && t[j].0 == code;
                assert(entries[j + 1].0 == code);
                assert(status_has_key(entries, code));
            }
            if status_has_key(entries, code) {
                let j = choose|j: int| 0 <= j < entries.len() && entries[j].0 == code;
                assert(j > 0);
                assert(t[j - 1].0 == code);
                assert(status_has_key(t, code));
            }
        }
    }
}

} // verus!
