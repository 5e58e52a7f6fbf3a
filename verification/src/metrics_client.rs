use vstd::prelude::*;

use crate::metrics::Metrics;
use crate::metrics::spec_record;
use crate::tracked_request::TrackedRequest;
use crate::tracked_request::spec_is_success;

verus! {

/// Bookkeeping half of the outbound-call wrapper.  The transport issues
/// the call and measures it; this type builds the immutable record of the
/// outcome and folds it into the shared aggregate in one step, so a
/// snapshot can never observe a partial update.  The call's own result is
/// handed back to the caller untouched, success or failure.
pub struct MetricsClient {
    pub metrics: Metrics,
}

impl MetricsClient {
    pub open spec fn wf(&self) -> bool {
        self.metrics.wf()
    }

    pub fn new() -> (c: Self)
        ensures
            c.wf(),
            c.metrics.total_requests == 0,
            c.metrics.total_duration_ms == 0,
            c.metrics.errors == 0,
            c.metrics.recent_requests@.len() == 0,
            forall|code: u16| c.metrics@.status_counts[code] == 0,
    {
        MetricsClient { metrics: Metrics::new() }
    }

    /// Records the outcome of exactly one outbound call: builds the
    /// tracked record (status present iff the call returned a response,
    /// error flag set on transport failure or non-success status) and
    /// steps the aggregate by it.
    pub fn record_outcome(
        &mut self,
        timestamp_ms: u64,
        method: String,
        uri: String,
        duration_ms: u64,
        status: Option<u16>,
        transport_error: bool,
    ) -> (t: TrackedRequest)
        requires
            old(self).wf(),
            old(self).metrics.total_requests < u64::MAX,
        ensures
            final(self).wf(),
            t.timestamp_ms == timestamp_ms,
            t.method@ == method@,
            t.uri@ == uri@,
            t.duration_ms == duration_ms,
            t.status == status,
            t.is_error == (transport_error || match status {
                Option::Some(c) => !spec_is_success(c),
                Option::None => false,
            }),
            final(self).metrics@ == spec_record(old(self).metrics@, t@),
    {
        let t = TrackedRequest::new(timestamp_ms, method, uri, duration_ms, status, transport_error);
        let record = t.duplicate();
        self.metrics.record(record);
        t
    }

    /// A consistent copy of the aggregate.
    pub fn snapshot(&self) -> (m: Metrics)
        requires
            self.wf(),
        ensures
            m.wf(),
            m@ == self.metrics@,
    {
        self.metrics.snapshot()
    }
}

} // verus!
