use vstd::prelude::*;

verus! {

/// Whether an HTTP status code counts as success.
pub open spec fn spec_is_success(status: u16) -> bool {
    200 <= status < 300
}

/// Exec mirror of `spec_is_success`.
pub fn is_success_status(status: u16) -> (r: bool)
    ensures
        r == spec_is_success(status),
{
    200 <= status && status < 300
}

/// One completed outbound call, recorded once and never mutated: when it
/// started, what was sent, how long it took, and what came back.  The
/// status is absent when the transport failed; `is_error` is set when the
/// call failed outright or returned a non-success status.
pub struct TrackedRequest {
    pub timestamp_ms: u64,
    pub method: String,
    pub uri: String,
    pub duration_ms: u64,
    pub status: Option<u16>,
    pub is_error: bool,
}

/// The mathematical image of a tracked request: the same fields, with the
/// strings as character sequences.
#[verifier::ext_equal]
pub struct TrackedRequestView {
    pub timestamp_ms: u64,
    pub method: Seq<char>,
    pub uri: Seq<char>,
    pub duration_ms: u64,
    pub status: Option<u16>,
    pub is_error: bool,
}

impl View for TrackedRequest {
    type V = TrackedRequestView;

    open spec fn view(&self) -> TrackedRequestView {
        TrackedRequestView {
            timestamp_ms: self.timestamp_ms,
            method: self.method@,
            uri: self.uri@,
            duration_ms: self.duration_ms,
            status: self.status,
            is_error: self.is_error,
        }
    }
}

impl DeepView for TrackedRequest {
    type V = TrackedRequestView;

    open spec fn deep_view(&self) -> TrackedRequestView {
        self.view()
    }
}

impl TrackedRequest {
    /// Builds the record for one finished call.  The error flag is set iff
    /// the transport failed or the returned status is not a success.
    pub fn new(
        timestamp_ms: u64,
        method: String,
        uri: String,
        duration_ms: u64,
        status: Option<u16>,
        transport_error: bool,
    ) -> (t: Self)
        ensures
            t.timestamp_ms == timestamp_ms,
            t.method@ == method@,
            t.uri@ == uri@,
            t.duration_ms == duration_ms,
            t.status == status,
            t.is_error == (transport_error || match status {
                Option::Some(c) => !spec_is_success(c),
                Option::None => false,
            }),
    {
        let status_is_error = match status {
            Option::Some(c) => !is_success_status(c),
            Option::None => false,
        };
        TrackedRequest {
            timestamp_ms,
            method,
            uri,
            duration_ms,
            status,
            is_error: transport_error || status_is_error,
        }
    }

    /// A field-by-field copy.
    pub fn duplicate(&self) -> (t: Self)
        ensures
            t@ == self@,
            t.status == self.status,
    {
        TrackedRequest {
            timestamp_ms: self.timestamp_ms,
            method: self.method.clone(),
            uri: self.uri.clone(),
            duration_ms: self.duration_ms,
            status: self.status,
            is_error: self.is_error,
        }
    }
}

} // verus!
