//! A request-logging middleware shell: it wraps an inner service and passes
//! requests through unchanged. The surrounding process implements its
//! transport-facing service trait; this core only defines the state.

use vstd::prelude::*;

verus! {

/// A middleware that logs requests before forwarding them to the service
/// it wraps.
#[derive(Debug)]
pub struct LogService<S> {
    pub target: &'static str,
    pub service: S,
}

impl<S> LogService<S> {
    /// Wrap a service.
    pub fn new(target: &'static str, service: S) -> (r: LogService<S>)
        ensures
            r.target@ == target@,
            r.service == service,
    {
        LogService { target, service }
    }
}

} // verus!
