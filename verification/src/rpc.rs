//! The descriptor of one outstanding remote call and its completion slot.

use vstd::prelude::*;

use crate::errors::Error;

verus! {

/// Completion state of an RPC. The slot starts out pending and is
/// signalled exactly once, by `Rpc::complete` or `Rpc::fail`.
#[derive(Clone, Debug, PartialEq, Eq)]
pub enum RpcOutcome {
    /// No outcome yet.
    Pending,
    /// The server answered and the response slot holds the payload.
    Succeeded,
    /// The call failed with this error.
    Failed(Error),
}

/// One outstanding remote call.
#[derive(Debug)]
pub struct Rpc {
    /// Service the call addresses.
    pub service_name: Vec<u8>,
    /// Method the call addresses.
    pub method_name: Vec<u8>,
    /// Absolute deadline, in the caller's millisecond clock.
    pub deadline_ms: u64,
    /// Feature flags the server must support; mismatch is a non-retriable
    /// protocol error.
    pub required_feature_flags: Vec<u32>,
    /// Serialized request payload.
    pub request: Vec<u8>,
    /// Response payload slot, filled on success.
    pub response: Vec<u8>,
    /// Out-of-band response blobs; always empty in this runtime.
    pub sidecars: Vec<Vec<u8>>,
    /// Whether a connection reset fails this call instead of retrying it.
    pub fail_fast: bool,
    /// Completion slot.
    pub outcome: RpcOutcome,
}

impl Rpc {
    /// Builds a pending call with empty response and sidecar slots.
    pub fn new(
        service_name: Vec<u8>,
        method_name: Vec<u8>,
        deadline_ms: u64,
        request: Vec<u8>,
        fail_fast: bool,
    ) -> (r: Rpc)
        ensures
            r.service_name == service_name,
            r.method_name == method_name,
            r.deadline_ms == deadline_ms,
            r.required_feature_flags@.len() == 0,
            r.request == request,
            r.response@.len() == 0,
            r.sidecars@.len() == 0,
            r.fail_fast == fail_fast,
            r.outcome is Pending,
    {
        Rpc {
            service_name,
            method_name,
            deadline_ms,
            required_feature_flags: Vec::new(),
            request,
            response: Vec::new(),
            sidecars: Vec::new(),
            fail_fast,
            outcome: RpcOutcome::Pending,
        }
    }

    /// Whether the call's deadline has passed at the given instant.
    pub fn timed_out(&self, now_ms: u64) -> (r: bool)
        ensures
            r == (now_ms >= self.deadline_ms),
    {
        now_ms >= self.deadline_ms
    }

    /// Signals success. The completion slot must still be pending, so a
    /// call is never signalled twice.
    pub fn complete(&mut self)
        requires
            old(self).outcome is Pending,
        ensures
            *final(self) == (Rpc { outcome: RpcOutcome::Succeeded, ..*old(self) }),
    {
        self.outcome = RpcOutcome::Succeeded;
    }

    /// Signals failure with the given error. The completion slot must
    /// still be pending, so a call is never signalled twice.
    pub fn fail(&mut self, error: Error)
        requires
            old(self).outcome is Pending,
        ensures
            *final(self) == (Rpc { outcome: RpcOutcome::Failed(error), ..*old(self) }),
    {
        self.outcome = RpcOutcome::Failed(error);
    }
}

} // verus!
