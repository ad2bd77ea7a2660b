//! Per-connection configuration.

use vstd::prelude::*;

verus! {

/// Configuration of a single connection.
#[derive(Clone, Debug, PartialEq, Eq, Structural)]
pub struct ConnectionOptions {
    /// Whether to disable Nagle's algorithm on the socket.
    pub nodelay: bool,
    /// Hard ceiling on queued plus in-flight RPCs per connection.
    pub rpc_queue_len: u32,
    /// Initial time in milliseconds to wait after an error before
    /// reconnecting.
    pub backoff_initial: u32,
    /// Maximum time in milliseconds to wait after an error before
    /// reconnecting.
    pub backoff_max: u32,
    /// Maximum allowable incoming frame length; larger frames are a fatal
    /// protocol error.
    pub max_message_length: u32,
}

impl ConnectionOptions {
    /// Well-formed options: the queue must admit at least one RPC so that
    /// the throttle has a non-empty range, and the backoff bounds must be
    /// ordered.
    pub open spec fn valid(self) -> bool {
        &&& self.rpc_queue_len >= 1
        &&& self.backoff_initial <= self.backoff_max
    }
}

impl Default for ConnectionOptions {
    /// The defaults: Nagle disabled, 256 queued RPCs, backoff from 10 ms to
    /// 30 s, frames up to 5 MiB.
    fn default() -> (r: ConnectionOptions)
        ensures
            r.nodelay == true,
            r.rpc_queue_len == 256,
            r.backoff_initial == 10,
            r.backoff_max == 30000,
            r.max_message_length == 5 * 1024 * 1024,
            r.valid(),
    {
        ConnectionOptions {
            nodelay: true,
            rpc_queue_len: 256,
            backoff_initial: 10,
            backoff_max: 30000,
            max_message_length: 5 * 1024 * 1024,
        }
    }
}

} // verus!
