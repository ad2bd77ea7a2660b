//! Client-side core of a Kudu-style RPC runtime: the per-endpoint connection
//! state machine, its supporting queue, backoff and framing logic, and the
//! error taxonomy.
//!
//! The library is pure over plain values: it frames requests into byte
//! buffers and consumes response bytes fed to it, while the surrounding
//! driver owns the socket, the timers and the completion channels.

pub mod backoff;
pub mod codec;
pub mod connection;
pub mod errors;
pub mod framing;
pub mod messages;
pub mod options;
pub mod queue_map;
pub mod rpc;
pub mod wire;

pub use connection::Connection;
pub use connection::ConnectionState;
pub use errors::Error;
pub use errors::RpcErrorCode;
pub use options::ConnectionOptions;
