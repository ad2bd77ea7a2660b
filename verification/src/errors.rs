//! Error taxonomy of the RPC runtime.
//!
//! Two layers of classification matter to the connection state machine:
//! which server-reported RPC error codes are fatal to the connection, and
//! which locally produced errors force a reset.

use vstd::prelude::*;

verus! {

/// Error code carried by a server `ErrorStatus` reply.
///
/// The first five codes are scoped to the single RPC that provoked them;
/// the connection survives. The `Fatal*` codes additionally force the
/// connection to reset.
#[derive(Clone, Copy, Debug, PartialEq, Eq, Structural)]
pub enum RpcErrorCode {
    /// The application generated an error status.
    ApplicationError,
    /// The specified method was not valid.
    NoSuchMethod,
    /// The specified service was not valid.
    NoSuchService,
    /// The server is overloaded; the client should try again shortly.
    ServerTooBusy,
    /// The request was not parseable or asked for unsupported features.
    InvalidRequest,
    FatalUnknown,
    /// The RPC server is already shutting down.
    FatalServerShuttingDown,
    /// Fields of the RPC header are invalid.
    FatalInvalidRpcHeader,
    /// The server could not deserialize the RPC request.
    FatalDeserializingRequest,
    /// IPC layer version mismatch.
    FatalVersionMismatch,
    /// Authentication failed.
    FatalUnauthorized,
}

/// Whether a server error code is fatal to the connection.
pub open spec fn spec_code_is_fatal(code: RpcErrorCode) -> bool {
    match code {
        RpcErrorCode::FatalUnknown => true,
        RpcErrorCode::FatalServerShuttingDown => true,
        RpcErrorCode::FatalInvalidRpcHeader => true,
        RpcErrorCode::FatalDeserializingRequest => true,
        RpcErrorCode::FatalVersionMismatch => true,
        RpcErrorCode::FatalUnauthorized => true,
        _ => false,
    }
}

impl RpcErrorCode {
    /// Returns true exactly on the codes that force a connection reset.
    pub fn is_fatal(&self) -> (r: bool)
        ensures
            r == spec_code_is_fatal(*self),
    {
        match *self {
            RpcErrorCode::FatalUnknown => true,
            RpcErrorCode::FatalServerShuttingDown => true,
            RpcErrorCode::FatalInvalidRpcHeader => true,
            RpcErrorCode::FatalDeserializingRequest => true,
            RpcErrorCode::FatalVersionMismatch => true,
            RpcErrorCode::FatalUnauthorized => true,
            _ => false,
        }
    }
}

/// An error produced by the RPC runtime, either locally or on behalf of the
/// server.
#[derive(Clone, Debug, PartialEq, Eq)]
pub enum Error {
    /// A transport failure (socket error or unexpected end of stream),
    /// reported by the driver that owns the socket.
    Io,
    /// Session negotiation failed: the server offered no PLAIN mechanism,
    /// replied with an unexpected negotiation state, or violated the
    /// single-response discipline of the negotiation phase.
    NegotiationError,
    /// A malformed or oversized frame: length over the configured maximum,
    /// an illegal call ID, or unexpected sidecars.
    InvalidRpcHeader,
    /// A response body that could not be decoded. The affected RPC stays
    /// queued so that it may be retried after the reset.
    DeserializationError,
    /// The server completed the RPC with an error status.
    Rpc {
        code: RpcErrorCode,
        message: Vec<u8>,
        unsupported_feature_flags: Vec<u32>,
    },
    /// The RPC's deadline elapsed before a response arrived.
    TimedOut,
    /// The caller cancelled the RPC before it was transmitted.
    Cancelled,
    /// The connection's queue is full; the caller should back off.
    Backoff,
    /// The call ID counter is exhausted; the connection must be reset.
    ConnectionError,
}

/// Whether an error forces the connection to reset, per the taxonomy:
/// transport errors, negotiation failures, malformed frames, undecodable
/// response bodies and fatal server codes tear the connection down, while
/// per-RPC outcomes leave it open.
pub open spec fn spec_error_is_fatal(e: Error) -> bool {
    match e {
        Error::Io => true,
        Error::NegotiationError => true,
        Error::InvalidRpcHeader => true,
        Error::DeserializationError => true,
        Error::ConnectionError => true,
        Error::Rpc { code, .. } => spec_code_is_fatal(code),
        Error::TimedOut => false,
        Error::Cancelled => false,
        Error::Backoff => false,
    }
}

impl Error {
    /// Returns true exactly on the errors that force a connection reset.
    pub fn is_fatal(&self) -> (r: bool)
        ensures
            r == spec_error_is_fatal(*self),
    {
        match *self {
            Error::Io => true,
            Error::NegotiationError => true,
            Error::InvalidRpcHeader => true,
            Error::DeserializationError => true,
            Error::ConnectionError => true,
            Error::Rpc { ref code, .. } => code.is_fatal(),
            Error::TimedOut => false,
            Error::Cancelled => false,
            Error::Backoff => false,
        }
    }
}

} // verus!
