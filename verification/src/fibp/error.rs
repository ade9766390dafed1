//! Errors produced by the FIBP protocol layer.

use vstd::prelude::*;
use crate::error::{BrokerError, StorageError};

verus! {

/// Errors produced by the FIBP protocol layer.
#[derive(Debug)]
pub enum FibpError {
    /// The remote peer sent an invalid or unsupported magic/version handshake.
    HandshakeFailed { reason: String },
    /// A frame exceeded the configured `max_frame_size`.
    FrameTooLarge { size: u32, limit: u32 },
    /// A frame's length prefix is shorter than the frame header.
    FrameTooShort { size: u32, minimum: u32 },
    /// The peer sent a frame with an unrecognised op code.
    UnknownOp { op: u8 },
    /// An I/O error on the underlying stream.
    Io(String),
    /// The operation requested is not yet implemented.
    NotImplemented { op: u8 },
    /// A frame payload could not be decoded (malformed wire data).
    InvalidPayload { reason: String },
    /// The scheduler command channel is unavailable.
    BrokerUnavailable(BrokerError),
    /// The scheduler reply channel was dropped before a response arrived.
    ReplyDropped,
    /// Authentication required but not provided or invalid.
    AuthFailed { reason: String },
    /// The caller does not have permission for the requested operation.
    PermissionDenied { reason: String },
    /// Wire decode error on an admin payload.
    WireDecode(String),
    /// TLS configuration error.
    TlsConfig { reason: String },
    /// A storage error during auth validation.
    Storage(StorageError),
}

impl From<BrokerError> for FibpError {
    fn from(err: BrokerError) -> (r: Self)
        ensures
            r == FibpError::BrokerUnavailable(err),
    {
        FibpError::BrokerUnavailable(err)
    }
}

impl vstd::std_specs::convert::FromSpecImpl<BrokerError> for FibpError {
    open spec fn obeys_from_spec() -> bool {
        true
    }

    open spec fn from_spec(err: BrokerError) -> Self {
        FibpError::BrokerUnavailable(err)
    }
}

impl From<StorageError> for FibpError {
    fn from(err: StorageError) -> (r: Self)
        ensures
            r == FibpError::Storage(err),
    {
        FibpError::Storage(err)
    }
}

impl vstd::std_specs::convert::FromSpecImpl<StorageError> for FibpError {
    open spec fn obeys_from_spec() -> bool {
        true
    }

    open spec fn from_spec(err: StorageError) -> Self {
        FibpError::Storage(err)
    }
}

} // verus!
