//! The error taxonomy of a transfer.
//!
//! Every failure is fatal to the single in-flight transfer: there is no
//! retry at any layer and no partial-transfer recovery.  The kinds below
//! classify what went wrong so the caller can report it and exit.

use vstd::prelude::*;

verus! {

/// What ended a transfer early.
#[derive(Clone, Copy, PartialEq, Eq, Structural, Debug)]
pub enum TransferError {
    /// The sender could not bind its listening port.
    Bind,
    /// The receiver could not reach the peer.
    Connect,
    /// A local file read or write failed.
    Io,
    /// The metadata frame was malformed or truncated.
    Protocol,
    /// The connection dropped before the declared payload size arrived.
    Disconnected,
}

impl TransferError {
    /// A short description of the failure kind, for reporting.
    pub fn describe(&self) -> (r: &'static str)
        ensures
            *self is Bind ==> r@ == ("failed to bind to port")@,
            *self is Connect ==> r@ == ("failed to connect to sender")@,
            *self is Io ==> r@ == ("local file read or write failed")@,
            *self is Protocol ==> r@ == ("malformed or truncated metadata frame")@,
            *self is Disconnected ==> r@ == ("connection lost before the full payload arrived")@,
    {
        match self {
            TransferError::Bind => "failed to bind to port",
            TransferError::Connect => "failed to connect to sender",
            TransferError::Io => "local file read or write failed",
            TransferError::Protocol => "malformed or truncated metadata frame",
            TransferError::Disconnected => "connection lost before the full payload arrived",
        }
    }
}

} // verus!
