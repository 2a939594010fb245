//! Failures of the storage transport and of the commands sent over it.

use vstd::prelude::*;

verus! {

/// Why one USB transfer did not complete.
#[derive(Clone, Copy, Debug, PartialEq, Eq, Structural)]
pub enum TransferError {
    /// The transfer was cancelled or timed out.
    Cancelled,
    /// The endpoint is halted.
    Stall,
    /// The device is gone.
    Disconnected,
    /// A hardware issue or a violation of the bus protocol.
    Fault,
    /// The request has an invalid argument or is not supported.
    InvalidArgument,
    /// An unknown failure, with the system's own code.
    Unknown(u32),
}

/// Why a storage operation was refused or failed.
#[derive(Debug)]
pub enum Error {
    /// A transfer failed.
    Usb(TransferError),
    /// The interface or one of its endpoints could not be opened.
    Open(String),
    /// The device, or the caller, left the protocol.
    Protocol(&'static str),
    /// The device framed a failure: sense data says why, before any retry.
    CommandFailed,
    /// The session can no longer be trusted; only a reconnect helps.
    Retired,
    /// Connecting took too long; the device is to be closed first.
    InitializationTimeout,
}

} // verus!
