//! The shared error vocabulary that flows through every call boundary:
//! a closed set of kinds, with a structured details payload, so callers
//! can branch on cause without depending on process-local error objects.

use vstd::prelude::*;
use crate::value::{Val, Value};

verus! {

/// The closed set of transport-level failure reasons. A transport error
/// is sub-classified by one of these, and the classification is kept in
/// the error's details as a machine-readable tag.
#[derive(Debug, Clone, Copy, PartialEq, Eq, Structural)]
pub enum IoReason {
    NotFound,
    PermissionDenied,
    ConnectionRefused,
    ConnectionReset,
    ConnectionAborted,
    NotConnected,
    AddrInUse,
    AddrNotAvailable,
    BrokenPipe,
    AlreadyExists,
    WouldBlock,
    InvalidInput,
    InvalidData,
    TimedOut,
    WriteZero,
    Interrupted,
    Unknown,
}

/// The closed set of error categories.
#[derive(Debug, Clone, Copy, PartialEq, Eq, Structural)]
pub enum ErrorKind {
    /// An underlying read, write or connect failure, with its reason.
    Io(IoReason),
    /// The connection was torn down while a call was outstanding.
    Disconnected,
    /// A payload could not be interpreted as the expected shape.
    Decoding,
    /// A well-formed payload was semantically invalid for the method.
    InvalidArgs,
    /// A plugin-defined failure, tagged in the details.
    Domain,
}

/// A structured error: a category plus an optional structured payload.
#[derive(Debug, PartialEq, Eq)]
pub struct Error {
    pub kind: ErrorKind,
    pub details: Option<Value>,
}

/// The mathematical model of an `Error`.
pub struct ErrorVal {
    pub kind: ErrorKind,
    pub details: Option<Val>,
}

impl View for Error {
    type V = ErrorVal;

    open spec fn view(&self) -> ErrorVal {
        ErrorVal {
            kind: self.kind,
            details: match self.details {
                Some(v) => Some(v@),
                None => None,
            },
        }
    }
}

/// The machine-readable tag kept in a transport error's details,
/// one per failure reason.
pub open spec fn spec_io_reason_tag(reason: IoReason) -> Seq<char> {
    match reason {
        IoReason::NotFound => "not_found"@,
        IoReason::PermissionDenied => "permission_denied"@,
        IoReason::ConnectionRefused => "connection_refused"@,
        IoReason::ConnectionReset => "connection_reset"@,
        IoReason::ConnectionAborted => "connection_aborted"@,
        IoReason::NotConnected => "not_connected"@,
        IoReason::AddrInUse => "addr_in_use"@,
        IoReason::AddrNotAvailable => "addr_not_available"@,
        IoReason::BrokenPipe => "broken_pipe"@,
        IoReason::AlreadyExists => "already_exists"@,
        IoReason::WouldBlock => "would_block"@,
        IoReason::InvalidInput => "invalid_input"@,
        IoReason::InvalidData => "invalid_data"@,
        IoReason::TimedOut => "timed_out"@,
        IoReason::WriteZero => "write_zero"@,
        IoReason::Interrupted => "interrupted"@,
        IoReason::Unknown => "unknown"@,
    }
}

/// The fixed mapping from a transport failure reason to its tag.
pub fn io_reason_tag(reason: IoReason) -> (tag: &'static str)
    ensures
        tag@ == spec_io_reason_tag(reason),
{
    match reason {
        IoReason::NotFound => "not_found",
        IoReason::PermissionDenied => "permission_denied",
        IoReason::ConnectionRefused => "connection_refused",
        IoReason::ConnectionReset => "connection_reset",
        IoReason::ConnectionAborted => "connection_aborted",
        IoReason::NotConnected => "not_connected",
        IoReason::AddrInUse => "addr_in_use",
        IoReason::AddrNotAvailable => "addr_not_available",
        IoReason::BrokenPipe => "broken_pipe",
        IoReason::AlreadyExists => "already_exists",
        IoReason::WouldBlock => "would_block",
        IoReason::InvalidInput => "invalid_input",
        IoReason::InvalidData => "invalid_data",
        IoReason::TimedOut => "timed_out",
        IoReason::WriteZero => "write_zero",
        IoReason::Interrupted => "interrupted",
        IoReason::Unknown => "unknown",
    }
}

impl Error {
    /// An error of the given kind, with no details.
    pub fn new(kind: ErrorKind) -> (e: Error)
        ensures
            e@.kind == kind,
            e@.details is None,
    {
        Error { kind, details: None }
    }

    /// The fixed conversion of a transport failure into the taxonomy:
    /// the kind keeps the reason, the details carry its tag.
    pub fn from_io(reason: IoReason) -> (e: Error)
        ensures
            e@.kind == ErrorKind::Io(reason),
            e@.details == Some(Val::Text(spec_io_reason_tag(reason))),
    {
        Error { kind: ErrorKind::Io(reason), details: Some(Value::Text(io_reason_tag(reason).to_owned())) }
    }

    /// A one-line account of the error, by kind.
    pub fn description(&self) -> (d: &'static str)
        ensures
            self.kind matches ErrorKind::Io(_) ==> d@ == "I/O operation failed."@,
            self.kind is Disconnected ==> d@ == "Channel is disconnected."@,
            self.kind is Decoding ==> d@ == "Payload could not be decoded."@,
            self.kind is InvalidArgs ==> d@ == "Invalid arguments."@,
            self.kind is Domain ==> d@ == "Domain-specific failure."@,
    {
        match self.kind {
            ErrorKind::Io(_) => "I/O operation failed.",
            ErrorKind::Disconnected => "Channel is disconnected.",
            ErrorKind::Decoding => "Payload could not be decoded.",
            ErrorKind::InvalidArgs => "Invalid arguments.",
            ErrorKind::Domain => "Domain-specific failure.",
        }
    }
}

} // verus!
