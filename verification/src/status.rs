//! Why a command is abandoned and what the host is told about it.

use vstd::prelude::*;

verus! {

/// The reason a command was abandoned. Whatever the reason, the command
/// state cell is idle afterwards.
#[derive(Clone, Copy, Debug, PartialEq, Eq, Structural)]
pub enum Failure {
    /// A command that carries a payload started with an empty chunk.
    NothingReceived,
    /// Something was handed to a task that does not exist.
    NoTask,
    /// A chunk for another opcode arrived while a command was in flight.
    OpcodeMismatch,
    /// The active task was handed something its current step does not wait
    /// for.
    UnexpectedEvent,
    /// The opcode is not in the table.
    UnknownOpcode,
    /// A field of the payload is invalid.
    Malformed,
    /// A stream was complete before its chunk ended.
    TrailingData,
    /// The user declined the prompt.
    Declined,
    /// Key derivation or signing failed, or returned something unusable.
    CryptoFailure,
    /// The response does not fit the outgoing buffer.
    Overflow,
}

/// The three classes of failure.
#[derive(Clone, Copy, Debug, PartialEq, Eq, Structural)]
pub enum FailureKind {
    /// The input was invalid or somebody said no.
    Reject,
    /// The host did not follow the chunk protocol.
    ProtocolViolation,
    /// No safe response exists; the device must halt.
    FatalFault,
}

/// The failure codes the host can be sent.
#[derive(Clone, Copy, Debug, PartialEq, Eq, Structural)]
pub enum Status {
    NothingReceived,
    Rejected,
    Unknown,
}

impl Failure {
    /// The class of this failure.
    pub open spec fn kind_of(self) -> FailureKind {
        match self {
            Failure::NothingReceived
            | Failure::NoTask
            | Failure::OpcodeMismatch
            | Failure::UnexpectedEvent => FailureKind::ProtocolViolation,
            Failure::UnknownOpcode
            | Failure::Malformed
            | Failure::TrailingData
            | Failure::Declined
            | Failure::CryptoFailure => FailureKind::Reject,
            Failure::Overflow => FailureKind::FatalFault,
        }
    }

    /// The code sent to the host for this failure. A fatal fault sends
    /// nothing useful; it is listed as unknown.
    pub open spec fn status_of(self) -> Status {
        match self {
            Failure::NothingReceived => Status::NothingReceived,
            Failure::UnknownOpcode
            | Failure::Malformed
            | Failure::TrailingData
            | Failure::Declined
            | Failure::CryptoFailure => Status::Rejected,
            Failure::NoTask
            | Failure::OpcodeMismatch
            | Failure::UnexpectedEvent
            | Failure::Overflow => Status::Unknown,
        }
    }

    /// The class of this failure.
    pub fn kind(self) -> (kind: FailureKind)
        ensures
            kind == self.kind_of(),
    {
        match self {
            Failure::NothingReceived
            | Failure::NoTask
            | Failure::OpcodeMismatch
            | Failure::UnexpectedEvent => FailureKind::ProtocolViolation,
            Failure::UnknownOpcode
            | Failure::Malformed
            | Failure::TrailingData
            | Failure::Declined
            | Failure::CryptoFailure => FailureKind::Reject,
            Failure::Overflow => FailureKind::FatalFault,
        }
    }

    /// The code to send to the host.
    pub fn status(self) -> (status: Status)
        ensures
            status == self.status_of(),
    {
        match self {
            Failure::NothingReceived => Status::NothingReceived,
            Failure::UnknownOpcode
            | Failure::Malformed
            | Failure::TrailingData
            | Failure::Declined
            | Failure::CryptoFailure => Status::Rejected,
            Failure::NoTask
            | Failure::OpcodeMismatch
            | Failure::UnexpectedEvent
            | Failure::Overflow => Status::Unknown,
        }
    }
}

} // verus!
