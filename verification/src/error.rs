//! The ways in which handling one frame can fail.

use vstd::prelude::*;

verus! {

/// Why a frame was turned away. A failure concerns the one frame only: the
/// connection it came from stays open and no other connection is affected.
#[derive(Clone, Copy, Debug, PartialEq, Eq, Structural)]
pub enum SignalError {
    /// An identity in the message is not a UUID.
    MalformedIdentity,
    /// The frame is not one of the six messages.
    MalformedMessage,
    /// A session with the sharer's identity is already open.
    SessionAlreadyExists,
    /// The session that the message names is not open.
    SessionNotFound,
    /// The peer that the message names is not registered.
    PeerNotFound,
    /// The recipient's connection is closed.
    TransportSendFailure,
}

impl SignalError {
    /// The failure in words, for a log line.
    pub open spec fn message_text(self) -> Seq<char> {
        match self {
            SignalError::MalformedIdentity => "Identity is not a UUID"@,
            SignalError::MalformedMessage => "Frame is not a signalling message"@,
            SignalError::SessionAlreadyExists => "Session already exists"@,
            SignalError::SessionNotFound => "Session does not exist"@,
            SignalError::PeerNotFound => "Peer does not exist"@,
            SignalError::TransportSendFailure => "Recipient's connection is closed"@,
        }
    }

    /// The failure in words, for a log line.
    pub fn message(&self) -> (text: &'static str)
        ensures
            text@ == self.message_text(),
    {
        match self {
            SignalError::MalformedIdentity => "Identity is not a UUID",
            SignalError::MalformedMessage => "Frame is not a signalling message",
            SignalError::SessionAlreadyExists => "Session already exists",
            SignalError::SessionNotFound => "Session does not exist",
            SignalError::PeerNotFound => "Peer does not exist",
            SignalError::TransportSendFailure => "Recipient's connection is closed",
        }
    }
}

} // verus!
