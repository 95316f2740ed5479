//! The failures that the transfer logic itself detects.

use vstd::prelude::*;
use vstd::string::*;

verus! {

/// A failure found while framing or interpreting a transfer. Each one ends
/// the run of the side that meets it.
#[derive(Clone, Copy, Debug, PartialEq, Eq, Structural)]
pub enum TransferError {
    /// The first byte of a header is not the tag of a known kind.
    InvalidHeader,
    /// A payload is longer than the one-byte length field can announce.
    PayloadTooLarge,
    /// The payload of a message is not valid UTF-8 text.
    DecodeFailure,
    /// The driver reported an event that the state machine was not waiting for.
    UnexpectedEvent,
}

impl TransferError {
    /// The diagnostic line of this failure, as a sequence of characters.
    pub open spec fn diagnostic(self) -> Seq<char> {
        match self {
            TransferError::InvalidHeader => "Invalid header received"@,
            TransferError::PayloadTooLarge => "Payload exceeds 255 bytes"@,
            TransferError::DecodeFailure => "Message is not valid text"@,
            TransferError::UnexpectedEvent => "Event does not fit the state"@,
        }
    }

    /// Returns the diagnostic line to show for this failure.
    pub fn describe(&self) -> (line: String)
        ensures
            line@ == self.diagnostic(),
    {
        match self {
            TransferError::InvalidHeader => String::from_str("Invalid header received"),
            TransferError::PayloadTooLarge => String::from_str("Payload exceeds 255 bytes"),
            TransferError::DecodeFailure => String::from_str("Message is not valid text"),
            TransferError::UnexpectedEvent => String::from_str("Event does not fit the state"),
        }
    }
}

} // verus!
