//! The error taxonomy shared by the codec, the framing layer and the
//! connection.

use vstd::prelude::*;

verus! {

/// How a byte stream broke the framing discipline.
#[derive(Clone, Copy, Debug, PartialEq, Eq, Structural)]
pub enum ProtocolViolation {
    /// The stream ended while part of a frame was still buffered.
    Truncated,
    /// A length prefix declared more bytes than the configured maximum.
    Oversize,
}

/// Everything that can go wrong on one connection.
#[derive(Clone, Copy, Debug, PartialEq, Eq, Structural)]
pub enum MsgrError {
    /// The transport failed while reading, writing, accepting or connecting.
    SocketReadError,
    /// A payload could not be turned into bytes.
    MessageSerializationError,
    /// Bytes did not parse as an encoded message.
    MessageDeserializationError,
    /// The framing of the stream was violated.
    ProtocolError(ProtocolViolation),
}

impl MsgrError {
    /// The text shown to a person for this error.
    pub open spec fn spec_description(self) -> Seq<char> {
        match self {
            MsgrError::SocketReadError => "Cannot read from socket"@,
            MsgrError::MessageSerializationError => "Cannot serialize message"@,
            MsgrError::MessageDeserializationError => "Cannot deserialize message"@,
            MsgrError::ProtocolError(ProtocolViolation::Truncated) => "Stream ended inside a frame"@,
            MsgrError::ProtocolError(ProtocolViolation::Oversize) => "Frame exceeds the maximum size"@,
        }
    }

    /// Renders the error as text.
    pub fn description(&self) -> (text: String)
        ensures
            text@ == self.spec_description(),
    {
        match self {
            MsgrError::SocketReadError => "Cannot read from socket".to_owned(),
            MsgrError::MessageSerializationError => "Cannot serialize message".to_owned(),
            MsgrError::MessageDeserializationError => "Cannot deserialize message".to_owned(),
            MsgrError::ProtocolError(ProtocolViolation::Truncated) => "Stream ended inside a frame".to_owned(),
            MsgrError::ProtocolError(ProtocolViolation::Oversize) => "Frame exceeds the maximum size".to_owned(),
        }
    }

    /// Whether the error belongs to the framing layer.
    pub fn is_protocol_error(&self) -> (b: bool)
        ensures
            b == (*self matches MsgrError::ProtocolError(_)),
    {
        match self {
            MsgrError::ProtocolError(_) => true,
            _ => false,
        }
    }
}

} // verus!
