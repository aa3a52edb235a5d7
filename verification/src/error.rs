//! The flat error taxonomy shared by constructors, validators and parsers.

use vstd::prelude::*;

verus! {

/// What a constructor, a validator or a parser reports. Errors are values:
/// nothing in this crate aborts on malformed input.
#[derive(Clone, Copy, Debug, PartialEq, Eq, Structural)]
pub enum IggyError {
    /// Malformed byte stream: too short, unknown discriminant, or a declared
    /// length that the remaining bytes cannot satisfy.
    InvalidCommand,
    /// An identifier that is empty, too long, or of the wrong width for its kind.
    InvalidIdentifier,
    InvalidStreamName,
    InvalidTopicName,
    InvalidConsumerGroupName,
    InvalidUserName,
    InvalidPassword,
    /// A header key that is empty, longer than 255 bytes, or not UTF-8.
    InvalidHeaderKey,
    /// A header value of the wrong length for its kind, or header bytes that
    /// do not split into whole records.
    InvalidHeaderValue,
    /// A partitioning value whose length breaks the rule of its kind.
    InvalidKeyValueLength,
    /// A batch without messages.
    InvalidMessagesCount,
    /// A message, or a whole batch, without payload bytes.
    EmptyMessagePayload,
    /// A message whose declared payload length runs past the end of the buffer.
    InvalidMessagePayloadLength,
    /// Payload bytes above `MAX_PAYLOAD_SIZE`.
    TooBigMessagePayload,
    /// Header value bytes above `MAX_HEADERS_SIZE`.
    TooBigHeadersPayload,
    InvalidOffset,
    InvalidReplicationFactor,
    InvalidPartitionsCount,
    InvalidMessageExpiry,
    InvalidMaxTopicSize,
}

} // verus!
