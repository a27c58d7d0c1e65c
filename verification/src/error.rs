use vstd::prelude::*;

verus! {

/// Everything that can go wrong inside the session core.
#[derive(Debug, Clone, Copy, PartialEq, Eq, Structural)]
pub enum SessionError {
    /// A string field holds more than 65535 bytes of UTF-8.
    StringTooLong,
    /// A byte field holds more than 65535 bytes.
    BytesTooLong,
    /// A sequence holds more than 65535 elements.
    SeqTooLong,
    /// A sequence was offered without its length.
    SeqLengthUnknown,
    /// A variant index does not fit in the one-byte tag.
    VariantIndexTooLarge,
    /// The wire format has no layout for this kind of value.
    Unsupported,
    /// The input bytes are not the encoding of any message.
    Decode,
    /// A board operation was asked for a connection that has not authenticated.
    Unauthenticated,
    /// An outbound channel refused a frame.
    SendFailed,
    /// A frame produced by the server itself could not be encoded.
    Internal,
}

impl SessionError {
    /// The text of this error as a view.
    pub open spec fn spec_message(self) -> Seq<char> {
        match self {
            SessionError::StringTooLong => "string longer than allowed"@,
            SessionError::BytesTooLong => "bytes longer than allowed"@,
            SessionError::SeqTooLong => "seq longer than allowed"@,
            SessionError::SeqLengthUnknown => "seq of unknown len is not supported"@,
            SessionError::VariantIndexTooLarge => "variant index is greater than allowed"@,
            SessionError::Unsupported => "not supported"@,
            SessionError::Decode => "invalid message"@,
            SessionError::Unauthenticated => "user not authenticated"@,
            SessionError::SendFailed => "cannot send"@,
            SessionError::Internal => "internal"@,
        }
    }

    /// A short human-readable description of the error.
    pub fn message(&self) -> (text: &'static str)
        ensures
            text@ == self.spec_message(),
    {
        match self {
            SessionError::StringTooLong => "string longer than allowed",
            SessionError::BytesTooLong => "bytes longer than allowed",
            SessionError::SeqTooLong => "seq longer than allowed",
            SessionError::SeqLengthUnknown => "seq of unknown len is not supported",
            SessionError::VariantIndexTooLarge => "variant index is greater than allowed",
            SessionError::Unsupported => "not supported",
            SessionError::Decode => "invalid message",
            SessionError::Unauthenticated => "user not authenticated",
            SessionError::SendFailed => "cannot send",
            SessionError::Internal => "internal",
        }
    }
}

} // verus!
