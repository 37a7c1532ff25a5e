use vstd::prelude::*;

verus! {

/// The ways in which a query can fail.
#[derive(Debug, Clone, Copy, PartialEq, Eq, Structural)]
pub enum RequestError {
    /// A field held bytes that are not valid UTF-8.
    DecodeError,
    /// A field held text that is not a decimal integer.
    ParseError,
    /// The channel failed to send or to receive.
    IoError,
    /// The datagram ended before a required field.
    Missing,
    /// The token pair that came back is not the one that was sent.
    TokenError {
        wanted_extra_token: u16,
        wanted_token: u8,
        received_extra_token: u16,
        received_token: u8,
    },
}

impl RequestError {
    /// What the error says, in words.
    pub open spec fn message_text(&self) -> Seq<char> {
        match self {
            RequestError::DecodeError => "decode error"@,
            RequestError::ParseError => "parse error"@,
            RequestError::IoError => "io error"@,
            RequestError::Missing => "missing data"@,
            RequestError::TokenError { .. } => "token received by server is invalid"@,
        }
    }

    /// What the error says, in words.
    pub fn message(&self) -> (r: String)
        ensures
            r@ == self.message_text(),
    {
        match self {
            RequestError::DecodeError => "decode error".to_owned(),
            RequestError::ParseError => "parse error".to_owned(),
            RequestError::IoError => "io error".to_owned(),
            RequestError::Missing => "missing data".to_owned(),
            RequestError::TokenError { .. } => "token received by server is invalid".to_owned(),
        }
    }
}

} // verus!
