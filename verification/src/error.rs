//! The error values of the library and their messages.

use vstd::prelude::*;

verus! {

/// What can go wrong between this library and the game client.
#[derive(Debug, Clone, Copy, PartialEq, Eq, Structural)]
pub enum ApiError {
    /// No process of the game client was found.
    NotRunning,
    /// A request to the client's API could not be carried out.
    RequestError,
    /// The client's process was found, but its launch arguments name no port.
    MissingPort,
    /// The client's process was found, but its launch arguments hold no token.
    MissingKey,
}

impl ApiError {
    /// The text that describes this error.
    pub open spec fn message_text(self) -> Seq<char> {
        match self {
            ApiError::NotRunning => "no league client process is running"@,
            ApiError::RequestError => "error in request"@,
            ApiError::MissingPort => "could not find port in arg list"@,
            ApiError::MissingKey => "could not find key in arg list"@,
        }
    }

    /// The text that describes this error.
    pub fn message(&self) -> (text: String)
        ensures
            text@ == self.message_text(),
    {
        match self {
            ApiError::NotRunning => String::from_str("no league client process is running"),
            ApiError::RequestError => String::from_str("error in request"),
            ApiError::MissingPort => String::from_str("could not find port in arg list"),
            ApiError::MissingKey => String::from_str("could not find key in arg list"),
        }
    }
}

/// What can end one pass of the interactive loop early.
#[derive(Debug, Clone, Copy, PartialEq, Eq, Structural)]
pub enum ChatBrokenError {
    /// The session with the client failed.
    ApiError(ApiError),
    /// A response could not be received or decoded.
    ReqwestError,
    /// The client answered with data of an unexpected shape.
    InvalidDataError,
    /// The terminal could not be read or written.
    IoError,
    /// A number could not be read from text.
    ParseIntError,
    /// The selection names no entry of the list shown.
    InvalidIndexError,
}

impl From<ApiError> for ChatBrokenError {
    /// A failed session, as what ends the pass.
    fn from(error: ApiError) -> (wrapped: ChatBrokenError) {
        ChatBrokenError::ApiError(error)
    }
}

impl vstd::std_specs::convert::FromSpecImpl<ApiError> for ChatBrokenError {
    open spec fn obeys_from_spec() -> bool {
        true
    }

    open spec fn from_spec(error: ApiError) -> ChatBrokenError {
        ChatBrokenError::ApiError(error)
    }
}

impl ChatBrokenError {
    /// The text that describes this error.
    pub open spec fn message_text(self) -> Seq<char> {
        match self {
            ChatBrokenError::ApiError(_) => "lcu api error"@,
            ChatBrokenError::ReqwestError => "reqwest error"@,
            ChatBrokenError::InvalidDataError => "lcu api returned invalid data"@,
            ChatBrokenError::IoError => "error with terminal input"@,
            ChatBrokenError::ParseIntError => "could not parse string as int"@,
            ChatBrokenError::InvalidIndexError => "invalid index"@,
        }
    }

    /// The text that describes this error.
    pub fn message(&self) -> (text: String)
        ensures
            text@ == self.message_text(),
    {
        match self {
            ChatBrokenError::ApiError(_) => String::from_str("lcu api error"),
            ChatBrokenError::ReqwestError => String::from_str("reqwest error"),
            ChatBrokenError::InvalidDataError => String::from_str("lcu api returned invalid data"),
            ChatBrokenError::IoError => String::from_str("error with terminal input"),
            ChatBrokenError::ParseIntError => String::from_str("could not parse string as int"),
            ChatBrokenError::InvalidIndexError => String::from_str("invalid index"),
        }
    }
}

} // verus!
