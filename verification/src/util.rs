//! Errors.

use crate::numeral;
use vstd::prelude::*;
use vstd::string::*;

verus! {

/// A frame that is longer than any frame may be.
#[derive(Debug)]
pub struct FrameTooLarge {
    /// The length that was asked for.
    pub length: usize,
}

/// What can go wrong in talking to an ADB server.
#[derive(Debug)]
pub enum AdbError {
    /// The data that was to be sent or that was received is invalid at the level of frames.
    IOError(FrameTooLarge),
    /// Text is not UTF-8.
    Utf8StringError(core::str::Utf8Error),
    /// A length is not a number.
    ParseIntError(core::num::ParseIntError),
    /// The ADB server reports a failure, or an unexpected answer, or does not answer.
    FailedResponseStatus(String),
    /// The ADB server sent a status that the protocol does not know.
    UnknownResponseStatus(String),
}

/// An error as a mathematical value.
pub enum ErrorView {
    FrameTooLarge(nat),
    Utf8(core::str::Utf8Error),
    ParseInt(core::num::ParseIntError),
    Failed(Seq<char>),
    Unknown(Seq<char>),
}

impl View for AdbError {
    type V = ErrorView;

    open spec fn view(&self) -> ErrorView {
        match self {
            AdbError::IOError(e) => ErrorView::FrameTooLarge(e.length as nat),
            AdbError::Utf8StringError(e) => ErrorView::Utf8(*e),
            AdbError::ParseIntError(e) => ErrorView::ParseInt(*e),
            AdbError::FailedResponseStatus(message) => ErrorView::Failed(message@),
            AdbError::UnknownResponseStatus(status) => ErrorView::Unknown(status@),
        }
    }
}

impl FrameTooLarge {
    /// The error as text.
    pub fn to_string(&self) -> (text: String)
        ensures
            text@ == "Frame of length "@ + numeral::decimal(self.length as nat)
                + " is too large."@,
    {
        let mut text = "Frame of length ".to_owned();
        text.append(numeral::to_numeral(self.length, 10, 1).as_str());
        text.append(" is too large.");
        text
    }
}

impl AdbError {
    /// The error as text. The two errors of the standard library speak for themselves.
    pub fn to_string(&self) -> (text: String)
        ensures
            match self {
                AdbError::IOError(e) => text@ == "Frame of length "@ + numeral::decimal(
                    e.length as nat,
                ) + " is too large."@,
                AdbError::Utf8StringError(e) => to_string_from_display_ensures(e, text),
                AdbError::ParseIntError(e) => to_string_from_display_ensures(e, text),
                AdbError::FailedResponseStatus(message) => text@ == "FAILED response status: "@
                    + message@,
                AdbError::UnknownResponseStatus(status) => text@ == "Unknown response status: "@
                    + status@,
            },
    {
        match self {
            AdbError::IOError(e) => e.to_string(),
            AdbError::Utf8StringError(e) => e.to_string(),
            AdbError::ParseIntError(e) => e.to_string(),
            AdbError::FailedResponseStatus(message) => {
                let mut text = "FAILED response status: ".to_owned();
                text.append(message.as_str());
                text
            },
            AdbError::UnknownResponseStatus(status) => {
                let mut text = "Unknown response status: ".to_owned();
                text.append(status.as_str());
                text
            },
        }
    }
}

impl From<core::str::Utf8Error> for AdbError {
    fn from(error: core::str::Utf8Error) -> (e: AdbError) {
        AdbError::Utf8StringError(error)
    }
}

impl vstd::std_specs::convert::FromSpecImpl<core::str::Utf8Error> for AdbError {
    open spec fn obeys_from_spec() -> bool {
        true
    }

    open spec fn from_spec(error: core::str::Utf8Error) -> AdbError {
        AdbError::Utf8StringError(error)
    }
}

impl From<core::num::ParseIntError> for AdbError {
    fn from(error: core::num::ParseIntError) -> (e: AdbError) {
        AdbError::ParseIntError(error)
    }
}

impl vstd::std_specs::convert::FromSpecImpl<core::num::ParseIntError> for AdbError {
    open spec fn obeys_from_spec() -> bool {
        true
    }

    open spec fn from_spec(error: core::num::ParseIntError) -> AdbError {
        AdbError::ParseIntError(error)
    }
}

} // verus!
