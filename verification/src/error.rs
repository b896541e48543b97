//! The errors that schema evolution reports.
use vstd::prelude::*;
use vstd::string::*;

use crate::text;

verus! {

/// An error, by the kind of rule that was broken, with a message for the user.
#[derive(Debug, PartialEq, Eq)]
pub enum Error {
    /// An error without a kind of its own.
    Generic(String),
    /// A state that this library should never reach.
    InternalError(String),
    /// The table breaks the table protocol.
    InvalidProtocol(String),
    /// The schema, or a change to it, is not valid.
    Schema(String),
    /// The table needs a feature that its protocol does not list.
    Unsupported(String),
}

/// The result of an operation that can fail with an [`Error`].
pub type DeltaResult<T> = Result<T, Error>;

/// The mathematical counterpart of [`Error`].
pub enum ErrorView {
    Generic(Seq<char>),
    InternalError(Seq<char>),
    InvalidProtocol(Seq<char>),
    Schema(Seq<char>),
    Unsupported(Seq<char>),
}

impl View for Error {
    type V = ErrorView;

    open spec fn view(&self) -> ErrorView {
        match self {
            Error::Generic(message) => ErrorView::Generic(message@),
            Error::InternalError(message) => ErrorView::InternalError(message@),
            Error::InvalidProtocol(message) => ErrorView::InvalidProtocol(message@),
            Error::Schema(message) => ErrorView::Schema(message@),
            Error::Unsupported(message) => ErrorView::Unsupported(message@),
        }
    }
}

impl ErrorView {
    /// What the user is shown: a lead that tells the kind, then the message.
    pub open spec fn text(self) -> Seq<char> {
        match self {
            ErrorView::Generic(message) => "Generic delta kernel error: "@ + message,
            ErrorView::InternalError(message) => "Internal error "@ + message
                + ". This is a kernel bug, please report."@,
            ErrorView::InvalidProtocol(message) => "Invalid protocol action in the delta log: "@
                + message,
            ErrorView::Schema(message) => "Schema error: "@ + message,
            ErrorView::Unsupported(message) => "Unsupported: "@ + message,
        }
    }
}

impl Error {
    /// What the user is shown: a lead that tells the kind, then the message.
    pub fn to_string(&self) -> (text: String)
        ensures
            text@ == self@.text(),
    {
        match self {
            Error::Generic(message) => text::join2(
                "Generic delta kernel error: ",
                message.as_str(),
            ),
            Error::InternalError(message) => text::join3(
                "Internal error ",
                message.as_str(),
                ". This is a kernel bug, please report.",
            ),
            Error::InvalidProtocol(message) => text::join2(
                "Invalid protocol action in the delta log: ",
                message.as_str(),
            ),
            Error::Schema(message) => text::join2("Schema error: ", message.as_str()),
            Error::Unsupported(message) => text::join2("Unsupported: ", message.as_str()),
        }
    }
}

} // verus!
