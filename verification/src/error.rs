//! Errors of the sandbox.

use vstd::prelude::*;

verus! {

/// Why a request was refused, or why it failed.
#[derive(Clone, Debug, PartialEq, Eq)]
pub enum Error {
    /// What the request names does not exist.
    NotFound(String),
    /// What the request would bring about is already there.
    AlreadyExists(String),
    /// The request does not fit the state that things are in.
    FailedPrecondition(String),
    /// An argument of the request is malformed.
    InvalidArgument(String),
    /// The request is not supported.
    Unimplemented(String),
    /// Any other failure.
    Any(String),
}

/// An error whose text is a sequence of characters.
pub enum ErrorView {
    NotFound(Seq<char>),
    AlreadyExists(Seq<char>),
    FailedPrecondition(Seq<char>),
    InvalidArgument(Seq<char>),
    Unimplemented(Seq<char>),
    Any(Seq<char>),
}

impl View for Error {
    type V = ErrorView;

    open spec fn view(&self) -> ErrorView {
        match self {
            Error::NotFound(text) => ErrorView::NotFound(text@),
            Error::AlreadyExists(text) => ErrorView::AlreadyExists(text@),
            Error::FailedPrecondition(text) => ErrorView::FailedPrecondition(text@),
            Error::InvalidArgument(text) => ErrorView::InvalidArgument(text@),
            Error::Unimplemented(text) => ErrorView::Unimplemented(text@),
            Error::Any(text) => ErrorView::Any(text@),
        }
    }
}

} // verus!
