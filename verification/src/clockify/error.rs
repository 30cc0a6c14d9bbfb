//! The client's errors.

use vstd::prelude::*;

verus! {

/// What can go wrong between the client and the service; each variant
/// carries a description.
#[derive(Clone, Debug, PartialEq, Eq)]
pub enum Error {
    /// The connection failed, or an address could not be read.
    IO(String),
    /// The client could not put a request or an address together.
    Internal(String),
    /// An address lacks a part that the client needs.
    InvalidURI(String),
    /// The service refused a request or answered in an unknown shape.
    RestAPI(String),
}

/// Mathematical value of an [`Error`].
pub enum ErrorView {
    IO(Seq<char>),
    Internal(Seq<char>),
    InvalidURI(Seq<char>),
    RestAPI(Seq<char>),
}

impl View for Error {
    type V = ErrorView;

    open spec fn view(&self) -> ErrorView {
        match *self {
            Error::IO(s) => ErrorView::IO(s@),
            Error::Internal(s) => ErrorView::Internal(s@),
            Error::InvalidURI(s) => ErrorView::InvalidURI(s@),
            Error::RestAPI(s) => ErrorView::RestAPI(s@),
        }
    }
}

impl Error {
    /// The description that the error carries.
    pub fn message(&self) -> (r: &String)
        ensures
            r@ == match self@ {
                ErrorView::IO(s) => s,
                ErrorView::Internal(s) => s,
                ErrorView::InvalidURI(s) => s,
                ErrorView::RestAPI(s) => s,
            },
    {
        match self {
            Error::IO(s) => s,
            Error::Internal(s) => s,
            Error::InvalidURI(s) => s,
            Error::RestAPI(s) => s,
        }
    }
}

} // verus!
