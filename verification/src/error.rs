//! Library errors.

use vstd::prelude::*;

verus! {

/// The classes of errors the library reports.
#[derive(Debug, Clone, Copy, PartialEq, Eq, Structural)]
pub enum ErrorKind {
    InvalidArgument,
    Operator,
    ElemRestriction,
    QFunction,
    Basis,
    BackendNotSupported,
}

/// An error: its class and a message for the user.
#[derive(Debug)]
pub enum ReedError {
    InvalidArgument(String),
    Operator(String),
    ElemRestriction(String),
    QFunction(String),
    Basis(String),
    BackendNotSupported(String),
}

/// Result alias used by every fallible function of the library.
pub type ReedResult<T> = Result<T, ReedError>;

impl View for ReedError {
    type V = (ErrorKind, Seq<char>);

    open spec fn view(&self) -> (ErrorKind, Seq<char>) {
        match self {
            ReedError::InvalidArgument(s) => (ErrorKind::InvalidArgument, s@),
            ReedError::Operator(s) => (ErrorKind::Operator, s@),
            ReedError::ElemRestriction(s) => (ErrorKind::ElemRestriction, s@),
            ReedError::QFunction(s) => (ErrorKind::QFunction, s@),
            ReedError::Basis(s) => (ErrorKind::Basis, s@),
            ReedError::BackendNotSupported(s) => (ErrorKind::BackendNotSupported, s@),
        }
    }
}

impl ReedError {
    /// The class of the error.
    pub fn kind(&self) -> (k: ErrorKind)
        ensures
            k == self@.0,
    {
        match self {
            ReedError::InvalidArgument(_) => ErrorKind::InvalidArgument,
            ReedError::Operator(_) => ErrorKind::Operator,
            ReedError::ElemRestriction(_) => ErrorKind::ElemRestriction,
            ReedError::QFunction(_) => ErrorKind::QFunction,
            ReedError::Basis(_) => ErrorKind::Basis,
            ReedError::BackendNotSupported(_) => ErrorKind::BackendNotSupported,
        }
    }

    /// The message of the error.
    pub fn message(&self) -> (s: &str)
        ensures
            s@ == self@.1,
    {
        match self {
            ReedError::InvalidArgument(s) => s.as_str(),
            ReedError::Operator(s) => s.as_str(),
            ReedError::ElemRestriction(s) => s.as_str(),
            ReedError::QFunction(s) => s.as_str(),
            ReedError::Basis(s) => s.as_str(),
            ReedError::BackendNotSupported(s) => s.as_str(),
        }
    }
}

/// `r` is the error of class `kind` with the text `message`.
pub open spec fn refused<A>(r: ReedResult<A>, kind: ErrorKind, message: Seq<char>) -> bool {
    r matches Err(e) && e@ == (kind, message)
}

} // verus!
