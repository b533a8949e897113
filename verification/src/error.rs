//! What can go wrong.
use vstd::prelude::*;

verus! {

/// An error, with an explanation or the name of what it is about.
#[derive(Debug, Clone)]
pub enum Error {
    DatabaseError(String),
    PackageNotFound(String),
    BackendUnavailable(String),
    TransactionError(String),
    NetworkError(String),
    PermissionDenied(String),
    Other(String),
}

/// The contents of an error.
pub enum ErrorModel {
    DatabaseError(Seq<char>),
    PackageNotFound(Seq<char>),
    BackendUnavailable(Seq<char>),
    TransactionError(Seq<char>),
    NetworkError(Seq<char>),
    PermissionDenied(Seq<char>),
    Other(Seq<char>),
}

impl View for Error {
    type V = ErrorModel;

    open spec fn view(&self) -> ErrorModel {
        match *self {
            Error::DatabaseError(s) => ErrorModel::DatabaseError(s@),
            Error::PackageNotFound(s) => ErrorModel::PackageNotFound(s@),
            Error::BackendUnavailable(s) => ErrorModel::BackendUnavailable(s@),
            Error::TransactionError(s) => ErrorModel::TransactionError(s@),
            Error::NetworkError(s) => ErrorModel::NetworkError(s@),
            Error::PermissionDenied(s) => ErrorModel::PermissionDenied(s@),
            Error::Other(s) => ErrorModel::Other(s@),
        }
    }
}

} // verus!
