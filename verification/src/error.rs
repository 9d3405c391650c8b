//! What a file request can fail with.
use vstd::prelude::*;

verus! {

/// Why a request was refused or failed.
#[derive(Debug, PartialEq, Eq)]
pub enum FsError {
    /// A required argument or binding was absent.
    MissingArgument(String),
    /// An argument was present but unusable.
    InvalidArgument {
        /// The argument's name.
        name: String,
        /// What was wrong with it.
        detail: String,
    },
    /// The endpoint refused the request or failed to serve it.
    Endpoint(String),
}

/// An error, as contracts speak of it.
pub enum ErrorModel {
    MissingArgument(Seq<char>),
    InvalidArgument { name: Seq<char>, detail: Seq<char> },
    Endpoint(Seq<char>),
}

impl View for FsError {
    type V = ErrorModel;

    open spec fn view(&self) -> ErrorModel {
        match self {
            FsError::MissingArgument(name) => ErrorModel::MissingArgument(name@),
            FsError::InvalidArgument { name, detail } => ErrorModel::InvalidArgument {
                name: name@,
                detail: detail@,
            },
            FsError::Endpoint(message) => ErrorModel::Endpoint(message@),
        }
    }
}

/// The refusal of a `path` for the reason `detail`.
pub open spec fn denial(detail: Seq<char>) -> ErrorModel {
    ErrorModel::InvalidArgument { name: "path"@, detail }
}

/// Refuses a `path` for the reason `detail`.
pub fn deny(detail: &str) -> (error: FsError)
    ensures
        error@ == denial(detail@),
{
    FsError::InvalidArgument { name: "path".to_owned(), detail: detail.to_owned() }
}

} // verus!
