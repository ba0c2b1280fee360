//! The error taxonomy: I/O-side failures of the surrounding tool, and the
//! three data-level failures that rendering a report can surface.

use vstd::prelude::*;

verus! {

/// How the tool can fail. The first four variants belong to the
/// surrounding tool (fetching, parsing, writing and reading the cached
/// dataset); the last three are data-level failures of rendering.
#[derive(Debug)]
pub enum Error {
    FetchError,
    ParseError,
    WriteError,
    ReadError,
    /// The requested feature key is absent from the dataset.
    FeatureNotFound(String),
    /// A feature's stats reference a browser key missing from the dataset's
    /// browsers: a data-integrity violation, never silently skipped.
    BrowserNotFound(String),
    /// A version present in a browser's ordered list has no entry in the
    /// feature's stats for that browser.
    LookupError { version: String, browser: String },
}

/// The mathematical shape of an `Error`: each string payload viewed as a
/// sequence of characters.
pub ghost enum ErrorModel {
    FetchError,
    ParseError,
    WriteError,
    ReadError,
    FeatureNotFound(Seq<char>),
    BrowserNotFound(Seq<char>),
    LookupError { version: Seq<char>, browser: Seq<char> },
}

impl View for Error {
    type V = ErrorModel;

    open spec fn view(&self) -> ErrorModel {
        match self {
            Error::FetchError => ErrorModel::FetchError,
            Error::ParseError => ErrorModel::ParseError,
            Error::WriteError => ErrorModel::WriteError,
            Error::ReadError => ErrorModel::ReadError,
            Error::FeatureNotFound(key) => ErrorModel::FeatureNotFound(key@),
            Error::BrowserNotFound(key) => ErrorModel::BrowserNotFound(key@),
            Error::LookupError { version, browser } => ErrorModel::LookupError {
                version: version@,
                browser: browser@,
            },
        }
    }
}

/// Collapses any failure cause into `Error::WriteError`.
pub fn into_write_error<T>(cause: T) -> (r: Error)
    ensures
        r == Error::WriteError,
{
    Error::WriteError
}

} // verus!
