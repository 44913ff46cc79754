//! Error taxonomy. Validation errors are produced before any mutation;
//! store errors cover duplicate keys and malformed persisted content.

use vstd::prelude::*;
use vstd::string::StringExecFns;

verus! {

/// The error categories of the library.
#[derive(Debug)]
pub enum Error {
    /// Reserved for impossible-branch guards; never produced by normal flow.
    InvalidState,
    /// An operation referenced a path with no record.
    NotFound(String),
    /// Record-store failure: a duplicate key, or malformed persisted content.
    Store(String),
    /// Partial or final file failure outside the store.
    File(String),
    /// Request failure, or a server that rejected a resume range.
    Http(String),
    /// URL validation failure.
    Url(String),
    /// Path validation failure.
    Path(String),
}

/// The message text of an error.
pub open spec fn error_message(e: Error) -> Seq<char> {
    match e {
        Error::InvalidState => "Invalid State"@,
        Error::NotFound(s) => "Not Found: "@ + s@,
        Error::Store(s) => "Store Error: "@ + s@,
        Error::File(s) => "File Error: "@ + s@,
        Error::Http(s) => "HTTP Error: "@ + s@,
        Error::Url(s) => "URL Error: "@ + s@,
        Error::Path(s) => "Path Error: "@ + s@,
    }
}

impl Error {
    /// The message text of this error.
    pub fn message(&self) -> (r: String)
        ensures
            r@ == error_message(*self),
    {
        match self {
            Error::InvalidState => String::from_str("Invalid State"),
            Error::NotFound(s) => String::from_str("Not Found: ").concat(s.as_str()),
            Error::Store(s) => String::from_str("Store Error: ").concat(s.as_str()),
            Error::File(s) => String::from_str("File Error: ").concat(s.as_str()),
            Error::Http(s) => String::from_str("HTTP Error: ").concat(s.as_str()),
            Error::Url(s) => String::from_str("URL Error: ").concat(s.as_str()),
            Error::Path(s) => String::from_str("Path Error: ").concat(s.as_str()),
        }
    }
}

} // verus!
