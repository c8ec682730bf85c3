use vstd::prelude::*;
use vstd::string::StringExecFns;

verus! {

/// The failure categories that operations of this crate report.
#[derive(Clone, Copy, PartialEq, Eq, Structural, Debug)]
pub enum Status {
    /// Malformed locator text, malformed chunk-id fragment, malformed face or
    /// coordinate syntax, or an asset whose stored type does not match the
    /// caller's expected type.
    InvalidArgument,
    /// A requested chunk id is absent from a container.
    NotFound,
    /// An unsupported locator scheme, or a container-wide read without a chunk id.
    Unimplemented,
    /// A mesh face references a vertex, normal or uv index beyond the parsed arrays.
    OutOfRange,
    /// An underlying byte-source failure, reported by the caller's source.
    Io,
}

/// An error: a category together with a diagnostic message.
#[derive(Debug)]
pub struct Error {
    pub status: Status,
    pub message: String,
}

impl Error {
    pub fn new(status: Status, message: String) -> (e: Error)
        ensures
            e.status == status,
            e.message@ == message@,
    {
        Error { status, message }
    }

    /// Builds an error from a message literal.
    pub fn text(status: Status, message: &str) -> (e: Error)
        ensures
            e.status == status,
            e.message@ == message@,
    {
        Error { status, message: String::from_str(message) }
    }
}

} // verus!
