//! The single error type every repository operation reports.

use vstd::prelude::*;

verus! {

/// What went wrong, independent of the human-readable message.
#[derive(Clone, Copy, Debug, PartialEq, Eq, Structural)]
pub enum ErrorKind {
    /// A required file or entry was absent.
    IoError,
    /// A length prefix was truncated or a structured payload was malformed.
    FramingError,
    /// A file header carried a format version other than the supported one.
    UnsupportedVersion,
    /// An index file's header/descriptor pair could not be decoded.
    IndexCorrupt,
    /// A bundle file's framing or descriptor could not be decoded.
    BundleCorrupt,
    /// A bundle's decompressed payload is shorter than its descriptor declares.
    ChunkSizeMismatch,
    /// Compressed data could not be decompressed.
    CodecError,
    /// A chunk identifier is absent from the master index.
    UnknownChunk,
    /// An instruction carries neither a chunk nor literal bytes.
    MalformedInstruction,
}

/// Error carrying a kind and a human-readable message.
#[derive(Debug)]
pub struct TfError {
    pub kind: ErrorKind,
    pub error_message: String,
}

impl TfError {
    pub fn new(kind: ErrorKind, message: &str) -> (r: TfError)
        ensures
            r.kind == kind,
    {
        TfError { kind, error_message: message.to_owned() }
    }

    /// The kind, for callers that match on what happened.
    pub fn kind(&self) -> (r: ErrorKind)
        ensures
            r == self.kind,
    {
        self.kind
    }

    /// The human-readable message.
    pub fn message(&self) -> (r: &str)
        ensures
            r@ == self.error_message@,
    {
        self.error_message.as_str()
    }
}

/// What a filesystem error said, for error reporting. Relies on
/// std::io::Error's Display implementation producing the error's
/// description.
#[verifier::external_body]
fn io_error_message(error: &std::io::Error) -> (r: String) {
    format!("{}", error)
}

/// Declares std::io::Error so that results carrying it can cross the
/// library's boundary; nothing is assumed of its values.
#[verifier::external_type_specification]
#[verifier::external_body]
pub struct ExIoError(std::io::Error);

/// Turn a filesystem result into one whose error is the plain message.
pub fn io_result<Type>(result: Result<Type, std::io::Error>) -> (r: Result<Type, String>)
    ensures
        match result {
            Ok(v) => r is Ok && r->Ok_0 == v,
            Err(_) => r is Err,
        },
{
    match result {
        Ok(v) => Ok(v),
        Err(e) => Err(io_error_message(&e)),
    }
}

} // verus!
