//! Error kinds reported by the library.

use vstd::prelude::*;

verus! {

/// The error cases of the library: a malformed catalog string, a transport
/// failure (either on the request itself or while decoding its body), an
/// operation that is not available, and a missing configuration setting.
/// Each variant that carries a `String` carries enough context to identify
/// the offending input.
#[derive(Debug, PartialEq, Eq, PartialOrd, Ord)]
pub enum EcError {
    /// A string could not be parsed; the payload describes the input.
    ParseError(String),
    /// The transport reported a failure on a request.
    ReqwestGetError(String),
    /// The transport's response body could not be decoded.
    ReqwestJsonError(String),
    /// The requested operation is not available.
    NotImplemented,
    /// A required configuration variable was absent; the payload names it.
    EnvVarError(String),
}

} // verus!
