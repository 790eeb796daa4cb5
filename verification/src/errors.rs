use vstd::prelude::*;

verus! {

/// The failure kinds a client operation can report.
///
/// Every operation yields either a fully populated typed result or exactly
/// one of these errors; nothing is retried and nothing is logged here.
#[derive(Clone, Copy, Debug, PartialEq, Eq, Structural)]
pub enum ApiError {
    /// The builder was asked to create a client without a usable endpoint.
    ConfigurationError,
    /// The transfer failed before any HTTP status was obtained
    /// (connection, name resolution, TLS, timeout).
    TransportError,
    /// An HTTP response arrived but its status was not in the 2xx range.
    RequestFailedError,
    /// The response body could not be decoded into the expected typed
    /// structure (missing, extra or mistyped fields, or malformed text).
    DecodeError,
}

} // verus!
