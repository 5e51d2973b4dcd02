//! Request and response types exchanged with callers.
//!
//! These are the plain data shapes of the service's HTTP surface; the
//! transport layer serialises them as JSON.

use vstd::prelude::*;

verus! {

/// Standard error response body returned on any non-2xx status.
pub struct ErrorResponse {
    /// Short machine-readable error code (e.g. `bad_request`).
    pub code: String,
    /// Human-readable description safe to expose to callers.
    pub message: String,
}

impl ErrorResponse {
    /// Construct an [`ErrorResponse`] from a code and message.
    pub fn new(code: &str, message: &str) -> (r: ErrorResponse)
        ensures
            r.code@ == code@,
            r.message@ == message@,
    {
        ErrorResponse { code: code.to_owned(), message: message.to_owned() }
    }
}

/// Response body for the health endpoint.
pub struct HealthResponse {
    /// Overall service status: `ok` or `degraded`.
    pub status: String,
    /// Whether the DEK is currently loaded and ready.
    pub dek_ready: bool,
    /// Number of schemas currently cached.
    pub schemas_loaded: usize,
}

} // verus!
