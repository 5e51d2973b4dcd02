//! Top-level service error type shared by every component.

use vstd::prelude::*;

verus! {

/// Top-level service error.
///
/// Variants map to the HTTP status code returned to callers:
/// `BadRequest` maps to 400, `Unavailable` to 503, and both
/// `EncryptionFailure` and `Internal` to 500.
#[derive(Debug)]
pub enum ServiceError {
    /// The request was malformed: missing header, unknown schema, or invalid JSON.
    BadRequest(String),
    /// Encryption or decryption failed due to a crypto-layer error.
    EncryptionFailure(String),
    /// A required resource (DEK, schema) is not yet initialised or is
    /// temporarily unavailable.
    Unavailable(String),
    /// An unexpected internal error occurred.
    Internal(String),
}

impl ServiceError {
    /// The HTTP status code that should be sent for this error.
    pub open spec fn spec_http_status(&self) -> u16 {
        match self {
            ServiceError::BadRequest(_) => 400,
            ServiceError::EncryptionFailure(_) => 500,
            ServiceError::Unavailable(_) => 503,
            ServiceError::Internal(_) => 500,
        }
    }

    /// The message carried by this error.
    pub open spec fn spec_message(&self) -> Seq<char> {
        match self {
            ServiceError::BadRequest(m) => m@,
            ServiceError::EncryptionFailure(m) => m@,
            ServiceError::Unavailable(m) => m@,
            ServiceError::Internal(m) => m@,
        }
    }

    /// Returns the HTTP status code that should be sent for this error.
    pub fn http_status(&self) -> (status: u16)
        ensures
            status == self.spec_http_status(),
    {
        match self {
            ServiceError::BadRequest(_) => 400,
            ServiceError::EncryptionFailure(_) => 500,
            ServiceError::Unavailable(_) => 503,
            ServiceError::Internal(_) => 500,
        }
    }

    /// Renders the error as `<kind>: <message>`, the form in which it is
    /// logged and attached to responses.
    pub fn display_string(&self) -> (text: String)
        ensures
            text@ == self.spec_prefix() + self.spec_message(),
    {
        let prefix: &str = match self {
            ServiceError::BadRequest(_) => "bad request: ",
            ServiceError::EncryptionFailure(_) => "encryption failure: ",
            ServiceError::Unavailable(_) => "service unavailable: ",
            ServiceError::Internal(_) => "internal error: ",
        };
        let mut text = prefix.to_owned();
        let message: &String = match self {
            ServiceError::BadRequest(m) => m,
            ServiceError::EncryptionFailure(m) => m,
            ServiceError::Unavailable(m) => m,
            ServiceError::Internal(m) => m,
        };
        text.append(message.as_str());
        text
    }

    /// The human-readable kind prefix used by [`Self::display_string`].
    pub open spec fn spec_prefix(&self) -> Seq<char> {
        match self {
            ServiceError::BadRequest(_) => "bad request: "@,
            ServiceError::EncryptionFailure(_) => "encryption failure: "@,
            ServiceError::Unavailable(_) => "service unavailable: "@,
            ServiceError::Internal(_) => "internal error: "@,
        }
    }
}

} // verus!
