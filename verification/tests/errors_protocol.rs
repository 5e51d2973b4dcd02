//! Tests for the service error type and the protocol bodies.

use nitro_enc_svc::error::ServiceError;
use nitro_enc_svc::protocol::ErrorResponse;

#[test]
fn http_status_codes() {
    assert_eq!(ServiceError::BadRequest("x".into()).http_status(), 400);
    assert_eq!(
        ServiceError::EncryptionFailure("x".into()).http_status(),
        500
    );
    assert_eq!(ServiceError::Unavailable("x".into()).http_status(), 503);
    assert_eq!(ServiceError::Internal("x".into()).http_status(), 500);
}

#[test]
fn display_includes_message() {
    let e = ServiceError::BadRequest("missing schema header".into());
    assert!(e.display_string().contains("missing schema header"));
}

#[test]
fn display_names_the_kind() {
    let e = ServiceError::Unavailable("DEK not yet initialised".into());
    assert_eq!(e.display_string(), "service unavailable: DEK not yet initialised");
}

#[test]
fn error_response_new() {
    let e = ErrorResponse::new("bad_request", "missing schema header");
    assert_eq!(e.code, "bad_request");
    assert!(e.message.contains("missing schema header"));
}
