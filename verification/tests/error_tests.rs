use mnemo_core::error::{sanitize_error_message, ApiErrorResponse, MnemoError};

#[test]
fn error_status_codes() {
    assert_eq!(MnemoError::UserNotFound(0).status_code(), 404);
    assert_eq!(MnemoError::Validation("bad".into()).status_code(), 400);
    assert_eq!(MnemoError::Unauthorized.status_code(), 401);
    assert_eq!(MnemoError::Forbidden.status_code(), 403);
    assert_eq!(MnemoError::Duplicate("x".into()).status_code(), 409);
    assert_eq!(MnemoError::RateLimited { retry_after_ms: 1000 }.status_code(), 429);
    assert_eq!(MnemoError::Internal("oops".into()).status_code(), 500);
    assert_eq!(MnemoError::ExtractionFailed("x".into()).status_code(), 502);
}

#[test]
fn api_error_response_from_error() {
    let resp = ApiErrorResponse::from(MnemoError::UserNotFound(0));
    assert_eq!(resp.error.code, "user_not_found");
    assert_eq!(resp.error.message, "User not found: 00000000-0000-0000-0000-000000000000");
    assert_eq!(resp.error.retry_after_ms, None);
    let resp = ApiErrorResponse::from(MnemoError::RateLimited { retry_after_ms: 5000 });
    assert_eq!(resp.error.retry_after_ms, Some(5000));
    assert_eq!(resp.error.message, "Rate limit exceeded, retry after 5000ms");
}

#[test]
fn internal_errors_are_sanitized() {
    assert_eq!(sanitize_error_message(&MnemoError::Redis("conn refused at 10.0.0.1".into())), "Storage service temporarily unavailable");
    assert_eq!(sanitize_error_message(&MnemoError::Internal("secret path".into())), "Internal server error");
    assert_eq!(
        sanitize_error_message(&MnemoError::NotFound { resource_type: "Region".into(), id: "r1".into() }),
        "Region not found: r1"
    );
    assert_eq!(MnemoError::Qdrant("x".into()).error_code(), "internal_error");
}

#[test]
fn test_error_status_codes() {
    assert_eq!(MnemoError::UserNotFound(0).status_code(), 404);
    assert_eq!(MnemoError::Validation("bad".into()).status_code(), 400);
    assert_eq!(MnemoError::Unauthorized.status_code(), 401);
    assert_eq!(MnemoError::Forbidden.status_code(), 403);
    assert_eq!(MnemoError::Duplicate("x".into()).status_code(), 409);
    assert_eq!(MnemoError::RateLimited { retry_after_ms: 1000 }.status_code(), 429);
    assert_eq!(MnemoError::Internal("oops".into()).status_code(), 500);
}

#[test]
fn test_rate_limit_error_includes_retry() {
    let err = MnemoError::RateLimited { retry_after_ms: 5000 };
    let resp = ApiErrorResponse::from(err);
    assert_eq!(resp.error.retry_after_ms, Some(5000));
}
