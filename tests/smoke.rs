use portfolio_backend::api_errors::ApiError;

#[test]
fn status_codes_follow_error_kinds() {
    assert_eq!(ApiError::PasswordTooShort.status_code(), 400);
    assert_eq!(ApiError::InvalidSession.status_code(), 403);
    assert_eq!(ApiError::NoSuchSlug.status_code(), 404);
    assert_eq!(ApiError::DbError.status_code(), 500);
    assert_eq!(ApiError::DbConnAcquire.status_code(), 503);
}
