use ethos_protocol::error::{ApiError, AppError};

#[test]
fn app_errors_map_to_status_code_and_message() {
    let e = AppError::NotFound.to_api_error();
    assert_eq!(e.status, 404);
    assert_eq!(e.code, "not_found");
    assert_eq!(e.message, "not found");
    assert!(e.details.is_none());
    let e = AppError::InvalidInput("bad date".to_string()).to_api_error();
    assert_eq!((e.status, e.code.as_str(), e.message.as_str()), (422, "invalid_input", "invalid input: bad date"));
    let e = AppError::DatabaseError.to_api_error();
    assert_eq!((e.status, e.code.as_str(), e.message.as_str()), (500, "internal_error", "database error"));
    let e = AppError::TwoFactorRequired.to_api_error();
    assert_eq!((e.status, e.code.as_str(), e.message.as_str()), (401, "two_factor_required", "2FA required"));
    let e = AppError::TwoFactorNotEnabled.to_api_error();
    assert_eq!((e.status, e.code.as_str(), e.message.as_str()), (400, "two_factor_not_enabled", "2FA not enabled"));
}

#[test]
fn database_failures_keep_rusqlite_text() {
    let e: AppError = rusqlite::Error::QueryReturnedNoRows.into();
    let api = e.to_api_error();
    assert_eq!(api.status, 500);
    assert_eq!(api.code, "internal_error");
    assert_eq!(api.message, format!("database error: {}", rusqlite::Error::QueryReturnedNoRows));
}

#[test]
fn api_error_new_has_no_details() {
    let e = ApiError::new(418, "teapot", "short and stout".to_string());
    assert_eq!(e.status, 418);
    assert_eq!(e.code, "teapot");
    assert_eq!(e.message, "short and stout");
    assert!(e.details.is_none());
}
