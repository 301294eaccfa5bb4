//! The unified JSON error body of the HTTP handlers, and the application
//! error type with its mapping onto HTTP statuses and error codes.
use vstd::prelude::*;

verus! {

/// `serde_json::Value`, carried through as the optional details of an
/// error.
#[verifier::external_type_specification]
#[verifier::external_body]
pub struct ExJsonValue(serde_json::Value);

/// `rusqlite::Error`, the cause of a database failure.
#[verifier::external_type_specification]
#[verifier::external_body]
pub struct ExSqliteError(rusqlite::Error);

/// Unified error body returned by all handlers.
#[derive(Debug)]
pub struct ApiError {
    pub code: String,
    pub message: String,
    pub details: Option<serde_json::Value>,
    /// The HTTP status the error is sent with.
    pub status: u16,
}

impl ApiError {
    /// An error with the given status, code and message, and no details.
    pub fn new(status: u16, code: &str, message: String) -> (e: Self)
        ensures
            e.status == status,
            e.code@ == code@,
            e.message == message,
            e.details is None,
    {
        ApiError { code: String::from_str(code), message, details: None, status }
    }
}

/// `Display` of `rusqlite::Error`.
///
/// Trusted: nothing is stated of the text, which is rusqlite's own
/// description of the failure.
#[verifier::external_body]
fn sqlite_error_text(e: &rusqlite::Error) -> (r: String) {
    e.to_string()
}

/// Errors of the application's handlers.
#[derive(Debug)]
pub enum AppError {
    /// A failure reported by the database.
    Db(rusqlite::Error),
    DatabaseError,
    NotFound,
    InvalidInput(String),
    TwoFactorRequired,
    TwoFactorNotEnabled,
}

impl AppError {
    /// The HTTP status of the error.
    pub open spec fn spec_status(&self) -> u16 {
        match *self {
            AppError::NotFound => 404,
            AppError::InvalidInput(_) => 422,
            AppError::Db(_) | AppError::DatabaseError => 500,
            AppError::TwoFactorRequired => 401,
            AppError::TwoFactorNotEnabled => 400,
        }
    }

    /// The machine-readable code of the error.
    pub open spec fn spec_code(&self) -> Seq<char> {
        match *self {
            AppError::NotFound => "not_found"@,
            AppError::InvalidInput(_) => "invalid_input"@,
            AppError::Db(_) | AppError::DatabaseError => "internal_error"@,
            AppError::TwoFactorRequired => "two_factor_required"@,
            AppError::TwoFactorNotEnabled => "two_factor_not_enabled"@,
        }
    }

    /// The human-readable message of the error.
    pub fn message(&self) -> (m: String)
        ensures
            match *self {
                AppError::Db(_) => m@.len() >= 16 && m@.subrange(0, 16) == "database error: "@,
                AppError::DatabaseError => m@ == "database error"@,
                AppError::NotFound => m@ == "not found"@,
                AppError::InvalidInput(s) => m@ == "invalid input: "@ + s@,
                AppError::TwoFactorRequired => m@ == "2FA required"@,
                AppError::TwoFactorNotEnabled => m@ == "2FA not enabled"@,
            },
    {
        match self {
            AppError::Db(e) => {
                let mut m = String::from_str("database error: ");
                proof {
                    reveal_strlit("database error: ");
                }
                let ghost prefix = m@;
                m.append(sqlite_error_text(e).as_str());
                proof {
                    assert(m@.subrange(0, 16) =~= prefix);
                }
                m
            },
            AppError::DatabaseError => String::from_str("database error"),
            AppError::NotFound => String::from_str("not found"),
            AppError::InvalidInput(s) => {
                let mut m = String::from_str("invalid input: ");
                m.append(s.as_str());
                m
            },
            AppError::TwoFactorRequired => String::from_str("2FA required"),
            AppError::TwoFactorNotEnabled => String::from_str("2FA not enabled"),
        }
    }

    /// The HTTP status and error code of the error.
    pub fn status_and_code(&self) -> (r: (u16, &'static str))
        ensures
            r.0 == self.spec_status(),
            r.1@ == self.spec_code(),
    {
        match self {
            AppError::NotFound => (404, "not_found"),
            AppError::InvalidInput(_) => (422, "invalid_input"),
            AppError::Db(_) | AppError::DatabaseError => (500, "internal_error"),
            AppError::TwoFactorRequired => (401, "two_factor_required"),
            AppError::TwoFactorNotEnabled => (400, "two_factor_not_enabled"),
        }
    }

    /// The error body sent for this error: its status and code, and its
    /// message.
    pub fn to_api_error(&self) -> (e: ApiError)
        ensures
            e.status == self.spec_status(),
            e.code@ == self.spec_code(),
            e.details is None,
            match *self {
                AppError::Db(_) => e.message@.len() >= 16 && e.message@.subrange(0, 16)
                    == "database error: "@,
                AppError::DatabaseError => e.message@ == "database error"@,
                AppError::NotFound => e.message@ == "not found"@,
                AppError::InvalidInput(s) => e.message@ == "invalid input: "@ + s@,
                AppError::TwoFactorRequired => e.message@ == "2FA required"@,
                AppError::TwoFactorNotEnabled => e.message@ == "2FA not enabled"@,
            },
    {
        let (status, code) = self.status_and_code();
        ApiError::new(status, code, self.message())
    }
}

impl From<rusqlite::Error> for AppError {
    fn from(e: rusqlite::Error) -> (r: Self) {
        AppError::Db(e)
    }
}

impl vstd::std_specs::convert::FromSpecImpl<rusqlite::Error> for AppError {
    open spec fn obeys_from_spec() -> bool {
        true
    }

    open spec fn from_spec(e: rusqlite::Error) -> AppError {
        AppError::Db(e)
    }
}

} // verus!
