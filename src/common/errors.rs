//! The error kinds of the engine, their wire codes and retry classification.
use vstd::prelude::*;

verus! {

#[derive(Debug, Clone, PartialEq, Eq)]
pub enum AppError {
    InvalidInput(String),
    NotFound(String),
    Database(String),
    Io(String),
    Sidecar(String),
    ProviderAuth,
    ProviderRateLimited,
    ProviderTimeout,
    ProviderInvalidResponse(String),
    Network(String),
    QualityGateFailed(String),
    Internal(String),
}

pub type AppResult<T> = Result<T, AppError>;

/// The wire code of each error kind.
pub open spec fn error_code(e: AppError) -> Seq<char> {
    match e {
        AppError::InvalidInput(_) => "INVALID_INPUT"@,
        AppError::NotFound(_) => "NOT_FOUND"@,
        AppError::Database(_) => "DATABASE_ERROR"@,
        AppError::Io(_) => "IO_ERROR"@,
        AppError::Sidecar(_) => "SIDECAR_ERROR"@,
        AppError::ProviderAuth => "PROVIDER_AUTH"@,
        AppError::ProviderRateLimited => "PROVIDER_RATE_LIMITED"@,
        AppError::ProviderTimeout => "PROVIDER_TIMEOUT"@,
        AppError::ProviderInvalidResponse(_) => "PROVIDER_INVALID_RESPONSE"@,
        AppError::Network(_) => "NETWORK_ERROR"@,
        AppError::QualityGateFailed(_) => "QUALITY_GATE_FAILED"@,
        AppError::Internal(_) => "INTERNAL_ERROR"@,
    }
}

/// The kinds that a caller may retry: rate limiting, timeouts and transport
/// failures.
pub open spec fn is_retryable(e: AppError) -> bool {
    e is ProviderRateLimited || e is ProviderTimeout || e is Network
}

/// The human-readable message of each error kind.
pub open spec fn error_message(e: AppError) -> Seq<char> {
    match e {
        AppError::InvalidInput(m) => "invalid input: "@ + m@,
        AppError::NotFound(m) => "not found: "@ + m@,
        AppError::Database(m) => "database error: "@ + m@,
        AppError::Io(m) => "io error: "@ + m@,
        AppError::Sidecar(m) => "sidecar error: "@ + m@,
        AppError::ProviderAuth => "provider auth failed"@,
        AppError::ProviderRateLimited => "provider rate limited"@,
        AppError::ProviderTimeout => "provider timeout"@,
        AppError::ProviderInvalidResponse(m) => "provider invalid response: "@ + m@,
        AppError::Network(m) => "network error: "@ + m@,
        AppError::QualityGateFailed(m) => "quality gate failed: "@ + m@,
        AppError::Internal(m) => "internal error: "@ + m@,
    }
}

fn prefixed(prefix: &str, m: &String) -> (r: String)
    ensures
        r@ == prefix@ + m@,
{
    let mut s = String::from_str(prefix);
    s.append(m.as_str());
    s
}

impl AppError {
    pub fn code(&self) -> (r: &'static str)
        ensures
            r@ == error_code(*self),
    {
        match self {
            AppError::InvalidInput(_) => "INVALID_INPUT",
            AppError::NotFound(_) => "NOT_FOUND",
            AppError::Database(_) => "DATABASE_ERROR",
            AppError::Io(_) => "IO_ERROR",
            AppError::Sidecar(_) => "SIDECAR_ERROR",
            AppError::ProviderAuth => "PROVIDER_AUTH",
            AppError::ProviderRateLimited => "PROVIDER_RATE_LIMITED",
            AppError::ProviderTimeout => "PROVIDER_TIMEOUT",
            AppError::ProviderInvalidResponse(_) => "PROVIDER_INVALID_RESPONSE",
            AppError::Network(_) => "NETWORK_ERROR",
            AppError::QualityGateFailed(_) => "QUALITY_GATE_FAILED",
            AppError::Internal(_) => "INTERNAL_ERROR",
        }
    }

    pub fn retryable(&self) -> (r: bool)
        ensures
            r == is_retryable(*self),
    {
        match self {
            AppError::ProviderRateLimited | AppError::ProviderTimeout | AppError::Network(_) => true,
            _ => false,
        }
    }

    /// The message shown to users, in place of a `Display` impl.
    pub fn message(&self) -> (r: String)
        ensures
            r@ == error_message(*self),
    {
        match self {
            AppError::InvalidInput(m) => prefixed("invalid input: ", m),
            AppError::NotFound(m) => prefixed("not found: ", m),
            AppError::Database(m) => prefixed("database error: ", m),
            AppError::Io(m) => prefixed("io error: ", m),
            AppError::Sidecar(m) => prefixed("sidecar error: ", m),
            AppError::ProviderAuth => String::from_str("provider auth failed"),
            AppError::ProviderRateLimited => String::from_str("provider rate limited"),
            AppError::ProviderTimeout => String::from_str("provider timeout"),
            AppError::ProviderInvalidResponse(m) => prefixed("provider invalid response: ", m),
            AppError::Network(m) => prefixed("network error: ", m),
            AppError::QualityGateFailed(m) => prefixed("quality gate failed: ", m),
            AppError::Internal(m) => prefixed("internal error: ", m),
        }
    }
}

} // verus!
