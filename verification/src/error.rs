use vstd::prelude::*;
use vstd::string::*;

verus! {

/// Errors raised across the proxy.
#[derive(Debug, Clone)]
pub enum NylonError {
    ConfigError(String),
    PingoraError(String),
    HttpException(u16, &'static str, &'static str),
    ServiceNotFound(String),
    RouteNotFound(String),
    AcmeKeyPairError(String),
    AcmeHttpClientError(String),
    AcmeJWSError(String),
    AcmeClientError(String),
    InternalServerError(String),
    ShouldNeverHappen(String),
    RuntimeError(String),
}

/// Prefix used by the message of a `ShouldNeverHappen` error.
pub open spec fn bug_prefix() -> Seq<char> {
    "[BUG] This should never happen. Please report it at https://github.com/AssetsArt/nylon: "@
}

impl NylonError {
    /// The HTTP status that answers this error.
    pub open spec fn spec_http_status(&self) -> u16 {
        match self {
            NylonError::HttpException(status, _, _) => *status,
            _ => 500,
        }
    }

    /// The machine-readable error code.
    pub open spec fn spec_error_code(&self) -> Seq<char> {
        match self {
            NylonError::HttpException(_, error, _) => error@,
            NylonError::ConfigError(_) => "CONFIG_ERROR"@,
            NylonError::PingoraError(_) => "PINGORA_ERROR"@,
            NylonError::ServiceNotFound(_) => "SERVICE_NOT_FOUND"@,
            NylonError::RouteNotFound(_) => "ROUTE_NOT_FOUND"@,
            NylonError::AcmeKeyPairError(_) => "ACME_KEY_PAIR_ERROR"@,
            NylonError::AcmeHttpClientError(_) => "ACME_HTTP_CLIENT_ERROR"@,
            NylonError::AcmeJWSError(_) => "ACME_JWS_ERROR"@,
            NylonError::AcmeClientError(_) => "ACME_CLIENT_ERROR"@,
            NylonError::InternalServerError(_) => "INTERNAL_SERVER_ERROR"@,
            NylonError::ShouldNeverHappen(_) => "SHOULD_NEVER_HAPPEN"@,
            NylonError::RuntimeError(_) => "RUNTIME_ERROR"@,
        }
    }

    /// The human-readable message.
    pub open spec fn spec_message(&self) -> Seq<char> {
        match self {
            NylonError::HttpException(_, _, message) => message@,
            NylonError::ConfigError(m) => m@,
            NylonError::PingoraError(m) => m@,
            NylonError::ServiceNotFound(m) => m@,
            NylonError::RouteNotFound(m) => m@,
            NylonError::AcmeKeyPairError(m) => m@,
            NylonError::AcmeHttpClientError(m) => m@,
            NylonError::AcmeJWSError(m) => m@,
            NylonError::AcmeClientError(m) => m@,
            NylonError::InternalServerError(m) => m@,
            NylonError::ShouldNeverHappen(m) => bug_prefix() + m@,
            NylonError::RuntimeError(m) => m@,
        }
    }

    pub fn http_status(&self) -> (r: u16)
        ensures
            r == self.spec_http_status(),
    {
        match self {
            NylonError::HttpException(status, _, _) => *status,
            _ => 500,
        }
    }

    pub fn error_code(&self) -> (r: String)
        ensures
            r@ == self.spec_error_code(),
    {
        match self {
            NylonError::HttpException(_, error, _) => String::from_str(error),
            NylonError::ConfigError(_) => String::from_str("CONFIG_ERROR"),
            NylonError::PingoraError(_) => String::from_str("PINGORA_ERROR"),
            NylonError::ServiceNotFound(_) => String::from_str("SERVICE_NOT_FOUND"),
            NylonError::RouteNotFound(_) => String::from_str("ROUTE_NOT_FOUND"),
            NylonError::AcmeKeyPairError(_) => String::from_str("ACME_KEY_PAIR_ERROR"),
            NylonError::AcmeHttpClientError(_) => String::from_str("ACME_HTTP_CLIENT_ERROR"),
            NylonError::AcmeJWSError(_) => String::from_str("ACME_JWS_ERROR"),
            NylonError::AcmeClientError(_) => String::from_str("ACME_CLIENT_ERROR"),
            NylonError::InternalServerError(_) => String::from_str("INTERNAL_SERVER_ERROR"),
            NylonError::ShouldNeverHappen(_) => String::from_str("SHOULD_NEVER_HAPPEN"),
            NylonError::RuntimeError(_) => String::from_str("RUNTIME_ERROR"),
        }
    }

    pub fn message(&self) -> (r: String)
        ensures
            r@ == self.spec_message(),
    {
        match self {
            NylonError::HttpException(_, _, message) => String::from_str(message),
            NylonError::ConfigError(m) => m.clone(),
            NylonError::PingoraError(m) => m.clone(),
            NylonError::ServiceNotFound(m) => m.clone(),
            NylonError::RouteNotFound(m) => m.clone(),
            NylonError::AcmeKeyPairError(m) => m.clone(),
            NylonError::AcmeHttpClientError(m) => m.clone(),
            NylonError::AcmeJWSError(m) => m.clone(),
            NylonError::AcmeClientError(m) => m.clone(),
            NylonError::InternalServerError(m) => m.clone(),
            NylonError::ShouldNeverHappen(m) => {
                let prefix = String::from_str(
                    "[BUG] This should never happen. Please report it at https://github.com/AssetsArt/nylon: ",
                );
                prefix.concat(m.as_str())
            },
            NylonError::RuntimeError(m) => m.clone(),
        }
    }
}

} // verus!
