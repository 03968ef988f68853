//! The errors of the proxy, the HTTP status that each one is answered with and
//! the short message that a client may see.

use vstd::prelude::*;
use vstd::string::StringExecFns;

verus! {

/// What can go wrong while a connection is served. Errors that arise outside
/// this library (I/O, TLS) are carried as their message.
#[derive(Debug, Clone, PartialEq, Eq)]
pub enum ProxyError {
    Io(String),
    Config(String),
    AuthenticationFailed,
    AccessDenied(String),
    InvalidRequest(String),
    InvalidResponse(String),
    Timeout,
    Upstream(String),
    FilterBlocked(String),
    Tls(String),
    DnsResolution(String),
    Protocol(String),
    ResourceExhausted(String),
    Internal(String),
}

/// A result whose error is a `ProxyError`.
pub type ProxyResult<T> = Result<T, ProxyError>;

/// A `ProxyError` with its message as a sequence of characters.
pub enum ErrorView {
    Io(Seq<char>),
    Config(Seq<char>),
    AuthenticationFailed,
    AccessDenied(Seq<char>),
    InvalidRequest(Seq<char>),
    InvalidResponse(Seq<char>),
    Timeout,
    Upstream(Seq<char>),
    FilterBlocked(Seq<char>),
    Tls(Seq<char>),
    DnsResolution(Seq<char>),
    Protocol(Seq<char>),
    ResourceExhausted(Seq<char>),
    Internal(Seq<char>),
}

impl View for ProxyError {
    type V = ErrorView;

    open spec fn view(&self) -> ErrorView {
        match self {
            ProxyError::Io(m) => ErrorView::Io(m@),
            ProxyError::Config(m) => ErrorView::Config(m@),
            ProxyError::AuthenticationFailed => ErrorView::AuthenticationFailed,
            ProxyError::AccessDenied(m) => ErrorView::AccessDenied(m@),
            ProxyError::InvalidRequest(m) => ErrorView::InvalidRequest(m@),
            ProxyError::InvalidResponse(m) => ErrorView::InvalidResponse(m@),
            ProxyError::Timeout => ErrorView::Timeout,
            ProxyError::Upstream(m) => ErrorView::Upstream(m@),
            ProxyError::FilterBlocked(m) => ErrorView::FilterBlocked(m@),
            ProxyError::Tls(m) => ErrorView::Tls(m@),
            ProxyError::DnsResolution(m) => ErrorView::DnsResolution(m@),
            ProxyError::Protocol(m) => ErrorView::Protocol(m@),
            ProxyError::ResourceExhausted(m) => ErrorView::ResourceExhausted(m@),
            ProxyError::Internal(m) => ErrorView::Internal(m@),
        }
    }
}

/// The HTTP status that an error is answered with.
pub open spec fn status_of(e: ErrorView) -> u16 {
    match e {
        ErrorView::AuthenticationFailed => 407,
        ErrorView::AccessDenied(_) => 403,
        ErrorView::InvalidRequest(_) => 400,
        ErrorView::Timeout => 408,
        ErrorView::FilterBlocked(_) => 403,
        ErrorView::DnsResolution(_) => 502,
        ErrorView::Upstream(_) => 502,
        ErrorView::ResourceExhausted(_) => 503,
        _ => 500,
    }
}

/// The message that a client may see for an error.
pub open spec fn message_of(e: ErrorView) -> Seq<char> {
    match e {
        ErrorView::AuthenticationFailed => "Proxy authentication required"@,
        ErrorView::AccessDenied(m) => "Access denied: "@ + m,
        ErrorView::InvalidRequest(m) => "Bad request: "@ + m,
        ErrorView::Timeout => "Request timeout"@,
        ErrorView::FilterBlocked(m) => "Request blocked by filter: "@ + m,
        ErrorView::DnsResolution(m) => "DNS resolution failed: "@ + m,
        ErrorView::Upstream(m) => "Upstream server error: "@ + m,
        ErrorView::ResourceExhausted(m) => "Service temporarily unavailable: "@ + m,
        _ => "Internal server error"@,
    }
}

/// The full description of an error, for logs.
pub open spec fn description_of(e: ErrorView) -> Seq<char> {
    match e {
        ErrorView::Io(m) => "IO error: "@ + m,
        ErrorView::Config(m) => "Configuration error: "@ + m,
        ErrorView::AuthenticationFailed => "Authentication failed"@,
        ErrorView::AccessDenied(m) => "Access denied: "@ + m,
        ErrorView::InvalidRequest(m) => "Invalid HTTP request: "@ + m,
        ErrorView::InvalidResponse(m) => "Invalid HTTP response: "@ + m,
        ErrorView::Timeout => "Connection timeout"@,
        ErrorView::Upstream(m) => "Upstream error: "@ + m,
        ErrorView::FilterBlocked(m) => "Filter blocked request: "@ + m,
        ErrorView::Tls(m) => "TLS error: "@ + m,
        ErrorView::DnsResolution(m) => "DNS resolution failed: "@ + m,
        ErrorView::Protocol(m) => "Protocol error: "@ + m,
        ErrorView::ResourceExhausted(m) => "Resource exhausted: "@ + m,
        ErrorView::Internal(m) => "Internal server error: "@ + m,
    }
}

/// `prefix` followed by `detail`.
pub fn joined(prefix: &str, detail: &str) -> (r: String)
    ensures
        r@ == prefix@ + detail@,
{
    String::from_str(prefix).concat(detail)
}

impl ProxyError {
    /// The HTTP status that the error is answered with.
    pub fn http_status_code(&self) -> (code: u16)
        ensures
            code == status_of(self@),
    {
        match self {
            ProxyError::AuthenticationFailed => 407,
            ProxyError::AccessDenied(_) => 403,
            ProxyError::InvalidRequest(_) => 400,
            ProxyError::Timeout => 408,
            ProxyError::FilterBlocked(_) => 403,
            ProxyError::DnsResolution(_) => 502,
            ProxyError::Upstream(_) => 502,
            ProxyError::ResourceExhausted(_) => 503,
            _ => 500,
        }
    }

    /// The message that a client may see for the error.
    pub fn error_message(&self) -> (message: String)
        ensures
            message@ == message_of(self@),
    {
        match self {
            ProxyError::AuthenticationFailed => String::from_str("Proxy authentication required"),
            ProxyError::AccessDenied(m) => joined("Access denied: ", m.as_str()),
            ProxyError::InvalidRequest(m) => joined("Bad request: ", m.as_str()),
            ProxyError::Timeout => String::from_str("Request timeout"),
            ProxyError::FilterBlocked(m) => joined("Request blocked by filter: ", m.as_str()),
            ProxyError::DnsResolution(m) => joined("DNS resolution failed: ", m.as_str()),
            ProxyError::Upstream(m) => joined("Upstream server error: ", m.as_str()),
            ProxyError::ResourceExhausted(m) => joined(
                "Service temporarily unavailable: ",
                m.as_str(),
            ),
            _ => String::from_str("Internal server error"),
        }
    }

    /// The full description of the error.
    pub fn to_string(&self) -> (text: String)
        ensures
            text@ == description_of(self@),
    {
        match self {
            ProxyError::Io(m) => joined("IO error: ", m.as_str()),
            ProxyError::Config(m) => joined("Configuration error: ", m.as_str()),
            ProxyError::AuthenticationFailed => String::from_str("Authentication failed"),
            ProxyError::AccessDenied(m) => joined("Access denied: ", m.as_str()),
            ProxyError::InvalidRequest(m) => joined("Invalid HTTP request: ", m.as_str()),
            ProxyError::InvalidResponse(m) => joined("Invalid HTTP response: ", m.as_str()),
            ProxyError::Timeout => String::from_str("Connection timeout"),
            ProxyError::Upstream(m) => joined("Upstream error: ", m.as_str()),
            ProxyError::FilterBlocked(m) => joined("Filter blocked request: ", m.as_str()),
            ProxyError::Tls(m) => joined("TLS error: ", m.as_str()),
            ProxyError::DnsResolution(m) => joined("DNS resolution failed: ", m.as_str()),
            ProxyError::Protocol(m) => joined("Protocol error: ", m.as_str()),
            ProxyError::ResourceExhausted(m) => joined("Resource exhausted: ", m.as_str()),
            ProxyError::Internal(m) => joined("Internal server error: ", m.as_str()),
        }
    }
}

} // verus!
