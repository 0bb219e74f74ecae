//! The closed vocabulary of failures that every backend maps its own
//! errors onto.

use vstd::prelude::*;

verus! {

/// A normalized failure. Each kind has one meaning and is never reused
/// for another.
#[derive(Debug, Clone)]
pub enum LLMError {
    /// Structurally invalid configuration or request.
    InvalidConfig(String),
    /// Credential rejected or missing.
    AuthenticationError(String),
    /// Transport-level failure reaching the backend.
    NetworkError(String),
    /// The backend answered with an application-level error.
    APIError { status: u16, message: String },
    /// The request or response would exceed the backend's token ceiling
    /// even after clamping.
    TokenLimitExceeded,
    /// The configured timeout elapsed without a full response.
    Timeout,
    /// The requested model is unknown to the backend.
    ModelNotFound(String),
    /// The backend's answer could not be decoded into the data model.
    ParseError(String),
    /// A defect in this layer itself.
    InternalError(String),
}

/// Whether an HTTP-style status code reports a transient fault on the
/// server's side: the codes 500 to 599.
pub open spec fn is_server_fault(status: u16) -> bool {
    500 <= status <= 599
}

impl LLMError {
    /// Whether a failure of this kind may be retried: transport failures
    /// and timeouts always, an API error only when its status reports a
    /// server fault, and nothing else.
    pub open spec fn retryable(&self) -> bool {
        match self {
            LLMError::NetworkError(_) => true,
            LLMError::Timeout => true,
            LLMError::APIError { status, .. } => is_server_fault(*status),
            _ => false,
        }
    }

    /// Decides whether another attempt is worth making after this failure.
    pub fn is_retryable(&self) -> (r: bool)
        ensures
            r == self.retryable(),
    {
        match self {
            LLMError::NetworkError(_) => true,
            LLMError::Timeout => true,
            LLMError::APIError { status, .. } => *status >= 500 && *status <= 599,
            _ => false,
        }
    }
}

} // verus!
