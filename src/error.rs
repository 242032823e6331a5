//! Error taxonomy, grouped by recoverability:
//!
//! | Category | Variants | Recovery |
//! |----------|----------|----------|
//! | Transient | `BackendUnavailable`, `Timeout` | Retry with backoff |
//! | Permanent | `InvalidCircuit`, `CircuitTooLarge`, `InvalidShots`, `Unsupported` | Fix input |
//! | Job-level | `SubmissionFailed`, `JobFailed`, `JobCancelled`, `JobNotFound` | Resubmit or abort |
//! | Auth | `AuthenticationFailed` | Re-authenticate |
//! | Config | `Configuration`, `Backend` | Fix configuration |
use vstd::prelude::*;
use vstd::string::StringExecFns;

verus! {

/// Errors of backend operations. Backend-specific detail goes into `Backend`.
#[derive(Debug, Clone)]
#[non_exhaustive]
pub enum HalError {
    /// Backend is not available (transient).
    BackendUnavailable(String),
    /// Timeout waiting for a job (transient).
    Timeout(String),
    /// Invalid circuit (permanent).
    InvalidCircuit(String),
    /// Circuit exceeds the backend's capabilities (permanent).
    CircuitTooLarge(String),
    /// Invalid number of shots (permanent).
    InvalidShots(String),
    /// Unsupported feature (permanent).
    Unsupported(String),
    /// Job submission failed.
    SubmissionFailed(String),
    /// Job execution failed.
    JobFailed(String),
    /// Job was cancelled.
    JobCancelled,
    /// Job not found.
    JobNotFound(String),
    /// Authentication failed.
    AuthenticationFailed(String),
    /// Configuration error.
    Configuration(String),
    /// Generic backend error.
    Backend(String),
}

/// Result of a backend operation.
pub type HalResult<T> = Result<T, HalError>;

impl HalError {
    pub open spec fn spec_is_transient(&self) -> bool {
        *self is BackendUnavailable || *self is Timeout
    }

    /// The message this error reads as.
    pub open spec fn spec_message(&self) -> Seq<char> {
        match *self {
            HalError::BackendUnavailable(m) => "Backend not available: "@ + m@,
            HalError::Timeout(m) => "Timeout waiting for job "@ + m@,
            HalError::InvalidCircuit(m) => "Invalid circuit: "@ + m@,
            HalError::CircuitTooLarge(m) => "Circuit exceeds backend capabilities: "@ + m@,
            HalError::InvalidShots(m) => "Invalid shots: "@ + m@,
            HalError::Unsupported(m) => "Unsupported feature: "@ + m@,
            HalError::SubmissionFailed(m) => "Job submission failed: "@ + m@,
            HalError::JobFailed(m) => "Job failed: "@ + m@,
            HalError::JobCancelled => "Job cancelled"@,
            HalError::JobNotFound(m) => "Job not found: "@ + m@,
            HalError::AuthenticationFailed(m) => "Authentication failed: "@ + m@,
            HalError::Configuration(m) => "Configuration error: "@ + m@,
            HalError::Backend(m) => "Backend error: "@ + m@,
        }
    }

    /// Whether the operation may succeed on retry: only `BackendUnavailable`
    /// and `Timeout` are transient.
    pub fn is_transient(&self) -> (r: bool)
        ensures
            r == self.spec_is_transient(),
    {
        match self {
            HalError::BackendUnavailable(_) | HalError::Timeout(_) => true,
            _ => false,
        }
    }

    /// The error as a human-readable message.
    pub fn to_string(&self) -> (r: String)
        ensures
            r@ == self.spec_message(),
    {
        match self {
            HalError::BackendUnavailable(m) => String::from_str("Backend not available: ").concat(
                m.as_str(),
            ),
            HalError::Timeout(m) => String::from_str("Timeout waiting for job ").concat(m.as_str()),
            HalError::InvalidCircuit(m) => String::from_str("Invalid circuit: ").concat(m.as_str()),
            HalError::CircuitTooLarge(m) => String::from_str(
                "Circuit exceeds backend capabilities: ",
            ).concat(m.as_str()),
            HalError::InvalidShots(m) => String::from_str("Invalid shots: ").concat(m.as_str()),
            HalError::Unsupported(m) => String::from_str("Unsupported feature: ").concat(
                m.as_str(),
            ),
            HalError::SubmissionFailed(m) => String::from_str("Job submission failed: ").concat(
                m.as_str(),
            ),
            HalError::JobFailed(m) => String::from_str("Job failed: ").concat(m.as_str()),
            HalError::JobCancelled => String::from_str("Job cancelled"),
            HalError::JobNotFound(m) => String::from_str("Job not found: ").concat(m.as_str()),
            HalError::AuthenticationFailed(m) => String::from_str("Authentication failed: ").concat(
                m.as_str(),
            ),
            HalError::Configuration(m) => String::from_str("Configuration error: ").concat(
                m.as_str(),
            ),
            HalError::Backend(m) => String::from_str("Backend error: ").concat(m.as_str()),
        }
    }
}

} // verus!
