use hal_contract::{HalError, JobId, JobStatus};

#[test]
fn test_transient_errors() {
    assert!(HalError::BackendUnavailable("offline".into()).is_transient());
    assert!(HalError::Timeout("job-123".into()).is_transient());
    assert!(!HalError::InvalidCircuit("bad".into()).is_transient());
    assert!(!HalError::JobFailed("error".into()).is_transient());
}

#[test]
fn test_error_display() {
    let err = HalError::InvalidCircuit("too many qubits".into());
    assert_eq!(err.to_string(), "Invalid circuit: too many qubits");
}

#[test]
fn error_messages_of_each_kind() {
    assert_eq!(HalError::JobCancelled.to_string(), "Job cancelled");
    assert_eq!(HalError::JobNotFound("j".into()).to_string(), "Job not found: j");
    assert_eq!(HalError::Timeout("j".into()).to_string(), "Timeout waiting for job j");
    assert!(!HalError::AuthenticationFailed("x".into()).is_transient());
    assert!(!HalError::Configuration("x".into()).is_transient());
    assert!(!HalError::Backend("x".into()).is_transient());
    assert!(!HalError::JobCancelled.is_transient());
}

#[test]
fn test_job_status_terminal() {
    assert!(!JobStatus::Queued.is_terminal());
    assert!(!JobStatus::Running.is_terminal());
    assert!(JobStatus::Completed.is_terminal());
    assert!(JobStatus::Failed("error".into()).is_terminal());
    assert!(JobStatus::Cancelled.is_terminal());
}

#[test]
fn test_job_status_display() {
    assert_eq!(JobStatus::Queued.to_string(), "Queued");
    assert_eq!(JobStatus::Running.to_string(), "Running");
    assert_eq!(
        JobStatus::Failed("timeout".into()).to_string(),
        "Failed: timeout"
    );
}

#[test]
fn test_job_id_from() {
    let id: JobId = "job-123".into();
    assert_eq!(id.0, "job-123");
    assert_eq!(id.to_string(), "job-123");
}

#[test]
fn status_predicates_and_transitions() {
    assert!(JobStatus::Queued.is_pending());
    assert!(!JobStatus::Cancelled.is_pending());
    assert!(JobStatus::Completed.is_success());
    assert!(!JobStatus::Failed("x".into()).is_success());
    assert!(JobStatus::Queued.may_become(&JobStatus::Running));
    assert!(JobStatus::Running.may_become(&JobStatus::Failed("x".into())));
    assert!(!JobStatus::Running.may_become(&JobStatus::Queued));
    assert!(!JobStatus::Completed.may_become(&JobStatus::Cancelled));
    assert!(JobStatus::Completed.may_become(&JobStatus::Completed));
    assert_eq!(JobId::new("a".to_string()), JobId::from("a".to_string()));
}
