//! Vendor-neutral contract between a workflow scheduler and compute backends
//! that run discrete jobs: capability model, error taxonomy, job lifecycle,
//! measurement results, and the decision logic behind validation, submission
//! and waiting for completion.

pub mod backend;
pub mod capability;
pub mod error;
pub mod job;
pub mod lifecycle;
pub mod result;

pub use backend::{check_shots, validate_against, ValidationResult, WaitPolicy, WaitStep, Waiter};
pub use capability::{Capabilities, GateSet, Topology, TopologyKind};
pub use error::{HalError, HalResult};
pub use job::{JobId, JobStatus};
pub use lifecycle::JobTable;
pub use result::{Counts, ExecutionResult};
