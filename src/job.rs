//! Job identifiers and the job status state machine.
//!
//! ```text
//!   submit() ──→ Queued ──→ Running ──→ Completed
//!                  │           │
//!                  │           ├──→ Failed(reason)
//!                  │           │
//!                  └───────────┴──→ Cancelled
//! ```
//!
//! Transitions only move forward; the three terminal states are permanent.
use vstd::prelude::*;
use vstd::string::StringExecFns;

verus! {

/// Opaque identifier of a job, compared by its underlying string.
#[derive(Debug, Clone, Hash)]
pub struct JobId(pub String);

impl JobId {
    /// Create a job identifier from its string.
    pub fn new(id: String) -> (r: JobId)
        ensures
            r.0@ == id@,
    {
        JobId(id)
    }

    /// The identifier as text.
    pub fn to_string(&self) -> (r: String)
        ensures
            r@ == self.0@,
    {
        self.0.clone()
    }
}

impl PartialEq for JobId {
    fn eq(&self, other: &JobId) -> (r: bool)
        ensures
            r == (self.0@ == other.0@),
    {
        self.0 == other.0
    }
}

impl Eq for JobId {
}

impl vstd::std_specs::cmp::PartialEqSpecImpl for JobId {
    open spec fn obeys_eq_spec() -> bool {
        true
    }

    open spec fn eq_spec(&self, other: &JobId) -> bool {
        self.0@ == other.0@
    }
}

impl From<String> for JobId {
    fn from(s: String) -> (r: JobId)
        ensures
            r.0@ == s@,
    {
        JobId(s)
    }
}

impl vstd::std_specs::convert::FromSpecImpl<String> for JobId {
    open spec fn obeys_from_spec() -> bool {
        true
    }

    open spec fn from_spec(s: String) -> JobId {
        JobId(s)
    }
}

impl<'a> From<&'a str> for JobId {
    fn from(s: &'a str) -> (r: JobId)
        ensures
            r.0@ == s@,
    {
        JobId(String::from_str(s))
    }
}

impl<'a> vstd::std_specs::convert::FromSpecImpl<&'a str> for JobId {
    open spec fn obeys_from_spec() -> bool {
        false
    }

    open spec fn from_spec(s: &'a str) -> JobId {
        arbitrary()
    }
}

/// Status of a job.
#[derive(Debug, Clone)]
pub enum JobStatus {
    /// Waiting in the queue.
    Queued,
    /// Currently running.
    Running,
    /// Completed successfully.
    Completed,
    /// Failed, with a reason.
    Failed(String),
    /// Cancelled.
    Cancelled,
}

/// Whether two statuses are the same state (a failure reason compared by its text).
pub open spec fn same_status(a: JobStatus, b: JobStatus) -> bool {
    match a {
        JobStatus::Queued => b is Queued,
        JobStatus::Running => b is Running,
        JobStatus::Completed => b is Completed,
        JobStatus::Failed(x) => b is Failed && b->Failed_0@ == x@,
        JobStatus::Cancelled => b is Cancelled,
    }
}

/// Position of a status in the forward order: pending states first, terminal last.
pub open spec fn stage(s: JobStatus) -> nat {
    match s {
        JobStatus::Queued => 0,
        JobStatus::Running => 1,
        _ => 2,
    }
}

impl JobStatus {
    pub open spec fn spec_is_terminal(self) -> bool {
        self is Completed || self is Failed || self is Cancelled
    }

    pub open spec fn spec_is_pending(self) -> bool {
        self is Queued || self is Running
    }

    /// A job may move from `self` to `next`: it stays where it is, or it moves
    /// strictly forward and never leaves a terminal state.
    pub open spec fn spec_may_become(self, next: JobStatus) -> bool {
        same_status(self, next) || (!self.spec_is_terminal() && stage(self) < stage(next))
    }

    /// One of the three end states.
    pub fn is_terminal(&self) -> (r: bool)
        ensures
            r == self.spec_is_terminal(),
    {
        match self {
            JobStatus::Completed | JobStatus::Failed(_) | JobStatus::Cancelled => true,
            _ => false,
        }
    }

    /// Queued or running.
    pub fn is_pending(&self) -> (r: bool)
        ensures
            r == self.spec_is_pending(),
            r == !self.spec_is_terminal(),
    {
        match self {
            JobStatus::Queued | JobStatus::Running => true,
            _ => false,
        }
    }

    /// Completed successfully.
    pub fn is_success(&self) -> (r: bool)
        ensures
            r == (*self is Completed),
    {
        match self {
            JobStatus::Completed => true,
            _ => false,
        }
    }

    /// Whether the state machine allows a job in `self` to be observed next in `next`.
    pub fn may_become(&self, next: &JobStatus) -> (r: bool)
        ensures
            r == self.spec_may_become(*next),
    {
        if self == next {
            true
        } else {
            !self.is_terminal() && self.stage() < next.stage()
        }
    }

    fn stage(&self) -> (r: u8)
        ensures
            r as nat == stage(*self),
    {
        match self {
            JobStatus::Queued => 0,
            JobStatus::Running => 1,
            _ => 2,
        }
    }

    /// A copy of this status that verified code can reason about.
    pub fn duplicate(&self) -> (r: JobStatus)
        ensures
            same_status(r, *self),
    {
        match self {
            JobStatus::Queued => JobStatus::Queued,
            JobStatus::Running => JobStatus::Running,
            JobStatus::Completed => JobStatus::Completed,
            JobStatus::Failed(m) => JobStatus::Failed(m.clone()),
            JobStatus::Cancelled => JobStatus::Cancelled,
        }
    }

    /// Human-readable form: the state's name, and for a failure its reason.
    pub fn to_string(&self) -> (r: String)
        ensures
            r@ == match *self {
                JobStatus::Queued => "Queued"@,
                JobStatus::Running => "Running"@,
                JobStatus::Completed => "Completed"@,
                JobStatus::Failed(m) => "Failed: "@ + m@,
                JobStatus::Cancelled => "Cancelled"@,
            },
    {
        match self {
            JobStatus::Queued => String::from_str("Queued"),
            JobStatus::Running => String::from_str("Running"),
            JobStatus::Completed => String::from_str("Completed"),
            JobStatus::Failed(m) => String::from_str("Failed: ").concat(m.as_str()),
            JobStatus::Cancelled => String::from_str("Cancelled"),
        }
    }
}

impl PartialEq for JobStatus {
    fn eq(&self, other: &JobStatus) -> (r: bool)
        ensures
            r == same_status(*self, *other),
    {
        match self {
            JobStatus::Queued => match other {
                JobStatus::Queued => true,
                _ => false,
            },
            JobStatus::Running => match other {
                JobStatus::Running => true,
                _ => false,
            },
            JobStatus::Completed => match other {
                JobStatus::Completed => true,
                _ => false,
            },
            JobStatus::Failed(x) => match other {
                JobStatus::Failed(y) => *x == *y,
                _ => false,
            },
            JobStatus::Cancelled => match other {
                JobStatus::Cancelled => true,
                _ => false,
            },
        }
    }
}

impl Eq for JobStatus {
}

impl vstd::std_specs::cmp::PartialEqSpecImpl for JobStatus {
    open spec fn obeys_eq_spec() -> bool {
        true
    }

    open spec fn eq_spec(&self, other: &JobStatus) -> bool {
        same_status(*self, *other)
    }
}

/// Moving forward never returns to an earlier stage, and a terminal state is
/// left only for the same state.
pub proof fn lemma_transitions_monotonic(a: JobStatus, b: JobStatus)
    requires
        a.spec_may_become(b),
    ensures
        stage(a) <= stage(b),
        a.spec_is_terminal() ==> same_status(a, b),
{
}

} // verus!
