//! The decisions behind a backend's job lifecycle: the three-way validation
//! verdict, the checks of a job against capabilities, the
//! shot bound of submission, and the polling protocol that waits for a job.
//!
//! Running these against a live backend (awaiting, sleeping) is left to the
//! caller: each function here takes what was observed and says what to do next.
use vstd::prelude::*;
use vstd::string::StringExecFns;
use crate::capability::Capabilities;
use crate::error::{HalError, HalResult};
use crate::job::{JobId, JobStatus};

verus! {

/// Verdict of validating a job against a backend.
///
/// - `Valid`: it can be submitted as it is.
/// - `Invalid`: it cannot run on this backend; the reasons say why.
/// - `RequiresTranspilation`: it could run after transpilation.
#[derive(Debug, Clone)]
pub enum ValidationResult {
    /// Can be submitted directly.
    Valid,
    /// Cannot run on this backend.
    Invalid {
        /// Why not.
        reasons: Vec<String>,
    },
    /// Could run after transpilation.
    RequiresTranspilation {
        /// What transpilation is needed.
        details: String,
    },
}

impl ValidationResult {
    /// Whether the job can be submitted as it is.
    pub fn is_valid(&self) -> (r: bool)
        ensures
            r == (*self is Valid),
    {
        match self {
            ValidationResult::Valid => true,
            _ => false,
        }
    }
}

/// The character of decimal digit `d`.
pub open spec fn digit_char(d: nat) -> char {
    ((d + 48) as u8) as char
}

/// Decimal notation of `n`, without leading zeros.
pub open spec fn decimal(n: nat) -> Seq<char>
    decreases n,
{
    if n < 10 {
        seq![digit_char(n)]
    } else {
        decimal(n / 10).push(digit_char(n % 10))
    }
}

fn digit_str(d: u32) -> (r: &'static str)
    requires
        d < 10,
    ensures
        r@ == seq![digit_char(d as nat)],
{
    match d {
        0 => {
            proof {
                reveal_strlit("0");
            }
            "0"
        },
        1 => {
            proof {
                reveal_strlit("1");
            }
            "1"
        },
        2 => {
            proof {
                reveal_strlit("2");
            }
            "2"
        },
        3 => {
            proof {
                reveal_strlit("3");
            }
            "3"
        },
        4 => {
            proof {
                reveal_strlit("4");
            }
            "4"
        },
        5 => {
            proof {
                reveal_strlit("5");
            }
            "5"
        },
        6 => {
            proof {
                reveal_strlit("6");
            }
            "6"
        },
        7 => {
            proof {
                reveal_strlit("7");
            }
            "7"
        },
        8 => {
            proof {
                reveal_strlit("8");
            }
            "8"
        },
        _ => {
            proof {
                reveal_strlit("9");
            }
            "9"
        },
    }
}

/// `n` in decimal notation.
pub fn decimal_string(n: u32) -> (r: String)
    ensures
        r@ == decimal(n as nat),
{
    let mut rest: u32 = n;
    let mut acc = String::new();
    loop
        invariant
            decimal(n as nat) == decimal(rest as nat) + acc@,
        decreases rest,
    {
        let d = digit_str(rest % 10);
        if rest < 10 {
            let r = String::from_str(d).concat(acc.as_str());
            return r;
        }
        let ghost old_acc = acc@;
        acc = String::from_str(d).concat(acc.as_str());
        assert(decimal(rest as nat) + old_acc =~= decimal((rest / 10) as nat) + acc@);
        rest = rest / 10;
    }
}

/// Reason given when a job needs more qubits than a backend has.
pub open spec fn shortfall_text(needed: u32, available: u32) -> Seq<char> {
    "Circuit requires "@ + decimal(needed as nat) + " qubits, backend has "@ + decimal(
        available as nat,
    )
}

fn qubit_shortfall_reason(needed: u32, available: u32) -> (r: String)
    ensures
        r@ == shortfall_text(needed, available),
{
    String::from_str("Circuit requires ").concat(decimal_string(needed).as_str()).concat(
        " qubits, backend has ",
    ).concat(decimal_string(available).as_str())
}

fn shot_range_reason(max_shots: u32) -> (r: String)
    ensures
        r@ == "shots must be 1..="@ + decimal(max_shots as nat),
{
    String::from_str("shots must be 1..=").concat(decimal_string(max_shots).as_str())
}

/// Whether a job on `num_qubits` qubits using `gates` fits `caps`: no more
/// qubits than it has, and every operation in its gate set.
pub open spec fn fits(caps: Capabilities, num_qubits: u32, gates: Seq<String>) -> bool {
    num_qubits <= caps.num_qubits && forall|i: int|
        0 <= i < gates.len() ==> #[trigger] caps.gate_set.spec_contains(gates[i]@)
}

/// Check a job against a backend's capabilities. The job must need no more
/// qubits than the backend has, and every operation in `gates` must be in
/// the backend's operations; each failure adds a reason.
pub fn validate_against(caps: &Capabilities, num_qubits: u32, gates: &Vec<String>) -> (r: ValidationResult)
    ensures
        (r is Valid) <==> fits(*caps, num_qubits, gates@),
        !fits(*caps, num_qubits, gates@) ==> (r is Invalid && r->Invalid_reasons@.len() > 0),
        num_qubits > caps.num_qubits ==> r->Invalid_reasons@[0]@ == shortfall_text(num_qubits, caps.num_qubits),
{
    let mut reasons: Vec<String> = Vec::new();
    if num_qubits > caps.num_qubits {
        reasons.push(qubit_shortfall_reason(num_qubits, caps.num_qubits));
    }
    let mut i: usize = 0;
    while i < gates.len()
        invariant
            i <= gates@.len(),
            num_qubits > caps.num_qubits ==> reasons@.len() > 0 && reasons@[0]@ == shortfall_text(num_qubits, caps.num_qubits),
            (reasons@.len() == 0) <==> (num_qubits <= caps.num_qubits && forall|j: int|
                0 <= j < i ==> #[trigger] caps.gate_set.spec_contains(gates@[j]@)),
        decreases gates@.len() - i,
    {
        if !caps.gate_set.contains(gates[i].as_str()) {
            reasons.push(String::from_str("Unsupported gate: ").concat(gates[i].as_str()));
        }
        i = i + 1;
    }
    if reasons.len() == 0 {
        ValidationResult::Valid
    } else {
        ValidationResult::Invalid { reasons }
    }
}

/// Shot counts a backend accepts: from 1 up to its maximum.
pub open spec fn shots_ok(shots: u32, max_shots: u32) -> bool {
    1 <= shots <= max_shots
}

/// Check a requested shot count against the backend's maximum: `InvalidShots`
/// when it is zero or above the maximum.
pub fn check_shots(shots: u32, max_shots: u32) -> (r: Result<(), HalError>)
    ensures
        r is Ok <==> shots_ok(shots, max_shots),
        r matches Err(e) ==> (e matches HalError::InvalidShots(m) && m@ == "shots must be 1..="@
            + decimal(max_shots as nat)),
{
    if shots == 0 || shots > max_shots {
        Err(HalError::InvalidShots(shot_range_reason(max_shots)))
    } else {
        Ok(())
    }
}

/// How often and how long to poll a job's status while waiting for it.
#[derive(Debug, Clone, Copy, PartialEq, Eq, Structural)]
pub struct WaitPolicy {
    /// Pause between two polls, in milliseconds.
    pub poll_interval_ms: u64,
    /// Most polls before giving up.
    pub max_polls: u32,
}

impl WaitPolicy {
    /// Poll every 500 ms, at most 600 times (five minutes).
    pub fn standard() -> (r: WaitPolicy)
        ensures
            r.poll_interval_ms == 500,
            r.max_polls == 600,
    {
        WaitPolicy { poll_interval_ms: 500, max_polls: 600 }
    }
}

/// What a waiting caller does after observing a status.
#[derive(Debug, Clone)]
pub enum WaitStep {
    /// The job completed: fetch its result and return it.
    FetchResult,
    /// Still pending: pause this many milliseconds, then poll again.
    Sleep(u64),
    /// Stop waiting with this error.
    Finish(HalError),
}

/// State of one wait for a job: how many polls have been made.
#[derive(Debug, Clone)]
pub struct Waiter {
    /// The job waited for.
    pub job_id: JobId,
    /// Poll interval and limit.
    pub policy: WaitPolicy,
    /// Polls made so far.
    pub polls: u32,
}

impl Waiter {
    /// A wait for `job_id` that has made no poll yet.
    pub fn new(job_id: JobId, policy: WaitPolicy) -> (r: Waiter)
        ensures
            r.job_id.0@ == job_id.0@,
            r.policy == policy,
            r.polls == 0,
    {
        Waiter { job_id, policy, polls: 0 }
    }

    /// Whether the poll budget is used up, so that the wait ends in `Timeout`.
    pub fn exhausted(&self) -> (r: bool)
        ensures
            r == (self.polls >= self.policy.max_polls),
    {
        self.polls >= self.policy.max_polls
    }

    /// The error a wait ends with when its budget is used up.
    pub fn timeout_error(&self) -> (r: HalError)
        ensures
            r matches HalError::Timeout(m) && m@ == self.job_id.0@,
    {
        HalError::Timeout(self.job_id.0.clone())
    }

    /// Decide on one observed status. `Completed` fetches the result;
    /// `Failed(reason)` ends in `JobFailed(reason)`; `Cancelled` ends in
    /// `JobCancelled`; a pending status counts one poll and sleeps for the poll
    /// interval, or, if that was the last poll allowed, ends in `Timeout`.
    pub fn on_status(&mut self, status: JobStatus) -> (step: WaitStep)
        requires
            old(self).polls < old(self).policy.max_polls,
        ensures
            *final(self) == after_status(*old(self), status),
            match status {
                JobStatus::Completed => step is FetchResult,
                JobStatus::Failed(m) => step matches WaitStep::Finish(HalError::JobFailed(e)) && e@
                    == m@,
                JobStatus::Cancelled => step matches WaitStep::Finish(HalError::JobCancelled),
                _ => if times_out_on_pending(*old(self)) {
                    step matches WaitStep::Finish(HalError::Timeout(j)) && j@ == old(self).job_id.0@
                } else {
                    step == WaitStep::Sleep(old(self).policy.poll_interval_ms)
                },
            },
    {
        match status {
            JobStatus::Completed => WaitStep::FetchResult,
            JobStatus::Failed(m) => WaitStep::Finish(HalError::JobFailed(m)),
            JobStatus::Cancelled => WaitStep::Finish(HalError::JobCancelled),
            JobStatus::Queued | JobStatus::Running => {
                self.polls = self.polls + 1;
                if self.polls < self.policy.max_polls {
                    WaitStep::Sleep(self.policy.poll_interval_ms)
                } else {
                    WaitStep::Finish(self.timeout_error())
                }
            },
        }
    }

    /// Decide on the outcome of one status poll: an error of the poll itself
    /// ends the wait with that error and counts no poll; a status is decided
    /// as by `on_status`.
    pub fn on_poll(&mut self, polled: HalResult<JobStatus>) -> (step: WaitStep)
        requires
            old(self).polls < old(self).policy.max_polls,
        ensures
            polled is Err ==> *final(self) == *old(self) && step == WaitStep::Finish(polled->Err_0),
            polled is Ok ==> *final(self) == after_status(*old(self), polled->Ok_0),
            polled matches Ok(status) ==> match status {
                JobStatus::Completed => step is FetchResult,
                JobStatus::Failed(m) => step matches WaitStep::Finish(HalError::JobFailed(e)) && e@
                    == m@,
                JobStatus::Cancelled => step matches WaitStep::Finish(HalError::JobCancelled),
                _ => if times_out_on_pending(*old(self)) {
                    step matches WaitStep::Finish(HalError::Timeout(j)) && j@ == old(self).job_id.0@
                } else {
                    step == WaitStep::Sleep(old(self).policy.poll_interval_ms)
                },
            },
    {
        match polled {
            Err(e) => WaitStep::Finish(e),
            Ok(status) => self.on_status(status),
        }
    }
}

/// The wait's state after observing `status`: a pending status counts a poll.
pub open spec fn after_status(w: Waiter, status: JobStatus) -> Waiter {
    if status.spec_is_pending() {
        Waiter { polls: (w.polls + 1) as u32, ..w }
    } else {
        w
    }
}

/// Whether a wait in state `w` gives up on observing one more pending status.
pub open spec fn times_out_on_pending(w: Waiter) -> bool {
    w.polls + 1 >= w.policy.max_polls
}

/// The wait's state after observing `k` pending statuses in a row.
pub open spec fn after_pending_polls(w: Waiter, k: nat) -> Waiter
    decreases k,
{
    if k == 0 {
        w
    } else {
        after_status(after_pending_polls(w, (k - 1) as nat), JobStatus::Running)
    }
}

/// A job that never leaves a pending status makes a fresh wait end in
/// `Timeout` after exactly `max_polls` polls: before the `k`-th pending
/// observation the wait has counted `k` polls, each of the first
/// `max_polls - 1` observations sleeps, and the `max_polls`-th times out.
pub proof fn lemma_pending_wait_times_out(w: Waiter, k: nat)
    requires
        w.polls == 0,
        k < w.policy.max_polls,
    ensures
        after_pending_polls(w, k).polls == k,
        after_pending_polls(w, k).policy == w.policy,
        after_pending_polls(w, k).job_id == w.job_id,
        times_out_on_pending(after_pending_polls(w, k)) <==> k + 1 == w.policy.max_polls,
    decreases k,
{
    if k > 0 {
        lemma_pending_wait_times_out(w, (k - 1) as nat);
    }
}

} // verus!
