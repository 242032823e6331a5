//! A backend's table of jobs: each job's status and, once it completed, its
//! result. Jobs enter `Queued`, move only forward, and stay in a terminal
//! state once they reach one.
use vstd::prelude::*;
use vstd::string::StringExecFns;
use crate::backend::{check_shots, shots_ok};
use crate::error::{HalError, HalResult};
use crate::job::{same_status, JobId, JobStatus};
use crate::result::ExecutionResult;

verus! {

/// Jobs known to a backend, by identifier.
pub struct JobTable {
    ids: Vec<JobId>,
    statuses: Vec<JobStatus>,
    results: Vec<Option<ExecutionResult>>,
}

/// What cancelling a known job `id` does: a pending job becomes `Cancelled`,
/// a terminal one keeps its status, and every other job is left as it was.
pub open spec fn cancel_effect(before: JobTable, after: JobTable, id: Seq<char>) -> bool {
    &&& forall|k: Seq<char>| #[trigger] after.knows(k) == before.knows(k)
    &&& forall|k: Seq<char>|
        k != id && before.knows(k) ==> #[trigger] after.status_of(k) == before.status_of(k)
    &&& if before.status_of(id).spec_is_terminal() {
        after.status_of(id) == before.status_of(id)
    } else {
        after.status_of(id) is Cancelled
    }
}

/// Cancelling a completed job succeeds and leaves it completed, so a later
/// wait observes `Completed` and fetches its result: no backward move.
pub proof fn lemma_cancel_keeps_completed(before: JobTable, after: JobTable, id: Seq<char>)
    requires
        before.knows(id),
        before.status_of(id) is Completed,
        cancel_effect(before, after, id),
    ensures
        after.knows(id),
        after.status_of(id) is Completed,
{
}

impl JobTable {
    /// The three lists line up, identifiers are distinct, and exactly the
    /// completed jobs hold a result.
    pub closed spec fn wf(&self) -> bool {
        &&& self.statuses@.len() == self.ids@.len()
        &&& self.results@.len() == self.ids@.len()
        &&& forall|i: int, j: int|
            0 <= i < j < self.ids@.len() ==> #[trigger] self.ids@[i].0@ != #[trigger] self.ids@[j].0@
        &&& forall|i: int|
            0 <= i < self.ids@.len() ==> (#[trigger] self.results@[i] is Some <==> self.statuses@[i] is Completed)
    }

    closed spec fn index_of(&self, id: Seq<char>) -> int {
        choose|i: int| 0 <= i < self.ids@.len() && #[trigger] self.ids@[i].0@ == id
    }

    /// Whether a job with this identifier exists.
    pub closed spec fn knows(&self, id: Seq<char>) -> bool {
        exists|i: int| 0 <= i < self.ids@.len() && #[trigger] self.ids@[i].0@ == id
    }

    /// The status of a known job.
    pub closed spec fn status_of(&self, id: Seq<char>) -> JobStatus {
        self.statuses@[self.index_of(id)]
    }

    /// The stored result of a completed job.
    pub closed spec fn result_of(&self, id: Seq<char>) -> ExecutionResult {
        self.results@[self.index_of(id)]->Some_0
    }

    proof fn lemma_index(&self, i: int)
        requires
            self.wf(),
            0 <= i < self.ids@.len(),
        ensures
            self.knows(self.ids@[i].0@),
            self.index_of(self.ids@[i].0@) == i,
    {
        let k = self.ids@[i].0@;
        assert(self.knows(k));
        let j = self.index_of(k);
        if j != i {
            if j < i {
                assert(self.ids@[j].0@ != self.ids@[i].0@);
            } else {
                assert(self.ids@[i].0@ != self.ids@[j].0@);
            }
        }
    }

    fn find(&self, id: &JobId) -> (r: Option<usize>)
        requires
            self.wf(),
        ensures
            r is None <==> !self.knows(id.0@),
            r matches Some(i) ==> i < self.ids@.len() && self.ids@[i as int].0@ == id.0@
                && self.index_of(id.0@) == i,
    {
        let mut i: usize = 0;
        while i < self.ids.len()
            invariant
                self.wf(),
                i <= self.ids@.len(),
                forall|j: int| 0 <= j < i ==> #[trigger] self.ids@[j].0@ != id.0@,
            decreases self.ids@.len() - i,
        {
            if self.ids[i].0 == id.0 {
                proof {
                    self.lemma_index(i as int);
                }
                return Some(i);
            }
            i = i + 1;
        }
        None
    }

    /// No jobs.
    pub fn new() -> (r: JobTable)
        ensures
            r.wf(),
            forall|id: Seq<char>| !#[trigger] r.knows(id),
    {
        JobTable { ids: Vec::new(), statuses: Vec::new(), results: Vec::new() }
    }

    /// Record a new job under `id`, in status `Queued`. Fails with
    /// `InvalidShots` when `shots` is zero or above `max_shots`, and with
    /// `SubmissionFailed` when `id` is already in use (identifiers are never
    /// reused); the table is then unchanged.
    pub fn submit(&mut self, id: JobId, shots: u32, max_shots: u32) -> (r: HalResult<JobId>)
        requires
            old(self).wf(),
        ensures
            final(self).wf(),
            !shots_ok(shots, max_shots) ==> r matches Err(HalError::InvalidShots(_)),
            shots_ok(shots, max_shots) && old(self).knows(id.0@) ==> r matches Err(HalError::SubmissionFailed(_)),
            r is Err ==> *final(self) == *old(self),
            shots_ok(shots, max_shots) && !old(self).knows(id.0@) ==> {
                &&& r matches Ok(j) && j.0@ == id.0@
                &&& final(self).knows(id.0@)
                &&& final(self).status_of(id.0@) is Queued
                &&& forall|k: Seq<char>| k != id.0@ ==> (#[trigger] final(self).knows(k) == old(self).knows(k))
                &&& forall|k: Seq<char>| k != id.0@ && old(self).knows(k) ==> #[trigger] final(self).status_of(k) == old(self).status_of(k)
            },
    {
        match check_shots(shots, max_shots) {
            Err(e) => return Err(e),
            Ok(()) => {},
        }
        if self.find(&id).is_some() {
            return Err(HalError::SubmissionFailed(String::from_str("job identifier already in use")));
        }
        let ghost prev = *self;
        let reply = JobId(id.0.clone());
        self.ids.push(id);
        self.statuses.push(JobStatus::Queued);
        self.results.push(None);
        proof {
            let n = prev.ids@.len() as int;
            assert forall|i: int, j: int|
                0 <= i < j < self.ids@.len() implies #[trigger] self.ids@[i].0@ != #[trigger] self.ids@[j].0@ by {
                if j == n {
                    assert(prev.ids@[i] == self.ids@[i]);
                    assert(!prev.knows(self.ids@[n].0@));
                }
            }
            assert(self.wf());
            self.lemma_index(n);
            assert forall|k: Seq<char>| k != reply.0@ implies (#[trigger] self.knows(k) == prev.knows(k)) by {
                if self.knows(k) {
                    let i = choose|i: int| 0 <= i < self.ids@.len() && #[trigger] self.ids@[i].0@ == k;
                    assert(prev.ids@[i] == self.ids@[i]);
                }
                if prev.knows(k) {
                    let i = choose|i: int| 0 <= i < prev.ids@.len() && #[trigger] prev.ids@[i].0@ == k;
                    assert(prev.ids@[i] == self.ids@[i]);
                }
            }
            assert forall|k: Seq<char>| k != reply.0@ && prev.knows(k) implies #[trigger] self.status_of(k) == prev.status_of(k) by {
                let i = prev.index_of(k);
                prev.lemma_index(i);
                assert(prev.ids@[i] == self.ids@[i]);
                self.lemma_index(i);
            }
        }
        Ok(reply)
    }

    /// The current status of a job; `JobNotFound` when the table does not know it.
    pub fn status(&self, id: &JobId) -> (r: HalResult<JobStatus>)
        requires
            self.wf(),
        ensures
            r is Ok <==> self.knows(id.0@),
            r matches Ok(s) ==> same_status(s, self.status_of(id.0@)),
            r matches Err(e) ==> e matches HalError::JobNotFound(m) && m@ == id.0@,
    {
        match self.find(id) {
            Some(i) => Ok(self.statuses[i].duplicate()),
            None => Err(HalError::JobNotFound(id.0.clone())),
        }
    }

    /// Cancel a job: a job not yet in a terminal state becomes `Cancelled`; a
    /// terminal one is left as it is, and the call still succeeds. Fails with
    /// `JobNotFound` when the table does not know the job.
    pub fn cancel(&mut self, id: &JobId) -> (r: HalResult<()>)
        requires
            old(self).wf(),
        ensures
            final(self).wf(),
            r is Ok <==> old(self).knows(id.0@),
            r matches Err(e) ==> e matches HalError::JobNotFound(m) && m@ == id.0@,
            forall|k: Seq<char>| #[trigger] final(self).knows(k) == old(self).knows(k),
            forall|k: Seq<char>| k != id.0@ && old(self).knows(k) ==> #[trigger] final(self).status_of(k) == old(self).status_of(k),
            old(self).knows(id.0@) ==> cancel_effect(*old(self), *final(self), id.0@),
    {
        match self.find(id) {
            None => Err(HalError::JobNotFound(id.0.clone())),
            Some(i) => {
                if !self.statuses[i].is_terminal() {
                    self.set_status(i, JobStatus::Cancelled);
                }
                Ok(())
            },
        }
    }

    /// Record that a job moved to `next`, which must be a forward move of the
    /// state machine and not `Completed` (see `complete`). Fails with
    /// `JobNotFound` for an unknown job and with `Backend` for a move the state
    /// machine forbids; the table is then unchanged.
    pub fn update(&mut self, id: &JobId, next: JobStatus) -> (r: HalResult<()>)
        requires
            old(self).wf(),
        ensures
            final(self).wf(),
            r is Ok <==> old(self).knows(id.0@) && !(next is Completed) && old(self).status_of(
                id.0@,
            ).spec_may_become(next),
            !old(self).knows(id.0@) ==> (r matches Err(HalError::JobNotFound(m)) && m@ == id.0@),
            r is Err ==> *final(self) == *old(self),
            r is Ok ==> final(self).status_of(id.0@) == next,
            forall|k: Seq<char>| #[trigger] final(self).knows(k) == old(self).knows(k),
            forall|k: Seq<char>| k != id.0@ && old(self).knows(k) ==> #[trigger] final(self).status_of(k) == old(self).status_of(k),
    {
        match self.find(id) {
            None => Err(HalError::JobNotFound(id.0.clone())),
            Some(i) => {
                let completed = match &next {
                    JobStatus::Completed => true,
                    _ => false,
                };
                if completed || !self.statuses[i].may_become(&next) {
                    Err(HalError::Backend(String::from_str("status transition not allowed")))
                } else {
                    self.set_status(i, next);
                    Ok(())
                }
            },
        }
    }

    /// Record that a pending job completed with `result`. Fails with
    /// `JobNotFound` for an unknown job and with `Backend` for a job already in
    /// a terminal state; the table is then unchanged.
    pub fn complete(&mut self, id: &JobId, result: ExecutionResult) -> (r: HalResult<()>)
        requires
            old(self).wf(),
        ensures
            final(self).wf(),
            r is Ok <==> old(self).knows(id.0@) && old(self).status_of(id.0@).spec_is_pending(),
            !old(self).knows(id.0@) ==> (r matches Err(HalError::JobNotFound(m)) && m@ == id.0@),
            r is Err ==> *final(self) == *old(self),
            r is Ok ==> final(self).status_of(id.0@) is Completed && final(self).result_of(id.0@) == result,
            forall|k: Seq<char>| #[trigger] final(self).knows(k) == old(self).knows(k),
            forall|k: Seq<char>| k != id.0@ && old(self).knows(k) ==> #[trigger] final(self).status_of(k) == old(self).status_of(k),
    {
        match self.find(id) {
            None => Err(HalError::JobNotFound(id.0.clone())),
            Some(i) => {
                if self.statuses[i].is_terminal() {
                    Err(HalError::Backend(String::from_str("job already finished")))
                } else {
                    let ghost prev = *self;
                    self.results.set(i, Some(result));
                    self.statuses.set(i, JobStatus::Completed);
                    proof {
                        self.lemma_after_set(prev, i as int);
                    }
                    Ok(())
                }
            },
        }
    }

    /// The result of a completed job. Fails with `JobNotFound` for an unknown
    /// job and with `Backend` for a job that has not completed.
    pub fn result(&self, id: &JobId) -> (r: HalResult<ExecutionResult>)
        requires
            self.wf(),
        ensures
            r is Ok <==> self.knows(id.0@) && self.status_of(id.0@) is Completed,
            !self.knows(id.0@) ==> (r matches Err(HalError::JobNotFound(m)) && m@ == id.0@),
            r matches Ok(x) ==> x.counts@ == self.result_of(id.0@).counts@ && x.shots == self.result_of(id.0@).shots
                && x.execution_time_ms == self.result_of(id.0@).execution_time_ms
                && x.metadata == self.result_of(id.0@).metadata,
    {
        match self.find(id) {
            None => Err(HalError::JobNotFound(id.0.clone())),
            Some(i) => match &self.results[i] {
                Some(x) => Ok(x.duplicate()),
                None => Err(HalError::Backend(String::from_str("job has not completed"))),
            },
        }
    }

    fn set_status(&mut self, i: usize, next: JobStatus)
        requires
            old(self).wf(),
            i < old(self).ids@.len(),
            !(next is Completed),
            !(old(self).statuses@[i as int] is Completed),
        ensures
            final(self).wf(),
            final(self).status_of(old(self).ids@[i as int].0@) == next,
            forall|k: Seq<char>| #[trigger] final(self).knows(k) == old(self).knows(k),
            forall|k: Seq<char>| k != old(self).ids@[i as int].0@ && old(self).knows(k) ==> #[trigger] final(self).status_of(k) == old(self).status_of(k),
    {
        let ghost prev = *self;
        self.statuses.set(i, next);
        proof {
            self.lemma_after_set(prev, i as int);
        }
    }

    proof fn lemma_after_set(&self, prev: JobTable, i: int)
        requires
            prev.wf(),
            0 <= i < prev.ids@.len(),
            self.ids == prev.ids,
            self.statuses@.len() == prev.statuses@.len(),
            self.results@.len() == prev.results@.len(),
            self.results@[i] is Some <==> self.statuses@[i] is Completed,
            forall|j: int| 0 <= j < prev.ids@.len() && j != i ==> self.statuses@[j] == prev.statuses@[j] && self.results@[j] == prev.results@[j],
        ensures
            self.wf(),
            self.status_of(prev.ids@[i].0@) == self.statuses@[i],
            self.result_of(prev.ids@[i].0@) == self.results@[i]->Some_0,
            forall|k: Seq<char>| #[trigger] self.knows(k) == prev.knows(k),
            forall|k: Seq<char>| k != prev.ids@[i].0@ && prev.knows(k) ==> #[trigger] self.status_of(k) == prev.status_of(k),
    {
        assert(self.wf()) by {
            assert forall|j: int| 0 <= j < self.ids@.len() implies (#[trigger] self.results@[j] is Some <==> self.statuses@[j] is Completed) by {
                if j != i {
                    assert(prev.results@[j] is Some <==> prev.statuses@[j] is Completed);
                }
            }
        }
        self.lemma_index(i);
        assert forall|k: Seq<char>| k != prev.ids@[i].0@ && prev.knows(k) implies #[trigger] self.status_of(k) == prev.status_of(k) by {
            let j = prev.index_of(k);
            prev.lemma_index(j);
            self.lemma_index(j);
        }
    }
}

} // verus!
