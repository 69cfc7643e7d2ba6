//! The lifecycle of one job and the record kept of it.
//!
//! A job is `Pending` from submission until a worker claims it, `Processing`
//! while its payload runs, and then settles for good as `Completed` or
//! `Failed`. The record carries the text the payload produced once it has
//! settled, and nothing before.

use vstd::prelude::*;

verus! {

/// Where a job stands in its lifecycle.
#[derive(Debug, Clone)]
pub enum JobStatus {
    /// Submitted, not yet claimed by a worker.
    Pending,
    /// Claimed; its payload is running.
    Processing,
    /// The payload reported success.
    Completed,
    /// The payload reported failure, with this reason.
    Failed(String),
}

/// What the registry keeps for one job.
#[derive(Clone, Debug)]
pub struct JobMetadata {
    /// The current lifecycle state.
    pub state: JobStatus,
    /// The text the payload produced; unset until the job has settled.
    pub result: Option<String>,
}

/// The mathematical value of a [`JobStatus`].
pub enum Phase {
    Pending,
    Processing,
    Completed,
    Failed(Seq<char>),
}

/// The mathematical value of a [`JobMetadata`].
pub struct JobRecord {
    pub state: Phase,
    pub result: Option<Seq<char>>,
}

/// The mathematical value of what a payload returns.
pub type Outcome = Result<Seq<char>, Seq<char>>;

impl Phase {
    /// How far along the lifecycle a phase is: 0 before the claim, 1 while
    /// the payload runs, 2 once settled.
    pub open spec fn rank(self) -> nat {
        match self {
            Phase::Pending => 0,
            Phase::Processing => 1,
            Phase::Completed => 2,
            Phase::Failed(_) => 2,
        }
    }

    /// Settled phases are the two that a job never leaves.
    pub open spec fn is_terminal(self) -> bool {
        self is Completed || self is Failed
    }
}

impl JobRecord {
    /// The record of a job that has just been submitted.
    pub open spec fn pending() -> JobRecord {
        JobRecord { state: Phase::Pending, result: None }
    }

    /// The record of a job whose payload is running.
    pub open spec fn processing() -> JobRecord {
        JobRecord { state: Phase::Processing, result: None }
    }

    /// The record of a job whose payload returned `outcome`.
    pub open spec fn settled(outcome: Outcome) -> JobRecord {
        match outcome {
            Ok(text) => JobRecord { state: Phase::Completed, result: Some(text) },
            Err(reason) => JobRecord { state: Phase::Failed(reason), result: Some(reason) },
        }
    }

    /// The result is unset before the job settles, and afterwards holds the
    /// success text or the very reason the state names.
    pub open spec fn consistent(self) -> bool {
        match self.state {
            Phase::Pending => self.result is None,
            Phase::Processing => self.result is None,
            Phase::Completed => self.result is Some,
            Phase::Failed(reason) => self.result == Some(reason),
        }
    }

    /// `later` is what an observer may see after having seen `self`: the
    /// same record, or one further along the lifecycle. A settled record
    /// admits only itself.
    pub open spec fn precedes(self, later: JobRecord) -> bool {
        later == self || self.state.rank() < later.state.rank()
    }
}

impl View for JobStatus {
    type V = Phase;

    open spec fn view(&self) -> Phase {
        match self {
            JobStatus::Pending => Phase::Pending,
            JobStatus::Processing => Phase::Processing,
            JobStatus::Completed => Phase::Completed,
            JobStatus::Failed(reason) => Phase::Failed(reason@),
        }
    }
}

impl View for JobMetadata {
    type V = JobRecord;

    open spec fn view(&self) -> JobRecord {
        JobRecord {
            state: self.state@,
            result: match self.result {
                Some(text) => Some(text@),
                None => None,
            },
        }
    }
}

/// The mathematical value of a payload's return value.
pub open spec fn outcome_view(outcome: Result<String, String>) -> Outcome {
    match outcome {
        Ok(text) => Ok(text@),
        Err(reason) => Err(reason@),
    }
}

impl JobStatus {
    /// An independent copy with the same value.
    pub fn snapshot(&self) -> (copy: JobStatus)
        ensures
            copy@ == self@,
    {
        match self {
            JobStatus::Pending => JobStatus::Pending,
            JobStatus::Processing => JobStatus::Processing,
            JobStatus::Completed => JobStatus::Completed,
            JobStatus::Failed(reason) => JobStatus::Failed(reason.clone()),
        }
    }

    /// Whether the job has settled, as `Completed` or `Failed`.
    pub fn is_terminal(&self) -> (settled: bool)
        ensures
            settled == self@.is_terminal(),
    {
        match self {
            JobStatus::Pending => false,
            JobStatus::Processing => false,
            JobStatus::Completed => true,
            JobStatus::Failed(_) => true,
        }
    }
}

impl JobMetadata {
    /// The record of a job that has just been submitted.
    pub fn pending() -> (meta: JobMetadata)
        ensures
            meta@ == JobRecord::pending(),
    {
        JobMetadata { state: JobStatus::Pending, result: None }
    }

    /// The record of a job whose payload is running.
    pub fn processing() -> (meta: JobMetadata)
        ensures
            meta@ == JobRecord::processing(),
    {
        JobMetadata { state: JobStatus::Processing, result: None }
    }

    /// The record of a job whose payload returned `outcome`: `Completed`
    /// with the success text, or `Failed` with the reason, which is also
    /// stored as the result.
    pub fn settled(outcome: Result<String, String>) -> (meta: JobMetadata)
        ensures
            meta@ == JobRecord::settled(outcome_view(outcome)),
    {
        match outcome {
            Ok(text) => JobMetadata { state: JobStatus::Completed, result: Some(text) },
            Err(reason) => {
                let stored = reason.clone();
                JobMetadata { state: JobStatus::Failed(reason), result: Some(stored) }
            },
        }
    }

    /// An independent copy with the same value.
    pub fn snapshot(&self) -> (copy: JobMetadata)
        ensures
            copy@ == self@,
    {
        let result = match &self.result {
            Some(text) => Some(text.clone()),
            None => None,
        };
        JobMetadata { state: self.state.snapshot(), result }
    }
}

/// Every record that a job's lifecycle produces is consistent.
pub proof fn law_lifecycle_records_are_consistent(outcome: Outcome)
    ensures
        JobRecord::pending().consistent(),
        JobRecord::processing().consistent(),
        JobRecord::settled(outcome).consistent(),
{
}

/// Observation order is reflexive and transitive, and a settled record is
/// followed only by itself.
pub proof fn law_observation_order(a: JobRecord, b: JobRecord, c: JobRecord)
    ensures
        a.precedes(a),
        a.precedes(b) && b.precedes(c) ==> a.precedes(c),
        a.state.is_terminal() && a.precedes(b) ==> b == a,
{
}

} // verus!
