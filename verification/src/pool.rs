//! The pool: submission, hand-off to workers, bookkeeping and shutdown.
//!
//! [`ThreadPool`] holds everything that the threads of a running pool share
//! and decides everything that they do. A submitter calls
//! [`ThreadPool::execute`]; a worker thread calls [`ThreadPool::claim`],
//! runs the payload it is handed, and calls [`ThreadPool::complete`] with
//! what the payload returned; disposal calls [`ThreadPool::close`] and waits
//! until [`ThreadPool::all_terminated`]. The payload is never run in here,
//! so no lock that guards the pool is held while a job executes.

use std::collections::VecDeque;
use vstd::prelude::*;

use crate::ident::{is_first_vacant, is_random_uuid, random_id};
use crate::job::{outcome_view, JobMetadata};
use crate::model::{
    lemma_claim_inv, lemma_close_inv, lemma_complete_inv, lemma_init_inv, lemma_retire_inv,
    lemma_submit_inv, Claim, Job, PoolState, WorkerState,
};
use crate::registry::JobRegistry;

verus! {

/// Why a pool could not be created.
#[derive(Debug)]
pub enum PoolCreateError {
    /// A pool needs at least one worker.
    NonValueZeroAllowed,
}

/// A pool of a fixed number of workers that run jobs with payloads of
/// type `P`.
#[derive(Debug)]
pub struct ThreadPool<P> {
    open: bool,
    queue: VecDeque<Job<P>>,
    workers: Vec<WorkerState>,
    jobs: JobRegistry,
}

impl<P> View for ThreadPool<P> {
    type V = PoolState<P>;

    closed spec fn view(&self) -> PoolState<P> {
        PoolState {
            open: self.open,
            queue: self.queue@,
            workers: self.workers@,
            registry: self.jobs@,
        }
    }
}

impl<P> ThreadPool<P> {
    /// The pool is in a state that a pool can reach.
    pub open spec fn wf(&self) -> bool {
        self@.inv()
    }

    /// Creates a pool of `size` workers, all idle, with nothing submitted.
    ///
    /// A pool of no workers is refused; every other size succeeds.
    pub fn build(size: usize) -> (built: Result<ThreadPool<P>, PoolCreateError>)
        ensures
            size == 0 <==> built is Err,
            built matches Ok(pool) ==> pool@ == PoolState::<P>::init(size as nat) && pool.wf(),
    {
        if size == 0 {
            return Err(PoolCreateError::NonValueZeroAllowed);
        }
        let mut workers: Vec<WorkerState> = Vec::new();
        let mut made: usize = 0;
        while made < size
            invariant
                made <= size,
                workers@.len() == made,
                forall|w: int| 0 <= w < made ==> workers@[w] is Idle,
            decreases size - made,
        {
            workers.push(WorkerState::Idle);
            made = made + 1;
        }
        let pool = ThreadPool { open: true, queue: VecDeque::new(), workers, jobs: JobRegistry::new() };
        proof {
            assert(pool@.workers =~= PoolState::<P>::init(size as nat).workers);
            lemma_init_inv::<P>(size as nat);
        }
        Ok(pool)
    }

    /// The number of worker slots.
    pub fn size(&self) -> (size: usize)
        ensures
            size == self@.workers.len(),
    {
        self.workers.len()
    }

    /// Whether the producer end is still open.
    pub fn is_open(&self) -> (open: bool)
        ensures
            open == self@.open,
    {
        self.open
    }

    /// How many submitted jobs no worker has claimed yet.
    pub fn queued(&self) -> (waiting: usize)
        ensures
            waiting == self@.queue.len(),
    {
        self.queue.len()
    }

    /// What worker `worker` is doing, or `None` if there is no such worker.
    pub fn worker_state(&self, worker: usize) -> (state: Option<WorkerState>)
        ensures
            worker < self@.workers.len() ==> state == Some(self@.workers[worker as int]),
            worker >= self@.workers.len() ==> state is None,
    {
        if worker < self.workers.len() {
            Some(self.workers[worker])
        } else {
            None
        }
    }

    /// Whether some worker is still in its loop.
    pub fn has_consumer(&self) -> (alive: bool)
        ensures
            alive == self@.has_consumer(),
    {
        let mut w: usize = 0;
        while w < self.workers.len()
            invariant
                w <= self.workers@.len(),
                forall|v: int| 0 <= v < w ==> !self@.is_alive(v),
            decreases self.workers@.len() - w,
        {
            match self.workers[w] {
                WorkerState::Terminated => {},
                _ => {
                    assert(self@.is_alive(w as int));
                    return true;
                },
            }
            w = w + 1;
        }
        false
    }

    /// Whether every worker has left its loop: the condition that joining
    /// all workers waits for.
    pub fn all_terminated(&self) -> (done: bool)
        ensures
            done == self@.all_terminated(),
    {
        let mut w: usize = 0;
        while w < self.workers.len()
            invariant
                w <= self.workers@.len(),
                forall|v: int| 0 <= v < w ==> self@.is_terminated(v),
            decreases self.workers@.len() - w,
        {
            match self.workers[w] {
                WorkerState::Terminated => {},
                _ => {
                    assert(!self@.is_terminated(w as int));
                    return false;
                },
            }
            w = w + 1;
        }
        true
    }

    /// Submits a job under the first identifier at or after `candidate`
    /// that no job of this pool carries, and returns that identifier.
    ///
    /// The job is registered as `Pending` and joins the back of the queue.
    /// If the producer end is closed or no worker remains, the job is
    /// registered all the same and its payload is dropped: it stays
    /// `Pending` for good.
    pub fn submit(&mut self, candidate: u128, payload: P) -> (id: u128)
        requires
            old(self).wf(),
        ensures
            is_first_vacant(old(self)@.registry.dom(), candidate, id),
            !old(self)@.registry.contains_key(id),
            !old(self)@.registry.contains_key(candidate) ==> id == candidate,
            final(self)@ == old(self)@.submit(id, payload),
            final(self).wf(),
    {
        let id = self.jobs.first_vacant(candidate);
        let delivers = self.open && self.has_consumer();
        self.jobs.register(id);
        if delivers {
            self.queue.push_back(Job { id, payload });
        }
        proof {
            lemma_submit_inv(old(self)@, id, payload);
        }
        id
    }

    /// Submits a job under a freshly drawn random identifier and returns
    /// the identifier, without waiting for the job to run.
    ///
    /// The identifier differs from that of every job submitted to this pool
    /// before. It is the random draw itself unless an earlier job already
    /// carries that value, in which case it is the next vacant one.
    pub fn execute(&mut self, payload: P) -> (id: u128)
        requires
            old(self).wf(),
        ensures
            !old(self)@.registry.contains_key(id),
            exists|candidate: u128|
                is_random_uuid(candidate) && #[trigger] is_first_vacant(
                    old(self)@.registry.dom(),
                    candidate,
                    id,
                ),
            final(self)@ == old(self)@.submit(id, payload),
            final(self).wf(),
    {
        let candidate = random_id();
        self.submit(candidate, payload)
    }

    /// A copy of the record of job `job_id`, or `None` for an identifier
    /// that no job of this pool carries.
    pub fn get_job_metadata(&self, job_id: u128) -> (found: Option<JobMetadata>)
        ensures
            match found {
                Some(meta) => self@.registry.contains_key(job_id) && meta@
                    == self@.registry[job_id],
                None => !self@.registry.contains_key(job_id),
            },
    {
        self.jobs.get(job_id)
    }

    /// Worker `worker` asks for the next job.
    ///
    /// The answer is [`PoolState::offer`] and the pool moves on as
    /// [`PoolState::claim`] says: an idle worker is handed the oldest queued
    /// job, which becomes `Processing`; with nothing queued it is told to
    /// wait, or, once the producer end is closed, to exit, and is then
    /// terminated.
    pub fn claim(&mut self, worker: usize) -> (told: Claim<P>)
        requires
            old(self).wf(),
        ensures
            told == old(self)@.offer(worker as int),
            final(self)@ == old(self)@.claim(worker as int),
            final(self).wf(),
    {
        proof {
            lemma_claim_inv(old(self)@, worker as int);
        }
        if worker >= self.workers.len() {
            return Claim::Exit;
        }
        match self.workers[worker] {
            WorkerState::Terminated => Claim::Exit,
            WorkerState::Executing(_) => Claim::Wait,
            WorkerState::Idle => {
                match self.queue.pop_front() {
                    Some(job) => {
                        proof {
                            assert(old(self)@.is_pending(old(self)@.queue[0].id));
                        }
                        self.jobs.mark_processing(job.id);
                        self.workers.set(worker, WorkerState::Executing(job.id));
                        assert(self@.workers =~= old(self)@.claim(worker as int).workers);
                        Claim::Run { id: job.id, payload: job.payload }
                    },
                    None => {
                        if self.open {
                            Claim::Wait
                        } else {
                            self.workers.set(worker, WorkerState::Terminated);
                            assert(self@.workers =~= old(self)@.claim(worker as int).workers);
                            Claim::Exit
                        }
                    },
                }
            },
        }
    }

    /// Worker `worker` reports what the payload it was handed returned.
    ///
    /// The job settles as `Completed` with the success text as its result,
    /// or as `Failed` with the reason, which is also its result, and the
    /// worker is idle again. Returns whether the worker was running a job;
    /// if it was not, nothing changes.
    pub fn complete(&mut self, worker: usize, outcome: Result<String, String>) -> (settled: bool)
        requires
            old(self).wf(),
        ensures
            settled == (worker < old(self)@.workers.len()
                && old(self)@.workers[worker as int] is Executing),
            final(self)@ == old(self)@.complete(worker as int, outcome_view(outcome)),
            final(self).wf(),
    {
        proof {
            lemma_complete_inv(old(self)@, worker as int, outcome_view(outcome));
        }
        if worker >= self.workers.len() {
            return false;
        }
        match self.workers[worker] {
            WorkerState::Executing(id) => {
                proof {
                    assert(old(self)@.holds(worker as int, id));
                    assert(old(self)@.is_processing(id));
                }
                self.jobs.record_outcome(id, outcome);
                self.workers.set(worker, WorkerState::Idle);
                assert(self@.workers =~= old(self)@.complete(
                    worker as int,
                    outcome_view(outcome),
                ).workers);
                true
            },
            _ => false,
        }
    }

    /// Worker `worker` gives up between jobs, as it does when it can no
    /// longer reach what the workers share.
    ///
    /// An idle worker is terminated, and the pool has one slot fewer from
    /// then on. Returns whether the worker was idle; if it was not, nothing
    /// changes.
    pub fn retire(&mut self, worker: usize) -> (left: bool)
        requires
            old(self).wf(),
        ensures
            left == old(self)@.is_idle(worker as int),
            final(self)@ == old(self)@.retire(worker as int),
            final(self).wf(),
    {
        proof {
            lemma_retire_inv(old(self)@, worker as int);
        }
        if worker >= self.workers.len() {
            return false;
        }
        match self.workers[worker] {
            WorkerState::Idle => {
                self.workers.set(worker, WorkerState::Terminated);
                assert(self@.workers =~= old(self)@.retire(worker as int).workers);
                true
            },
            _ => false,
        }
    }

    /// Closes the producer end: the signal that no more jobs will arrive.
    ///
    /// Jobs already queued are still handed out; a worker that then finds
    /// the queue empty is told to exit. Closing a closed pool changes
    /// nothing.
    pub fn close(&mut self)
        requires
            old(self).wf(),
        ensures
            final(self)@ == old(self)@.close(),
            final(self).wf(),
    {
        proof {
            lemma_close_inv(old(self)@);
        }
        self.open = false;
    }
}

} // verus!
