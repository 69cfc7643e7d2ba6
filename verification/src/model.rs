//! The pool as a state machine.
//!
//! A pool is a producer end that is open or closed, a first-in first-out
//! queue of jobs that no worker has claimed yet, one state per worker, and
//! the registry of job records. Everything that happens to a pool is one of
//! five events; [`PoolState::step`] says what each does. The executable pool
//! is specified against this machine, and the laws of the library are proved
//! of it.

use vstd::prelude::*;

use crate::job::{JobRecord, Outcome};
use crate::registry::all_consistent;

verus! {

/// One unit of work on its way to a worker: its identifier and its payload.
#[derive(Debug)]
pub struct Job<P> {
    pub id: u128,
    pub payload: P,
}

/// What one worker is doing.
#[derive(Clone, Copy, Debug, PartialEq, Eq, Structural)]
pub enum WorkerState {
    /// Waiting to claim the next job.
    Idle,
    /// Running the payload of the job with this identifier.
    Executing(u128),
    /// Out of its loop for good.
    Terminated,
}

/// What a worker is told when it asks for work.
#[derive(Debug)]
pub enum Claim<P> {
    /// Run this payload, then report what it returned.
    Run { id: u128, payload: P },
    /// Nothing to do for now; ask again when a job arrives or the pool closes.
    Wait,
    /// No job will ever come: leave the loop.
    Exit,
}

/// Something that happens to a pool.
pub enum Event<P> {
    /// A job is submitted under identifier `id`.
    Submit { id: u128, payload: P },
    /// Worker `worker` asks for the next job.
    Claim { worker: int },
    /// Worker `worker` reports what its payload returned.
    Complete { worker: int, outcome: Outcome },
    /// Worker `worker` gives up between jobs.
    Retire { worker: int },
    /// The producer end is closed.
    Close,
}

/// The mathematical value of a pool.
pub struct PoolState<P> {
    /// Whether the producer end is still open.
    pub open: bool,
    /// The submitted jobs that no worker has claimed, oldest first.
    pub queue: Seq<Job<P>>,
    /// The state of each worker, by worker index.
    pub workers: Seq<WorkerState>,
    /// The record of every job ever submitted.
    pub registry: Map<u128, JobRecord>,
}

impl<P> PoolState<P> {
    /// A new pool of `size` idle workers, open, with nothing submitted.
    pub open spec fn init(size: nat) -> PoolState<P> {
        PoolState {
            open: true,
            queue: Seq::empty(),
            workers: Seq::new(size, |w: int| WorkerState::Idle),
            registry: Map::empty(),
        }
    }

    /// Worker `worker` exists and is waiting for a job.
    pub open spec fn is_idle(self, worker: int) -> bool {
        0 <= worker < self.workers.len() && self.workers[worker] is Idle
    }

    /// Worker `worker` exists and has left its loop.
    pub open spec fn is_terminated(self, worker: int) -> bool {
        0 <= worker < self.workers.len() && self.workers[worker] is Terminated
    }

    /// Worker `worker` exists and is running job `id`.
    pub open spec fn holds(self, worker: int, id: u128) -> bool {
        0 <= worker < self.workers.len() && self.workers[worker] == WorkerState::Executing(id)
    }

    /// Worker `worker` exists and has not left its loop.
    pub open spec fn is_alive(self, worker: int) -> bool {
        0 <= worker < self.workers.len() && !(self.workers[worker] is Terminated)
    }

    /// Some worker is still in its loop, so a queued job can be claimed.
    pub open spec fn has_consumer(self) -> bool {
        exists|worker: int| self.is_alive(worker)
    }

    /// A submitted job is handed to the queue: the producer end is open and
    /// a consumer remains.
    pub open spec fn delivers(self) -> bool {
        self.open && self.has_consumer()
    }

    /// Job `id` is registered and `Pending`.
    pub open spec fn is_pending(self, id: u128) -> bool {
        self.registry.contains_key(id) && self.registry[id].state is Pending
    }

    /// Job `id` is registered and `Processing`.
    pub open spec fn is_processing(self, id: u128) -> bool {
        self.registry.contains_key(id) && self.registry[id].state is Processing
    }

    /// Job `id` is registered and has settled.
    pub open spec fn is_settled(self, id: u128) -> bool {
        self.registry.contains_key(id) && self.registry[id].state.is_terminal()
    }

    /// Every worker has left its loop: what joining all workers waits for.
    pub open spec fn all_terminated(self) -> bool {
        forall|worker: int| 0 <= worker < self.workers.len() ==> self.is_terminated(worker)
    }

    /// The pool after a job is submitted under `id`.
    ///
    /// A fresh identifier gets a `Pending` record, and the job joins the
    /// back of the queue if the pool delivers; otherwise the job is dropped
    /// and stays `Pending` for good. An identifier that a job already
    /// carries changes nothing.
    pub open spec fn submit(self, id: u128, payload: P) -> PoolState<P> {
        if self.registry.contains_key(id) {
            self
        } else {
            PoolState {
                registry: self.registry.insert(id, JobRecord::pending()),
                queue: if self.delivers() {
                    self.queue.push(Job { id, payload })
                } else {
                    self.queue
                },
                ..self
            }
        }
    }

    /// What worker `worker` is told when it asks for work.
    ///
    /// An idle worker gets the oldest queued job; with the queue empty it
    /// waits while the producer end is open and exits once it is closed. A
    /// worker that is running a job is told to wait. A worker that has left,
    /// or an index that names no worker, is told to exit.
    pub open spec fn offer(self, worker: int) -> Claim<P> {
        if self.is_idle(worker) {
            if self.queue.len() > 0 {
                Claim::Run { id: self.queue[0].id, payload: self.queue[0].payload }
            } else if self.open {
                Claim::Wait
            } else {
                Claim::Exit
            }
        } else if self.is_alive(worker) {
            Claim::Wait
        } else {
            Claim::Exit
        }
    }

    /// The pool after worker `worker` has asked for work.
    ///
    /// An idle worker that gets a job takes it off the queue and runs it,
    /// and the job becomes `Processing`. An idle worker that finds the queue
    /// empty and the producer end closed terminates. Nothing else changes.
    pub open spec fn claim(self, worker: int) -> PoolState<P> {
        if self.is_idle(worker) {
            if self.queue.len() > 0 {
                PoolState {
                    queue: self.queue.subrange(1, self.queue.len() as int),
                    workers: self.workers.update(worker, WorkerState::Executing(self.queue[0].id)),
                    registry: self.registry.insert(self.queue[0].id, JobRecord::processing()),
                    ..self
                }
            } else if self.open {
                self
            } else {
                PoolState { workers: self.workers.update(worker, WorkerState::Terminated), ..self }
            }
        } else {
            self
        }
    }

    /// The pool after worker `worker` has reported `outcome`.
    ///
    /// If the worker is running a job, that job settles with the outcome
    /// and the worker is idle again. A report from any other worker changes
    /// nothing.
    pub open spec fn complete(self, worker: int, outcome: Outcome) -> PoolState<P> {
        if 0 <= worker < self.workers.len() {
            match self.workers[worker] {
                WorkerState::Executing(id) => PoolState {
                    workers: self.workers.update(worker, WorkerState::Idle),
                    registry: self.registry.insert(id, JobRecord::settled(outcome)),
                    ..self
                },
                _ => self,
            }
        } else {
            self
        }
    }

    /// The pool after worker `worker` has given up: an idle worker
    /// terminates, and nothing else changes.
    pub open spec fn retire(self, worker: int) -> PoolState<P> {
        if self.is_idle(worker) {
            PoolState { workers: self.workers.update(worker, WorkerState::Terminated), ..self }
        } else {
            self
        }
    }

    /// The pool after its producer end is closed.
    pub open spec fn close(self) -> PoolState<P> {
        PoolState { open: false, ..self }
    }

    /// The pool after `event`.
    pub open spec fn step(self, event: Event<P>) -> PoolState<P> {
        match event {
            Event::Submit { id, payload } => self.submit(id, payload),
            Event::Claim { worker } => self.claim(worker),
            Event::Complete { worker, outcome } => self.complete(worker, outcome),
            Event::Retire { worker } => self.retire(worker),
            Event::Close => self.close(),
        }
    }

    /// The pool after a sequence of events, in order.
    pub open spec fn run(self, events: Seq<Event<P>>) -> PoolState<P>
        decreases events.len(),
    {
        if events.len() == 0 {
            self
        } else {
            self.run(events.drop_last()).step(events.last())
        }
    }

    /// The pool after worker `worker` has served one job after another,
    /// claiming each and completing it with the next of `outcomes`.
    pub open spec fn rounds(self, worker: int, outcomes: Seq<Outcome>) -> PoolState<P>
        decreases outcomes.len(),
    {
        if outcomes.len() == 0 {
            self
        } else {
            self.rounds(worker, outcomes.drop_last()).claim(worker).complete(
                worker,
                outcomes.last(),
            )
        }
    }

    /// Some worker is waiting for a job.
    pub open spec fn has_idle(self) -> bool {
        exists|worker: int| self.is_idle(worker)
    }

    /// The pool after every idle worker has left its loop.
    pub open spec fn released(self) -> PoolState<P> {
        PoolState {
            workers: Seq::new(
                self.workers.len(),
                |worker: int|
                    if self.workers[worker] is Idle {
                        WorkerState::Terminated
                    } else {
                        self.workers[worker]
                    },
            ),
            ..self
        }
    }

    /// What holds of every pool, whatever has happened to it.
    ///
    /// There is at least one worker slot. The registry is finite and every
    /// record in it is consistent. The queued jobs are `Pending` and no
    /// identifier is queued twice. A job is `Processing` exactly while some
    /// worker runs it, and no two workers run the same job.
    pub open spec fn inv(self) -> bool {
        &&& self.workers.len() >= 1
        &&& self.registry.dom().finite()
        &&& all_consistent(self.registry)
        &&& forall|i: int|
            0 <= i < self.queue.len() ==> self.is_pending((#[trigger] self.queue[i]).id)
        &&& forall|i: int, j: int|
            0 <= i < j < self.queue.len() ==> (#[trigger] self.queue[i]).id != (
            #[trigger] self.queue[j]).id
        &&& forall|worker: int, id: u128| #[trigger]
            self.holds(worker, id) ==> self.is_processing(id)
        &&& forall|first: int, second: int, id: u128|
            #![trigger self.holds(first, id), self.holds(second, id)]
            self.holds(first, id) && self.holds(second, id) ==> first == second
        &&& forall|id: u128| #[trigger]
            self.is_processing(id) ==> exists|worker: int| self.holds(worker, id)
    }
}

/// A new pool satisfies the invariant.
pub proof fn lemma_init_inv<P>(size: nat)
    requires
        size >= 1,
    ensures
        PoolState::<P>::init(size).inv(),
{
}

/// Submission preserves the invariant.
pub proof fn lemma_submit_inv<P>(s: PoolState<P>, id: u128, payload: P)
    requires
        s.inv(),
    ensures
        s.submit(id, payload).inv(),
{
    let t = s.submit(id, payload);
    if !s.registry.contains_key(id) {
        assert forall|i: int| 0 <= i < t.queue.len() implies t.is_pending(
            (#[trigger] t.queue[i]).id,
        ) by {
            if i < s.queue.len() {
                assert(s.is_pending(s.queue[i].id));
            }
        }
        assert forall|i: int, j: int| 0 <= i < j < t.queue.len() implies (#[trigger] t.queue[i]).id
            != (#[trigger] t.queue[j]).id by {
            if j < s.queue.len() {
                assert(s.queue[i].id != s.queue[j].id);
            } else {
                assert(s.is_pending(s.queue[i].id));
            }
        }
        assert forall|worker: int, id2: u128| #[trigger] t.holds(worker, id2) implies t.is_processing(
            id2,
        ) by {
            assert(s.holds(worker, id2));
            assert(s.is_processing(id2));
        }
        assert forall|first: int, second: int, id2: u128|
            #![trigger t.holds(first, id2), t.holds(second, id2)]
            t.holds(first, id2) && t.holds(second, id2) implies first == second by {
            assert(s.holds(first, id2) && s.holds(second, id2));
        }
        assert forall|id2: u128| #[trigger] t.is_processing(id2) implies exists|worker: int|
            t.holds(worker, id2) by {
            assert(s.is_processing(id2));
            let worker = choose|worker: int| s.holds(worker, id2);
            assert(t.holds(worker, id2));
        }
    }
}

/// A claim preserves the invariant.
pub proof fn lemma_claim_inv<P>(s: PoolState<P>, worker: int)
    requires
        s.inv(),
    ensures
        s.claim(worker).inv(),
{
    let t = s.claim(worker);
    if s.is_idle(worker) {
        if s.queue.len() > 0 {
            let head = s.queue[0].id;
            assert(s.is_pending(head));
            assert forall|i: int| 0 <= i < t.queue.len() implies t.is_pending(
                (#[trigger] t.queue[i]).id,
            ) by {
                assert(t.queue[i] == s.queue[i + 1]);
                assert(s.is_pending(s.queue[i + 1].id));
                assert(s.queue[0].id != s.queue[i + 1].id);
            }
            assert forall|i: int, j: int| 0 <= i < j < t.queue.len() implies (
            #[trigger] t.queue[i]).id != (#[trigger] t.queue[j]).id by {
                assert(t.queue[i] == s.queue[i + 1]);
                assert(t.queue[j] == s.queue[j + 1]);
                assert(s.queue[i + 1].id != s.queue[j + 1].id);
            }
            assert forall|w: int, id: u128| #[trigger] t.holds(w, id) implies t.is_processing(
                id,
            ) by {
                if w != worker {
                    assert(s.holds(w, id));
                    assert(s.is_processing(id));
                }
            }
            assert forall|first: int, second: int, id: u128|
                #![trigger t.holds(first, id), t.holds(second, id)]
                t.holds(first, id) && t.holds(second, id) implies first == second by {
                if first != worker && second != worker {
                    assert(s.holds(first, id) && s.holds(second, id));
                } else if first != worker {
                    assert(s.holds(first, id));
                    assert(s.is_processing(id));
                } else if second != worker {
                    assert(s.holds(second, id));
                    assert(s.is_processing(id));
                }
            }
            assert forall|id: u128| #[trigger] t.is_processing(id) implies exists|w: int|
                t.holds(w, id) by {
                if id == head {
                    assert(t.holds(worker, id));
                } else {
                    assert(s.is_processing(id));
                    let w = choose|w: int| s.holds(w, id);
                    assert(t.holds(w, id));
                }
            }
        } else if !s.open {
            lemma_worker_leaves_inv(s, worker);
        }
    }
}

/// An idle worker that terminates leaves the invariant intact.
proof fn lemma_worker_leaves_inv<P>(s: PoolState<P>, worker: int)
    requires
        s.inv(),
        s.is_idle(worker),
    ensures
        (PoolState { workers: s.workers.update(worker, WorkerState::Terminated), ..s }).inv(),
{
    let t = PoolState { workers: s.workers.update(worker, WorkerState::Terminated), ..s };
    assert forall|i: int| 0 <= i < t.queue.len() implies t.is_pending(
        (#[trigger] t.queue[i]).id,
    ) by {
        assert(s.is_pending(s.queue[i].id));
    }
    assert forall|w: int, id: u128| #[trigger] t.holds(w, id) implies t.is_processing(id) by {
        assert(s.holds(w, id));
        assert(s.is_processing(id));
    }
    assert forall|first: int, second: int, id: u128|
        #![trigger t.holds(first, id), t.holds(second, id)]
        t.holds(first, id) && t.holds(second, id) implies first == second by {
        assert(s.holds(first, id) && s.holds(second, id));
    }
    assert forall|id: u128| #[trigger] t.is_processing(id) implies exists|w: int|
        t.holds(w, id) by {
        assert(s.is_processing(id));
        let w = choose|w: int| s.holds(w, id);
        assert(t.holds(w, id));
    }
}

/// A completion preserves the invariant.
pub proof fn lemma_complete_inv<P>(s: PoolState<P>, worker: int, outcome: Outcome)
    requires
        s.inv(),
    ensures
        s.complete(worker, outcome).inv(),
{
    let t = s.complete(worker, outcome);
    if 0 <= worker < s.workers.len() {
        if let WorkerState::Executing(done) = s.workers[worker] {
            assert(s.holds(worker, done));
            assert(s.is_processing(done));
            assert forall|i: int| 0 <= i < t.queue.len() implies t.is_pending(
                (#[trigger] t.queue[i]).id,
            ) by {
                assert(s.is_pending(s.queue[i].id));
            }
            assert forall|w: int, id: u128| #[trigger] t.holds(w, id) implies t.is_processing(
                id,
            ) by {
                assert(s.holds(w, id));
                assert(s.is_processing(id));
                if id == done {
                    assert(s.holds(worker, id));
                }
            }
            assert forall|first: int, second: int, id: u128|
                #![trigger t.holds(first, id), t.holds(second, id)]
                t.holds(first, id) && t.holds(second, id) implies first == second by {
                assert(s.holds(first, id) && s.holds(second, id));
            }
            assert forall|id: u128| #[trigger] t.is_processing(id) implies exists|w: int|
                t.holds(w, id) by {
                assert(s.is_processing(id));
                let w = choose|w: int| s.holds(w, id);
                assert(t.holds(w, id));
            }
        }
    }
}

/// A retirement preserves the invariant.
pub proof fn lemma_retire_inv<P>(s: PoolState<P>, worker: int)
    requires
        s.inv(),
    ensures
        s.retire(worker).inv(),
{
    if s.is_idle(worker) {
        lemma_worker_leaves_inv(s, worker);
    }
}

/// Closing preserves the invariant.
pub proof fn lemma_close_inv<P>(s: PoolState<P>)
    requires
        s.inv(),
    ensures
        s.close().inv(),
{
    let t = s.close();
    assert forall|i: int| 0 <= i < t.queue.len() implies t.is_pending(
        (#[trigger] t.queue[i]).id,
    ) by {
        assert(s.is_pending(s.queue[i].id));
    }
    assert forall|w: int, id: u128| #[trigger] t.holds(w, id) implies t.is_processing(id) by {
        assert(s.holds(w, id));
        assert(s.is_processing(id));
    }
    assert forall|first: int, second: int, id: u128|
        #![trigger t.holds(first, id), t.holds(second, id)]
        t.holds(first, id) && t.holds(second, id) implies first == second by {
        assert(s.holds(first, id) && s.holds(second, id));
    }
    assert forall|id: u128| #[trigger] t.is_processing(id) implies exists|w: int|
        t.holds(w, id) by {
        assert(s.is_processing(id));
        let w = choose|w: int| s.holds(w, id);
        assert(t.holds(w, id));
    }
}

/// Every event preserves the invariant.
pub proof fn lemma_step_inv<P>(s: PoolState<P>, event: Event<P>)
    requires
        s.inv(),
    ensures
        s.step(event).inv(),
{
    match event {
        Event::Submit { id, payload } => lemma_submit_inv(s, id, payload),
        Event::Claim { worker } => lemma_claim_inv(s, worker),
        Event::Complete { worker, outcome } => lemma_complete_inv(s, worker, outcome),
        Event::Retire { worker } => lemma_retire_inv(s, worker),
        Event::Close => lemma_close_inv(s),
    }
}

} // verus!
