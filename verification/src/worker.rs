//! A worker's loop: claim a job, run its payload, report what it returned.
//!
//! A worker thread of a running pool makes the claim and the report under
//! the pool's lock and runs the payload outside it. Where one thread works
//! through the queue by itself, [`ThreadPool::serve`] is one turn of that
//! loop and [`ThreadPool::work`] is the loop.

use vstd::prelude::*;

use crate::job::{outcome_view, Outcome};
use crate::model::{Claim, PoolState, WorkerState};
use crate::pool::ThreadPool;

verus! {

/// How one turn of a worker's loop ended.
#[derive(Clone, Copy, Debug, PartialEq, Eq, Structural)]
pub enum Turn {
    /// The worker ran the job with this identifier and recorded its outcome.
    Ran(u128),
    /// Nothing was queued; the worker is to ask again later.
    Wait,
    /// No job will ever come; the worker has left its loop.
    Exit,
}

/// The mathematical values of a sequence of payload results.
pub open spec fn outcome_views(results: Seq<Result<String, String>>) -> Seq<Outcome> {
    Seq::new(results.len(), |i: int| outcome_view(results[i]))
}

/// How many jobs worker `worker` serves if left to work through the queue.
pub open spec fn jobs_in_reach<P>(s: PoolState<P>, worker: int) -> nat {
    if s.is_idle(worker) {
        s.queue.len()
    } else {
        0
    }
}

/// Serving one job more: the rounds over a longer sequence of outcomes are
/// the rounds over the shorter one, then one claim and one completion.
proof fn lemma_rounds_push<P>(
    s: PoolState<P>,
    worker: int,
    results: Seq<Result<String, String>>,
    result: Result<String, String>,
)
    ensures
        s.rounds(worker, outcome_views(results.push(result))) == s.rounds(
            worker,
            outcome_views(results),
        ).claim(worker).complete(worker, outcome_view(result)),
{
    let longer = outcome_views(results.push(result));
    assert(longer.drop_last() =~= outcome_views(results));
    assert(longer.last() == outcome_view(result));
}

/// An idle worker that serves jobs from the queue is idle again after
/// each: its rounds change no worker and not the producer end, and take
/// from the front of the queue as many jobs as there are outcomes. No
/// rounds at all change nothing, whoever the worker.
pub proof fn lemma_rounds_shape<P>(s: PoolState<P>, worker: int, outcomes: Seq<Outcome>)
    requires
        outcomes.len() > 0 ==> s.is_idle(worker),
        outcomes.len() <= s.queue.len(),
    ensures
        s.rounds(worker, outcomes).workers == s.workers,
        s.rounds(worker, outcomes).open == s.open,
        s.rounds(worker, outcomes).queue == s.queue.subrange(
            outcomes.len() as int,
            s.queue.len() as int,
        ),
    decreases outcomes.len(),
{
    if outcomes.len() == 0 {
        assert(s.queue.subrange(0, s.queue.len() as int) =~= s.queue);
    } else {
        lemma_rounds_shape(s, worker, outcomes.drop_last());
        let before = s.rounds(worker, outcomes.drop_last());
        let after = s.rounds(worker, outcomes);
        assert(after.workers =~= s.workers);
        assert(after.queue =~= s.queue.subrange(outcomes.len() as int, s.queue.len() as int));
    }
}

impl<P: FnOnce() -> Result<String, String>> ThreadPool<P> {
    /// One turn of worker `worker`: claims the next job, runs its payload
    /// and records what the payload returned.
    ///
    /// With a job at hand the job passes through `Processing` and settles
    /// as `Completed` or `Failed`, as the payload decides, and the worker is
    /// idle again. With none, the worker is told to wait or to exit, as
    /// [`ThreadPool::claim`] says. The payload must be one that can be
    /// called: it is taken to return, and not to panic.
    pub fn serve(&mut self, worker: usize) -> (turn: Turn)
        requires
            old(self).wf(),
            old(self)@.offer(worker as int) is Run ==> old(self)@.offer(
                worker as int,
            )->Run_payload.requires(()),
        ensures
            final(self).wf(),
            match turn {
                Turn::Ran(id) => {
                    &&& old(self)@.offer(worker as int) is Run
                    &&& old(self)@.offer(worker as int)->Run_id == id
                    &&& exists|result: Result<String, String>|
                        {
                            &&& (#[trigger] old(self)@.offer(worker as int)->Run_payload.ensures(
                                (),
                                result,
                            ))
                            &&& final(self)@ == old(self)@.claim(worker as int).complete(
                                worker as int,
                                outcome_view(result),
                            )
                        }
                },
                Turn::Wait => {
                    &&& old(self)@.offer(worker as int) is Wait
                    &&& final(self)@ == old(self)@
                },
                Turn::Exit => {
                    &&& old(self)@.offer(worker as int) is Exit
                    &&& final(self)@ == old(self)@.claim(worker as int)
                },
            },
    {
        match self.claim(worker) {
            Claim::Run { id, payload } => {
                let result = payload();
                let ghost reported = result;
                self.complete(worker, result);
                assert(old(self)@.offer(worker as int)->Run_payload.ensures((), reported));
                Turn::Ran(id)
            },
            Claim::Wait => Turn::Wait,
            Claim::Exit => Turn::Exit,
        }
    }

    /// The loop of worker `worker`: serves the queued jobs one after
    /// another, oldest first, until none is left.
    ///
    /// An idle worker runs every queued job, each with its own payload, and
    /// each settles as its payload decides. The worker then waits if the
    /// producer end is open, and leaves its loop for good if it is closed.
    /// A worker that is not idle serves nothing. Every queued payload must
    /// be one that can be called.
    pub fn work(&mut self, worker: usize) -> (turn: Turn)
        requires
            old(self).wf(),
            forall|i: int|
                0 <= i < old(self)@.queue.len() ==> (#[trigger] old(self)@.queue[i]).payload.requires(
                    (),
                ),
        ensures
            final(self).wf(),
            turn is Exit <==> !old(self)@.is_alive(worker as int) || (old(self)@.is_idle(
                worker as int,
            ) && !old(self)@.open),
            turn is Wait <==> !(turn is Exit),
            exists|results: Seq<Result<String, String>>|
                {
                    &&& results.len() == jobs_in_reach(old(self)@, worker as int)
                    &&& forall|i: int|
                        0 <= i < results.len() ==> (#[trigger] old(self)@.queue[i]).payload.ensures(
                            (),
                            results[i],
                        )
                    &&& final(self)@ == (#[trigger] old(self)@.rounds(
                        worker as int,
                        outcome_views(results),
                    )).claim(worker as int)
                },
    {
        let ghost mut results: Seq<Result<String, String>> = Seq::empty();
        let ghost start = self@;
        loop
            invariant
                self.wf(),
                start == old(self)@,
                results.len() <= start.queue.len(),
                results.len() > 0 ==> start.is_idle(worker as int),
                self@ == start.rounds(worker as int, outcome_views(results)),
                self@.open == start.open,
                self@.workers == start.workers,
                self@.queue == start.queue.subrange(results.len() as int, start.queue.len() as int),
                forall|i: int|
                    0 <= i < results.len() ==> (#[trigger] start.queue[i]).payload.ensures(
                        (),
                        results[i],
                    ),
                forall|i: int|
                    0 <= i < start.queue.len() ==> (#[trigger] start.queue[i]).payload.requires(()),
            decreases self@.queue.len(),
        {
            let ghost before = self@;
            proof {
                if before.offer(worker as int) is Run {
                    assert(before.queue[0] == start.queue[results.len() as int]);
                }
            }
            let turn = self.serve(worker);
            match turn {
                Turn::Ran(_) => {
                    proof {
                        let result = choose|result: Result<String, String>|
                            {
                                &&& (#[trigger] before.offer(worker as int)->Run_payload.ensures(
                                    (),
                                    result,
                                ))
                                &&& self@ == before.claim(worker as int).complete(
                                    worker as int,
                                    outcome_view(result),
                                )
                            };
                        lemma_rounds_push(start, worker as int, results, result);
                        assert(self@.workers =~= start.workers);
                        assert(self@.queue =~= start.queue.subrange(
                            results.len() as int + 1,
                            start.queue.len() as int,
                        ));
                        results = results.push(result);
                    }
                },
                _ => {
                    proof {
                        if start.is_idle(worker as int) {
                            assert(before.is_idle(worker as int));
                            assert(before.queue.len() == 0);
                        }
                        assert(self@ == before.claim(worker as int));
                        assert(results.len() == jobs_in_reach(start, worker as int));
                    }
                    return turn;
                },
            }
        }
    }

    /// Shuts the pool down: closes the producer end and lets every idle
    /// worker run to the end of its loop.
    ///
    /// The jobs still queued are served first, oldest first, each settling
    /// as its payload decides; then every idle worker leaves its loop. A
    /// worker that is running a job elsewhere is left to finish it. When no
    /// worker was running a job, every worker has terminated afterwards.
    /// Shutting down twice is shutting down once. Every queued payload must
    /// be one that can be called.
    pub fn shutdown(&mut self)
        requires
            old(self).wf(),
            forall|i: int|
                0 <= i < old(self)@.queue.len() ==> (#[trigger] old(self)@.queue[i]).payload.requires(
                    (),
                ),
        ensures
            final(self).wf(),
            !final(self)@.open,
            !final(self)@.has_idle(),
            old(self)@.has_idle() ==> final(self)@.queue.len() == 0,
            old(self)@.busy().is_empty() ==> final(self)@.all_terminated(),
            exists|worker: int, results: Seq<Result<String, String>>|
                {
                    &&& old(self)@.has_idle() ==> old(self)@.is_idle(worker)
                    &&& results.len() == (if old(self)@.has_idle() {
                        old(self)@.queue.len()
                    } else {
                        0
                    })
                    &&& forall|i: int|
                        0 <= i < results.len() ==> (#[trigger] old(self)@.queue[i]).payload.ensures(
                            (),
                            results[i],
                        )
                    &&& final(self)@ == (#[trigger] old(self)@.close().rounds(
                        worker,
                        outcome_views(results),
                    )).released()
                },
    {
        self.close();
        let ghost closed = self@;
        let ghost mut results: Seq<Result<String, String>> = Seq::empty();
        let ghost mut server: int = 0;
        let ghost mut found: bool = false;
        let size = self.size();
        let mut next: usize = 0;
        while next < size
            invariant
                self.wf(),
                closed == old(self)@.close(),
                size == closed.workers.len(),
                next <= size,
                found ==> closed.is_idle(server) && server < next && results.len()
                    == closed.queue.len(),
                !found ==> results.len() == 0 && forall|w: int| 0 <= w < next ==> !closed.is_idle(w),
                forall|i: int|
                    0 <= i < results.len() ==> (#[trigger] closed.queue[i]).payload.ensures(
                        (),
                        results[i],
                    ),
                forall|i: int|
                    0 <= i < closed.queue.len() ==> (#[trigger] closed.queue[i]).payload.requires(()),
                self@.open == closed.open,
                self@.registry == closed.rounds(server, outcome_views(results)).registry,
                self@.queue == closed.rounds(server, outcome_views(results)).queue,
                self@.workers.len() == size,
                forall|w: int|
                    0 <= w < size ==> #[trigger] self@.workers[w] == (if w < next
                        && closed.workers[w] is Idle {
                        WorkerState::Terminated
                    } else {
                        closed.workers[w]
                    }),
            decreases size - next,
        {
            let ghost before = self@;
            proof {
                lemma_rounds_shape(closed, server, outcome_views(results));
                if found {
                    assert(before.queue.len() == 0);
                } else {
                    assert(before.queue =~= closed.queue);
                }
            }
            self.work(next);
            proof {
                let served = choose|served: Seq<Result<String, String>>|
                    {
                        &&& served.len() == jobs_in_reach(before, next as int)
                        &&& forall|i: int|
                            0 <= i < served.len() ==> (#[trigger] before.queue[i]).payload.ensures(
                                (),
                                served[i],
                            )
                        &&& self@ == (#[trigger] before.rounds(
                            next as int,
                            outcome_views(served),
                        )).claim(next as int)
                    };
                let mid = before.rounds(next as int, outcome_views(served));
                if before.is_idle(next as int) {
                    lemma_rounds_shape(before, next as int, outcome_views(served));
                    assert(mid.is_idle(next as int));
                    assert(mid.queue.len() == 0);
                    if !found {
                        assert forall|w: int| 0 <= w < size implies before.workers[w]
                            == closed.workers[w] by {
                            if w < next {
                                assert(!closed.is_idle(w));
                            }
                        }
                        assert(before.workers =~= closed.workers);
                        assert(before == closed);
                        results = served;
                        server = next as int;
                        found = true;
                    } else {
                        assert(served.len() == 0);
                        assert(mid == before);
                    }
                    lemma_rounds_shape(closed, server, outcome_views(results));
                } else {
                    assert(served.len() == 0);
                    assert(mid == before);
                    assert(self@ == before);
                }
            }
            next = next + 1;
        }
        proof {
            lemma_rounds_shape(closed, server, outcome_views(results));
            let base = closed.rounds(server, outcome_views(results));
            assert(self@.workers =~= base.released().workers);
            assert(self@ == base.released());
            assert(!self@.has_idle());
            if !found {
                assert(!old(self)@.has_idle()) by {
                    if old(self)@.has_idle() {
                        let w = choose|w: int| old(self)@.is_idle(w);
                        assert(closed.is_idle(w));
                    }
                }
            } else {
                assert(old(self)@.is_idle(server));
            }
            if old(self)@.busy().is_empty() {
                assert forall|w: int| 0 <= w < self@.workers.len() implies self@.is_terminated(
                    w,
                ) by {
                    assert(!old(self)@.busy().contains(w));
                }
            }
        }
    }
}

} // verus!
