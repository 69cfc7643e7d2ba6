//! What holds of every pool, proved of the state machine in
//! [`crate::model`]. The executable pool's contracts place it in that
//! machine, so each law holds of whatever a running pool can be seen to do.

use vstd::prelude::*;
use vstd::relations::injective_on;
use vstd::set_lib::*;

use crate::job::{JobRecord, Outcome};
use crate::model::{lemma_step_inv, Claim, Event, PoolState, WorkerState};
use crate::registry::moves_forward;

verus! {

impl<P> PoolState<P> {
    /// The workers that are running a job.
    pub open spec fn busy(self) -> Set<int> {
        Set::new(|worker: int| 0 <= worker < self.workers.len() && self.workers[worker] is Executing)
    }

    /// The jobs that are `Processing`.
    pub open spec fn processing(self) -> Set<u128> {
        Set::new(|id: u128| self.is_processing(id))
    }

    /// The job that worker `worker` is running, if it is running one.
    pub open spec fn job_of(self, worker: int) -> u128 {
        match self.workers[worker] {
            WorkerState::Executing(id) => id,
            _ => 0,
        }
    }

    /// The work still ahead of the workers: two steps for each queued job,
    /// its claim and its completion, and one for each job being run.
    pub open spec fn backlog(self) -> nat {
        2 * self.queue.len() + self.busy().len()
    }

    /// Every `Pending` job is in the queue, where a worker will find it.
    pub open spec fn nothing_stranded(self) -> bool {
        forall|id: u128| #[trigger]
            self.is_pending(id) ==> exists|i: int|
                0 <= i < self.queue.len() && (#[trigger] self.queue[i]).id == id
    }
}

/// The busy workers are finitely many, at most one per worker slot.
pub proof fn lemma_busy_bounded<P>(s: PoolState<P>)
    ensures
        s.busy().finite(),
        s.busy().len() <= s.workers.len(),
{
    lemma_int_range(0, s.workers.len() as int);
    assert(s.busy().subset_of(set_int_range(0, s.workers.len() as int)));
    lemma_len_subset(s.busy(), set_int_range(0, s.workers.len() as int));
}

/// Running a sequence of events and then one more is running the longer
/// sequence, and running two sequences in turn is running them joined.
pub proof fn law_run_splits<P>(s: PoolState<P>, head: Seq<Event<P>>, tail: Seq<Event<P>>)
    ensures
        s.run(head).run(tail) == s.run(head + tail),
    decreases tail.len(),
{
    if tail.len() == 0 {
        assert(head + tail =~= head);
    } else {
        law_run_splits(s, head, tail.drop_last());
        assert((head + tail).drop_last() =~= head + tail.drop_last());
        assert((head + tail).last() == tail.last());
    }
}

/// Whatever happens to a pool, it stays a pool: every sequence of events
/// preserves the invariant.
pub proof fn law_run_keeps_invariant<P>(s: PoolState<P>, events: Seq<Event<P>>)
    requires
        s.inv(),
    ensures
        s.run(events).inv(),
    decreases events.len(),
{
    if events.len() > 0 {
        law_run_keeps_invariant(s, events.drop_last());
        lemma_step_inv(s.run(events.drop_last()), events.last());
    }
}

/// No event removes a job's record or moves it backward: after the event
/// each record is what it was, or further along
/// `Pending`, `Processing`, settled.
pub proof fn law_step_moves_records_forward<P>(s: PoolState<P>, event: Event<P>)
    requires
        s.inv(),
    ensures
        moves_forward(s.registry, s.step(event).registry),
{
    let t = s.step(event);
    match event {
        Event::Submit { id, payload } => {},
        Event::Claim { worker } => {
            if s.is_idle(worker) && s.queue.len() > 0 {
                assert(s.is_pending(s.queue[0].id));
            }
        },
        Event::Complete { worker, outcome } => {
            if 0 <= worker < s.workers.len() {
                if let WorkerState::Executing(id) = s.workers[worker] {
                    assert(s.holds(worker, id));
                    assert(s.is_processing(id));
                }
            }
        },
        Event::Retire { worker } => {},
        Event::Close => {},
    }
}

/// Over the whole life of a pool, whoever looks at a job twice sees the
/// same record or one further along: never a step back from `Processing`
/// to `Pending` or from a settled state to an earlier one, and never a
/// record that has gone missing.
pub proof fn law_records_only_move_forward<P>(s: PoolState<P>, events: Seq<Event<P>>)
    requires
        s.inv(),
    ensures
        moves_forward(s.registry, s.run(events).registry),
    decreases events.len(),
{
    if events.len() > 0 {
        let mid = s.run(events.drop_last());
        law_records_only_move_forward(s, events.drop_last());
        law_run_keeps_invariant(s, events.drop_last());
        law_step_moves_records_forward(mid, events.last());
        let end = s.run(events);
        assert forall|id: u128| #[trigger] s.registry.contains_key(id) implies end.registry.contains_key(
            id,
        ) && s.registry[id].precedes(end.registry[id]) by {
            assert(mid.registry.contains_key(id));
        }
    }
}

/// Whatever a query finds is consistent: no result before the job has
/// settled, a result once it is `Completed`, and for a `Failed` job the
/// very reason that its state names.
pub proof fn law_queried_record_is_consistent<P>(s: PoolState<P>, id: u128)
    requires
        s.inv(),
        s.registry.contains_key(id),
    ensures
        s.registry[id].consistent(),
        s.is_pending(id) || s.is_processing(id) ==> s.registry[id].result is None,
        s.is_settled(id) ==> s.registry[id].result is Some,
        s.registry[id].state matches crate::job::Phase::Failed(reason) ==> s.registry[id].result
            == Some(reason),
{
}

/// A settled job stays exactly as it settled: a job seen `Completed` is
/// never seen `Failed`, nor the other way round, and its result never
/// changes.
pub proof fn law_settled_job_never_changes<P>(s: PoolState<P>, events: Seq<Event<P>>, id: u128)
    requires
        s.inv(),
        s.is_settled(id),
    ensures
        s.run(events).registry.contains_key(id),
        s.run(events).registry[id] == s.registry[id],
{
    law_records_only_move_forward(s, events);
    assert(s.registry.contains_key(id));
}

/// Two jobs submitted to one pool never get the same identifier: an
/// identifier that is vacant when a job is submitted under it is taken from
/// then on, whatever happens in between.
pub proof fn law_identifiers_never_repeat<P>(
    s: PoolState<P>,
    first: u128,
    payload: P,
    events: Seq<Event<P>>,
    second: u128,
)
    requires
        s.inv(),
        !s.registry.contains_key(first),
        !s.submit(first, payload).run(events).registry.contains_key(second),
    ensures
        first != second,
{
    let after = s.submit(first, payload);
    lemma_step_inv(s, Event::Submit { id: first, payload });
    law_records_only_move_forward(after, events);
    assert(after.registry.contains_key(first));
}

/// A job whose payload returned success text `x` is `Completed` with
/// result `x` from the moment its worker reports, and one whose payload
/// returned failure text `y` is `Failed(y)` with result `y`; whatever
/// happens afterwards, that is what every query finds.
pub proof fn law_outcome_is_recorded<P>(
    s: PoolState<P>,
    worker: int,
    id: u128,
    outcome: Outcome,
    events: Seq<Event<P>>,
)
    requires
        s.inv(),
        s.holds(worker, id),
    ensures
        ({
            let seen = s.complete(worker, outcome).run(events).registry;
            &&& seen.contains_key(id)
            &&& seen[id] == JobRecord::settled(outcome)
            &&& outcome matches Ok(x) ==> seen[id].state == crate::job::Phase::Completed
                && seen[id].result == Some(x)
            &&& outcome matches Err(y) ==> seen[id].state == crate::job::Phase::Failed(y)
                && seen[id].result == Some(y)
        }),
{
    let after = s.complete(worker, outcome);
    lemma_step_inv(s, Event::Complete { worker, outcome });
    assert(after.is_settled(id));
    law_settled_job_never_changes(after, events, id);
}

/// A payload is handed out at most once: the job that a worker is told to
/// run was `Pending` and in the queue, and from that claim on it is never
/// `Pending` again, so no later claim can hand it out.
pub proof fn law_job_is_claimed_once<P>(s: PoolState<P>, worker: int, events: Seq<Event<P>>)
    requires
        s.inv(),
        s.offer(worker) is Run,
    ensures
        s.is_pending(s.offer(worker)->Run_id),
        !s.claim(worker).run(events).is_pending(s.offer(worker)->Run_id),
        forall|i: int|
            0 <= i < s.claim(worker).run(events).queue.len() ==> (
            #[trigger] s.claim(worker).run(events).queue[i]).id != s.offer(worker)->Run_id,
{
    let id = s.queue[0].id;
    let after = s.claim(worker);
    let end = after.run(events);
    assert(s.is_pending(id));
    lemma_step_inv(s, Event::Claim { worker });
    law_records_only_move_forward(after, events);
    law_run_keeps_invariant(after, events);
    assert(after.registry.contains_key(id));
    assert forall|i: int| 0 <= i < end.queue.len() implies (#[trigger] end.queue[i]).id != id by {
        assert(end.is_pending(end.queue[i].id));
    }
}

/// Jobs leave the queue in the order in which they were submitted: a claim
/// hands out the job at the front, and the jobs behind it keep their order.
pub proof fn law_jobs_are_claimed_in_order<P>(s: PoolState<P>, worker: int)
    requires
        s.offer(worker) is Run,
    ensures
        s.offer(worker)->Run_id == s.queue[0].id,
        s.offer(worker)->Run_payload == s.queue[0].payload,
        s.claim(worker).queue.len() == s.queue.len() - 1,
        forall|i: int|
            0 <= i < s.claim(worker).queue.len() ==> #[trigger] s.claim(worker).queue[i]
                == s.queue[i + 1],
{
}

/// At any instant the jobs in `Processing` are exactly those that the busy
/// workers run, one each: there are never more of them than worker slots.
pub proof fn law_processing_bounded<P>(s: PoolState<P>)
    requires
        s.inv(),
    ensures
        s.processing().finite(),
        s.processing().len() == s.busy().len(),
        s.processing().len() <= s.workers.len(),
{
    lemma_busy_bounded(s);
    let f = |worker: int| s.job_of(worker);
    assert(injective_on(f, s.busy())) by {
        assert forall|a: int, b: int|
            s.busy().contains(a) && s.busy().contains(b) && #[trigger] f(a) == #[trigger] f(
                b,
            ) implies a == b by {
            assert(s.holds(a, s.job_of(a)));
            assert(s.holds(b, s.job_of(a)));
        }
    }
    assert(s.busy().map(f) =~= s.processing()) by {
        assert forall|id: u128| s.busy().map(f).contains(id) implies s.processing().contains(
            id,
        ) by {
            let worker = choose|worker: int| s.busy().contains(worker) && f(worker) == id;
            assert(s.holds(worker, id));
        }
        assert forall|id: u128| s.processing().contains(id) implies s.busy().map(f).contains(
            id,
        ) by {
            assert(s.is_processing(id));
            let worker = choose|worker: int| s.holds(worker, id);
            assert(s.busy().contains(worker) && f(worker) == id);
        }
    }
    lemma_map_size(s.busy(), s.processing(), f);
}

/// Over the whole life of a pool of `size` workers, at no instant are
/// more than `size` jobs in `Processing`.
pub proof fn law_pool_never_runs_more_than_its_size<P>(size: nat, events: Seq<Event<P>>)
    requires
        size >= 1,
    ensures
        PoolState::<P>::init(size).run(events).inv(),
        PoolState::<P>::init(size).run(events).processing().finite(),
        PoolState::<P>::init(size).run(events).processing().len() <= size,
{
    let start = PoolState::<P>::init(size);
    assert(start.inv());
    law_run_keeps_invariant(start, events);
    law_processing_bounded(start.run(events));
    law_shutdown_is_final(start, events, 0);
}

/// A worker that serves the queue settles each job it serves with that
/// job's own outcome: after the rounds, the job that was `i`-th in the
/// queue is `Completed` with the success text, or `Failed` with the reason,
/// that the `i`-th outcome holds.
pub proof fn law_rounds_settle_the_queue<P>(s: PoolState<P>, worker: int, outcomes: Seq<Outcome>)
    requires
        s.inv(),
        s.is_idle(worker),
        outcomes.len() <= s.queue.len(),
    ensures
        s.rounds(worker, outcomes).inv(),
        s.rounds(worker, outcomes).workers == s.workers,
        s.rounds(worker, outcomes).queue == s.queue.subrange(
            outcomes.len() as int,
            s.queue.len() as int,
        ),
        forall|i: int|
            0 <= i < outcomes.len() ==> s.rounds(worker, outcomes).registry.contains_key(
                (#[trigger] s.queue[i]).id,
            ) && s.rounds(worker, outcomes).registry[s.queue[i].id] == JobRecord::settled(
                outcomes[i],
            ),
    decreases outcomes.len(),
{
    if outcomes.len() == 0 {
        assert(s.queue.subrange(0, s.queue.len() as int) =~= s.queue);
    } else {
        let fewer = outcomes.drop_last();
        let last = outcomes.len() - 1;
        law_rounds_settle_the_queue(s, worker, fewer);
        let before = s.rounds(worker, fewer);
        let claimed = before.claim(worker);
        let after = s.rounds(worker, outcomes);
        lemma_step_inv(before, Event::Claim { worker });
        lemma_step_inv(claimed, Event::Complete { worker, outcome: outcomes.last() });
        assert(before.queue[0] == s.queue[last]);
        assert(after.workers =~= s.workers);
        assert(after.queue =~= s.queue.subrange(outcomes.len() as int, s.queue.len() as int));
        assert forall|i: int| 0 <= i < outcomes.len() implies after.registry.contains_key(
            (#[trigger] s.queue[i]).id,
        ) && after.registry[s.queue[i].id] == JobRecord::settled(outcomes[i]) by {
            if i < last {
                assert(s.queue[i].id != s.queue[last].id);
                assert(fewer[i] == outcomes[i]);
            }
        }
    }
}

/// Each claim that hands out a job, and each completion, brings the pool
/// one step nearer to having nothing left to do.
pub proof fn law_worker_steps_lower_backlog<P>(s: PoolState<P>, worker: int, outcome: Outcome)
    requires
        s.inv(),
    ensures
        s.offer(worker) is Run ==> s.claim(worker).backlog() + 1 == s.backlog(),
        s.busy().contains(worker) ==> s.complete(worker, outcome).backlog() + 1 == s.backlog(),
{
    lemma_busy_bounded(s);
    if s.offer(worker) is Run {
        let t = s.claim(worker);
        assert(t.busy() =~= s.busy().insert(worker));
    }
    if s.busy().contains(worker) {
        let t = s.complete(worker, outcome);
        assert(t.busy() =~= s.busy().remove(worker));
    }
}

/// While work is left and some worker is still in its loop, some worker
/// can take a step that lowers the backlog: a busy one can complete, or an
/// idle one can claim the job at the front of the queue.
pub proof fn law_work_left_can_proceed<P>(s: PoolState<P>)
    requires
        s.inv(),
        s.backlog() > 0,
        s.has_consumer(),
    ensures
        exists|worker: int| #[trigger]
            s.busy().contains(worker) || (s.offer(worker) is Run),
{
    lemma_busy_bounded(s);
    if s.busy().len() > 0 {
        let worker = s.busy().choose();
        assert(s.busy().contains(worker));
    } else {
        assert(s.busy() =~= Set::empty()) by {
            s.busy().lemma_len0_is_empty();
        }
        let worker = choose|worker: int| s.is_alive(worker);
        assert(!s.busy().contains(worker));
        assert(s.is_idle(worker));
        assert(s.offer(worker) is Run);
    }
}

/// A job stays within reach of the workers as long as each submission is
/// delivered: if every `Pending` job is queued before an event, and the
/// event is not a submission to a pool that no longer delivers, every
/// `Pending` job is queued after it.
pub proof fn law_delivered_jobs_stay_queued<P>(s: PoolState<P>, event: Event<P>)
    requires
        s.inv(),
        s.nothing_stranded(),
        event is Submit ==> s.delivers(),
    ensures
        s.step(event).nothing_stranded(),
{
    let t = s.step(event);
    assert forall|id: u128| #[trigger] t.is_pending(id) implies exists|i: int|
        0 <= i < t.queue.len() && (#[trigger] t.queue[i]).id == id by {
        match event {
            Event::Submit { id: new_id, payload } => {
                if s.registry.contains_key(new_id) {
                    assert(s.is_pending(id));
                } else if id == new_id {
                    assert(t.queue[s.queue.len() as int].id == id);
                } else {
                    assert(s.is_pending(id));
                    let i = choose|i: int| 0 <= i < s.queue.len() && (#[trigger] s.queue[i]).id == id;
                    assert(t.queue[i].id == id);
                }
            },
            Event::Claim { worker } => {
                assert(s.is_pending(id));
                let i = choose|i: int| 0 <= i < s.queue.len() && (#[trigger] s.queue[i]).id == id;
                if s.is_idle(worker) && s.queue.len() > 0 {
                    assert(i != 0);
                    assert(t.queue[i - 1].id == id);
                } else {
                    assert(t.queue[i].id == id);
                }
            },
            Event::Complete { worker, outcome } => {
                assert(s.is_pending(id));
                let i = choose|i: int| 0 <= i < s.queue.len() && (#[trigger] s.queue[i]).id == id;
                assert(t.queue[i].id == id);
            },
            Event::Retire { worker } => {
                assert(s.is_pending(id));
                let i = choose|i: int| 0 <= i < s.queue.len() && (#[trigger] s.queue[i]).id == id;
                assert(t.queue[i].id == id);
            },
            Event::Close => {
                assert(s.is_pending(id));
                let i = choose|i: int| 0 <= i < s.queue.len() && (#[trigger] s.queue[i]).id == id;
                assert(t.queue[i].id == id);
            },
        }
    }
}

/// When the backlog is spent, nothing is queued and nothing is running;
/// and if no job was stranded, every job ever submitted has settled.
pub proof fn law_spent_backlog_means_all_settled<P>(s: PoolState<P>)
    requires
        s.inv(),
        s.backlog() == 0,
    ensures
        s.queue.len() == 0,
        forall|id: u128| !s.is_processing(id),
        s.nothing_stranded() ==> forall|id: u128| #[trigger]
            s.registry.contains_key(id) ==> s.is_settled(id),
{
    lemma_busy_bounded(s);
    law_processing_bounded(s);
    s.processing().lemma_len0_is_empty();
    assert forall|id: u128| !s.is_processing(id) by {
        assert(!s.processing().contains(id));
    }
    if s.nothing_stranded() {
        assert forall|id: u128| #[trigger] s.registry.contains_key(id) implies s.is_settled(
            id,
        ) by {
            assert(!s.is_processing(id));
            assert(!s.is_pending(id));
        }
    }
}

/// Once every worker has left its loop, as a disposal that joins them all
/// has waited for, no job is `Processing`: every job that was ever claimed
/// has settled.
pub proof fn law_joined_pool_runs_nothing<P>(s: PoolState<P>)
    requires
        s.inv(),
        s.all_terminated(),
    ensures
        forall|id: u128| !s.is_processing(id),
        forall|id: u128| #[trigger]
            s.registry.contains_key(id) ==> s.is_pending(id) || s.is_settled(id),
{
    assert forall|id: u128| !s.is_processing(id) by {
        if s.is_processing(id) {
            let worker = choose|worker: int| s.holds(worker, id);
            assert(s.is_terminated(worker));
        }
    }
    assert forall|id: u128| #[trigger] s.registry.contains_key(id) implies s.is_pending(id)
        || s.is_settled(id) by {
        assert(!s.is_processing(id));
    }
}

/// A worker that has left its loop never comes back, and a closed producer
/// end never reopens, whatever happens.
pub proof fn law_shutdown_is_final<P>(s: PoolState<P>, events: Seq<Event<P>>, worker: int)
    ensures
        s.is_terminated(worker) ==> s.run(events).is_terminated(worker),
        !s.open ==> !s.run(events).open,
        s.run(events).workers.len() == s.workers.len(),
    decreases events.len(),
{
    if events.len() > 0 {
        law_shutdown_is_final(s, events.drop_last(), worker);
    }
}

/// After the producer end is closed, a worker drains what is queued and
/// then leaves: an idle worker is handed the job at the front while there
/// is one, and is told to exit, and terminated, as soon as there is none.
pub proof fn law_closed_pool_releases_workers<P>(s: PoolState<P>, worker: int)
    requires
        !s.open,
        s.is_idle(worker),
    ensures
        s.queue.len() > 0 ==> s.offer(worker) is Run,
        s.queue.len() == 0 ==> s.offer(worker) is Exit && s.claim(worker).is_terminated(worker),
{
}

/// Shutting down twice is shutting down once: a pool that is closed and
/// has released its idle workers is what closing it and releasing its
/// idle workers again gives.
pub proof fn law_shutdown_is_idempotent<P>(s: PoolState<P>, worker: int)
    ensures
        !s.close().released().has_idle(),
        s.close().released().close().rounds(worker, Seq::empty()).released()
            == s.close().released(),
{
    let once = s.close().released();
    assert(once.close() == once);
    assert(once.released().workers =~= once.workers);
}

/// After a shutdown that found no worker running a job, every worker has
/// left its loop and no job is `Processing`.
pub proof fn law_shutdown_leaves_no_worker<P>(s: PoolState<P>)
    requires
        s.inv(),
        s.busy().is_empty(),
    ensures
        s.released().all_terminated(),
        forall|id: u128| !s.released().is_processing(id),
{
    let t = s.released();
    assert forall|worker: int| 0 <= worker < t.workers.len() implies t.is_terminated(worker) by {
        assert(!s.busy().contains(worker));
    }
    assert forall|id: u128| !t.is_processing(id) by {
        if s.is_processing(id) {
            let worker = choose|worker: int| s.holds(worker, id);
            assert(s.busy().contains(worker));
        }
    }
}

/// Closing twice is closing once.
pub proof fn law_close_is_idempotent<P>(s: PoolState<P>)
    ensures
        s.close().close() == s.close(),
        !s.close().open,
{
}

/// Before anything is submitted, a new pool knows no job, and every size
/// from one up gives a pool of that many idle workers.
pub proof fn law_new_pool_is_empty<P>(size: nat)
    requires
        size >= 1,
    ensures
        PoolState::<P>::init(size).inv(),
        PoolState::<P>::init(size).workers.len() == size,
        PoolState::<P>::init(size).registry.dom() =~= Set::<u128>::empty(),
        PoolState::<P>::init(size).backlog() == 0,
        PoolState::<P>::init(size).nothing_stranded(),
        PoolState::<P>::init(size).delivers(),
{
    let s = PoolState::<P>::init(size);
    assert(s.busy() =~= Set::empty());
    assert(s.is_alive(0));
}

} // verus!
