use std::sync::mpsc::channel;

use harbor::{Claim, JobStatus, PoolCreateError, ThreadPool, Turn, WorkerState};

type Payload = Box<dyn FnOnce() -> Result<String, String>>;
type Plain = fn() -> Result<String, String>;

fn done() -> Result<String, String> {
    Ok("done".to_string())
}

fn boom() -> Result<String, String> {
    Err("boom".to_string())
}

#[test]
fn build_should_create_pool_with_valid_size() {
    let pool_result = ThreadPool::<Plain>::build(6);

    assert!(pool_result.is_ok())
}

#[test]
fn build_should_return_error_when_size_is_zero() {
    let pool_result = ThreadPool::<Plain>::build(0);

    assert!(pool_result.is_err());

    assert!(matches!(
        pool_result.unwrap_err(),
        PoolCreateError::NonValueZeroAllowed
    ));
}

#[test]
fn execute_should_run_job_in_pool() {
    let pool = ThreadPool::<Payload>::build(1);
    let (sender, receiver) = channel();
    let mut pool = pool.unwrap();
    let _ = pool.execute(Box::new(move || {
        sender.send("Job Executed").unwrap();
        Ok("Job Executed".to_string())
    }));
    pool.work(0);

    let receive_a_message = receiver.recv().unwrap();
    assert_eq!(receive_a_message, "Job Executed")
}

#[test]
fn get_job_metadata_should_track_job_status() {
    let mut pool = ThreadPool::<Payload>::build(2).unwrap();
    let (tx, rx) = channel();

    let job_id = pool.execute(Box::new(move || {
        tx.send(()).unwrap();
        Ok("Job Done".to_string())
    }));

    let initial_metadata = pool.get_job_metadata(job_id).unwrap();
    assert!(
        matches!(initial_metadata.state, JobStatus::Pending)
            || matches!(initial_metadata.state, JobStatus::Processing)
    );
    assert_eq!(initial_metadata.result, None);

    pool.work(0);
    rx.recv().unwrap();

    let final_metadata = pool.get_job_metadata(job_id).unwrap();
    assert!(matches!(final_metadata.state, JobStatus::Completed));
    assert_eq!(final_metadata.result, Some("Job Done".to_string()));

    let failed_job_id = pool.execute(Box::new(move || Err("Job Failed".to_string())));

    pool.work(1);

    let failed_metadata = pool.get_job_metadata(failed_job_id).unwrap();
    assert!(matches!(failed_metadata.state, JobStatus::Failed(_)));
    assert_eq!(failed_metadata.result, Some("Job Failed".to_string()));
}

#[test]
fn build_succeeds_for_every_positive_size() {
    for size in [1usize, 2, 3, 17, 1000] {
        let pool = ThreadPool::<Plain>::build(size).unwrap();
        assert_eq!(pool.size(), size);
        assert!(pool.is_open());
        assert_eq!(pool.queued(), 0);
        assert!(pool.has_consumer());
        assert!(!pool.all_terminated());
        for worker in 0..size {
            assert_eq!(pool.worker_state(worker), Some(WorkerState::Idle));
        }
        assert_eq!(pool.worker_state(size), None);
    }
}

#[test]
fn new_pool_knows_no_job() {
    let pool = ThreadPool::<Plain>::build(3).unwrap();
    assert!(pool.get_job_metadata(0).is_none());
    assert!(pool.get_job_metadata(7).is_none());
    assert!(pool.get_job_metadata(u128::MAX).is_none());
}

#[test]
fn done_then_boom_settle_as_their_payloads_say() {
    let mut pool = ThreadPool::<Plain>::build(2).unwrap();

    let first = pool.execute(done);
    loop {
        let meta = pool.get_job_metadata(first).unwrap();
        if meta.state.is_terminal() {
            assert!(matches!(meta.state, JobStatus::Completed));
            assert_eq!(meta.result, Some("done".to_string()));
            break;
        }
        assert_eq!(pool.serve(0), Turn::Ran(first));
    }

    let second = pool.execute(boom);
    loop {
        let meta = pool.get_job_metadata(second).unwrap();
        if meta.state.is_terminal() {
            match meta.state {
                JobStatus::Failed(reason) => assert_eq!(reason, "boom"),
                other => panic!("unexpected state {:?}", other),
            }
            assert_eq!(meta.result, Some("boom".to_string()));
            break;
        }
        assert_eq!(pool.serve(1), Turn::Ran(second));
    }
    assert_ne!(first, second);
}

#[test]
fn submitted_job_is_pending_with_no_result() {
    let mut pool = ThreadPool::<Plain>::build(1).unwrap();
    let id = pool.submit(42, done);
    assert_eq!(id, 42);
    let meta = pool.get_job_metadata(42).unwrap();
    assert!(matches!(meta.state, JobStatus::Pending));
    assert_eq!(meta.result, None);
    assert_eq!(pool.queued(), 1);
    assert!(pool.get_job_metadata(43).is_none());
}

#[test]
fn states_follow_the_lifecycle_in_order() {
    let mut pool = ThreadPool::<Plain>::build(1).unwrap();
    let id = pool.submit(5, done);

    let seen = pool.get_job_metadata(id).unwrap();
    assert!(matches!(seen.state, JobStatus::Pending));
    assert_eq!(seen.result, None);

    let payload = match pool.claim(0) {
        Claim::Run { id: claimed, payload } => {
            assert_eq!(claimed, id);
            payload
        }
        other => panic!("expected a job, got {:?}", other),
    };
    let seen = pool.get_job_metadata(id).unwrap();
    assert!(matches!(seen.state, JobStatus::Processing));
    assert_eq!(seen.result, None);
    assert_eq!(pool.worker_state(0), Some(WorkerState::Executing(id)));

    assert!(pool.complete(0, payload()));
    let seen = pool.get_job_metadata(id).unwrap();
    assert!(matches!(seen.state, JobStatus::Completed));
    assert_eq!(seen.result, Some("done".to_string()));
    assert_eq!(pool.worker_state(0), Some(WorkerState::Idle));
}

#[test]
fn settled_job_never_changes_again() {
    let mut pool = ThreadPool::<Plain>::build(2).unwrap();
    let first = pool.submit(1, done);
    let second = pool.submit(2, boom);
    assert_eq!(pool.serve(0), Turn::Ran(first));
    assert_eq!(pool.serve(1), Turn::Ran(second));

    // Reports from workers that run nothing change nothing.
    assert!(!pool.complete(0, Err("late".to_string())));
    assert!(!pool.complete(1, Ok("late".to_string())));
    assert!(!pool.complete(2, Ok("nobody".to_string())));
    // Resubmitting under a taken identifier moves on to a vacant one.
    assert_eq!(pool.submit(1, done), 3);
    pool.close();
    assert_eq!(pool.work(0), Turn::Exit);

    let meta = pool.get_job_metadata(first).unwrap();
    assert!(matches!(meta.state, JobStatus::Completed));
    assert_eq!(meta.result, Some("done".to_string()));
    let meta = pool.get_job_metadata(second).unwrap();
    assert!(matches!(meta.state, JobStatus::Failed(ref reason) if reason == "boom"));
    assert_eq!(meta.result, Some("boom".to_string()));
}

#[test]
fn execute_issues_distinct_identifiers() {
    let mut pool = ThreadPool::<Plain>::build(2).unwrap();
    let mut issued: Vec<u128> = Vec::new();
    for _ in 0..200 {
        let id = pool.execute(done);
        assert!(!issued.contains(&id));
        assert!(pool.get_job_metadata(id).is_some());
        issued.push(id);
    }
    assert_eq!(pool.queued(), 200);
}

#[test]
fn execute_draws_random_uuids() {
    let mut pool = ThreadPool::<Plain>::build(1).unwrap();
    let first = pool.execute(done);
    let second = pool.execute(done);
    for id in [first, second] {
        // Version 4, RFC variant.
        assert_eq!((id >> 76) & 0xf, 4);
        assert_eq!((id >> 62) & 0x3, 2);
    }
    assert_ne!(first, second);
    assert_ne!(first, 0);
}

#[test]
fn submit_moves_past_taken_identifiers() {
    let mut pool = ThreadPool::<Plain>::build(1).unwrap();
    assert_eq!(pool.submit(10, done), 10);
    assert_eq!(pool.submit(10, done), 11);
    assert_eq!(pool.submit(10, done), 12);
    assert_eq!(pool.submit(11, done), 13);
    assert_eq!(pool.submit(9, done), 9);
    assert_eq!(pool.submit(9, done), 14);
}

#[test]
fn submit_wraps_round_past_the_largest_identifier() {
    let mut pool = ThreadPool::<Plain>::build(1).unwrap();
    assert_eq!(pool.submit(u128::MAX, done), u128::MAX);
    assert_eq!(pool.submit(u128::MAX, done), 0);
    assert_eq!(pool.submit(u128::MAX, done), 1);
    assert_eq!(pool.submit(u128::MAX - 1, done), u128::MAX - 1);
    assert_eq!(pool.submit(u128::MAX - 1, done), 2);
}

#[test]
fn jobs_are_claimed_in_submission_order() {
    let mut pool = ThreadPool::<Plain>::build(3).unwrap();
    for id in [30u128, 10, 20] {
        pool.submit(id, done);
    }
    for (worker, expected) in [(2usize, 30u128), (0, 10), (1, 20)] {
        match pool.claim(worker) {
            Claim::Run { id, .. } => assert_eq!(id, expected),
            other => panic!("expected a job, got {:?}", other),
        }
    }
    assert!(matches!(pool.claim(0), Claim::Wait));
}

#[test]
fn more_jobs_than_workers_all_settle() {
    let workers = 3usize;
    let jobs = 10u128;
    let mut pool = ThreadPool::<Plain>::build(workers).unwrap();
    for id in 0..jobs {
        pool.submit(id, if id % 2 == 0 { done } else { boom });
    }
    let processing = |pool: &ThreadPool<Plain>| {
        (0..jobs)
            .filter(|id| matches!(pool.get_job_metadata(*id).unwrap().state, JobStatus::Processing))
            .count()
    };

    let mut held: Vec<Option<Plain>> = vec![None; workers];
    let mut settled = 0;
    while settled < jobs {
        for worker in 0..workers {
            if let Claim::Run { payload, .. } = pool.claim(worker) {
                held[worker] = Some(payload);
            }
            assert!(processing(&pool) <= workers);
        }
        // A fourth claim while every worker is busy hands nothing out.
        assert!(matches!(pool.claim(0), Claim::Wait) || held[0].is_none());
        for worker in 0..workers {
            if let Some(payload) = held[worker].take() {
                assert!(pool.complete(worker, payload()));
                settled += 1;
            }
            assert!(processing(&pool) <= workers);
        }
    }
    for id in 0..jobs {
        let meta = pool.get_job_metadata(id).unwrap();
        if id % 2 == 0 {
            assert!(matches!(meta.state, JobStatus::Completed));
            assert_eq!(meta.result, Some("done".to_string()));
        } else {
            assert!(matches!(meta.state, JobStatus::Failed(ref reason) if reason == "boom"));
            assert_eq!(meta.result, Some("boom".to_string()));
        }
    }
    assert_eq!(pool.queued(), 0);
}

#[test]
fn at_most_pool_size_jobs_are_processing() {
    let mut pool = ThreadPool::<Plain>::build(2).unwrap();
    for id in 0..5u128 {
        pool.submit(id, done);
    }
    assert!(matches!(pool.claim(0), Claim::Run { id: 0, .. }));
    assert!(matches!(pool.claim(1), Claim::Run { id: 1, .. }));
    // Busy workers are told to wait, and no third job starts.
    assert!(matches!(pool.claim(0), Claim::Wait));
    assert!(matches!(pool.claim(1), Claim::Wait));
    // There is no third worker.
    assert!(matches!(pool.claim(2), Claim::Exit));
    let processing = (0..5u128)
        .filter(|id| matches!(pool.get_job_metadata(*id).unwrap().state, JobStatus::Processing))
        .count();
    assert_eq!(processing, 2);
    assert_eq!(pool.queued(), 3);
}

#[test]
fn closed_pool_drains_the_queue_then_releases_workers() {
    let mut pool = ThreadPool::<Plain>::build(2).unwrap();
    pool.submit(1, done);
    pool.submit(2, boom);
    pool.close();
    assert!(!pool.is_open());
    pool.close();
    assert!(!pool.is_open());

    assert_eq!(pool.serve(0), Turn::Ran(1));
    assert_eq!(pool.serve(0), Turn::Ran(2));
    assert!(!pool.all_terminated());
    assert_eq!(pool.serve(0), Turn::Exit);
    assert_eq!(pool.worker_state(0), Some(WorkerState::Terminated));
    assert!(pool.has_consumer());
    assert_eq!(pool.serve(1), Turn::Exit);
    assert!(pool.all_terminated());
    assert!(!pool.has_consumer());

    // Once joined, nothing is processing and every claimed job has settled.
    assert!(matches!(pool.get_job_metadata(1).unwrap().state, JobStatus::Completed));
    assert!(matches!(pool.get_job_metadata(2).unwrap().state, JobStatus::Failed(_)));
    // A terminated worker stays terminated.
    assert!(matches!(pool.claim(0), Claim::Exit));
    assert_eq!(pool.worker_state(0), Some(WorkerState::Terminated));
}

#[test]
fn shutdown_waits_for_the_job_in_flight() {
    let mut pool = ThreadPool::<Plain>::build(1).unwrap();
    pool.submit(1, done);
    let payload = match pool.claim(0) {
        Claim::Run { payload, .. } => payload,
        other => panic!("expected a job, got {:?}", other),
    };
    pool.close();
    // The worker is still running its job: it has not terminated.
    assert!(!pool.all_terminated());
    assert!(matches!(pool.claim(0), Claim::Wait));
    assert!(pool.complete(0, payload()));
    assert!(matches!(pool.claim(0), Claim::Exit));
    assert!(pool.all_terminated());
    assert!(matches!(pool.get_job_metadata(1).unwrap().state, JobStatus::Completed));
}

#[test]
fn job_submitted_with_no_consumer_stays_pending() {
    let mut pool = ThreadPool::<Plain>::build(2).unwrap();
    assert!(pool.retire(0));
    assert!(pool.has_consumer());
    assert!(pool.retire(1));
    assert!(!pool.has_consumer());
    assert!(pool.is_open());

    let id = pool.execute(done);
    assert_eq!(pool.queued(), 0);
    assert_eq!(pool.work(0), Turn::Exit);
    assert_eq!(pool.work(1), Turn::Exit);
    let meta = pool.get_job_metadata(id).unwrap();
    assert!(matches!(meta.state, JobStatus::Pending));
    assert_eq!(meta.result, None);
}

#[test]
fn job_submitted_after_close_stays_pending() {
    let mut pool = ThreadPool::<Plain>::build(1).unwrap();
    pool.close();
    let id = pool.submit(3, done);
    assert_eq!(id, 3);
    assert_eq!(pool.queued(), 0);
    assert_eq!(pool.work(0), Turn::Exit);
    let meta = pool.get_job_metadata(3).unwrap();
    assert!(matches!(meta.state, JobStatus::Pending));
    assert_eq!(meta.result, None);
}

#[test]
fn retiring_shrinks_the_pool_by_one_slot() {
    let mut pool = ThreadPool::<Plain>::build(2).unwrap();
    assert!(pool.retire(1));
    assert_eq!(pool.worker_state(1), Some(WorkerState::Terminated));
    assert_eq!(pool.size(), 2);
    // Retiring again, or retiring nobody, changes nothing.
    assert!(!pool.retire(1));
    assert!(!pool.retire(2));
    // The other worker still serves.
    pool.submit(1, done);
    assert!(matches!(pool.claim(1), Claim::Exit));
    assert_eq!(pool.serve(0), Turn::Ran(1));
    // A busy worker does not retire.
    pool.submit(2, done);
    assert!(matches!(pool.claim(0), Claim::Run { id: 2, .. }));
    assert!(!pool.retire(0));
    assert_eq!(pool.worker_state(0), Some(WorkerState::Executing(2)));
}

#[test]
fn payload_failure_does_not_stop_the_worker() {
    let mut pool = ThreadPool::<Plain>::build(1).unwrap();
    pool.submit(1, boom);
    pool.submit(2, done);
    assert_eq!(pool.work(0), Turn::Wait);
    assert!(matches!(pool.get_job_metadata(1).unwrap().state, JobStatus::Failed(_)));
    assert!(matches!(pool.get_job_metadata(2).unwrap().state, JobStatus::Completed));
    assert_eq!(pool.worker_state(0), Some(WorkerState::Idle));
}

#[test]
fn work_serves_nothing_for_a_worker_that_is_not_idle() {
    let mut pool = ThreadPool::<Plain>::build(2).unwrap();
    pool.submit(1, done);
    pool.submit(2, done);
    assert!(matches!(pool.claim(0), Claim::Run { id: 1, .. }));
    assert_eq!(pool.work(0), Turn::Wait);
    assert_eq!(pool.queued(), 1);
    assert_eq!(pool.work(5), Turn::Exit);
    assert_eq!(pool.queued(), 1);
    assert_eq!(pool.work(1), Turn::Wait);
    assert_eq!(pool.queued(), 0);
    assert!(matches!(pool.get_job_metadata(1).unwrap().state, JobStatus::Processing));
    assert!(matches!(pool.get_job_metadata(2).unwrap().state, JobStatus::Completed));
}

#[test]
fn shutdown_settles_queued_jobs_and_terminates_workers() {
    let mut pool = ThreadPool::<Plain>::build(3).unwrap();
    pool.submit(1, done);
    pool.submit(2, boom);
    pool.submit(3, done);
    pool.shutdown();

    assert!(!pool.is_open());
    assert_eq!(pool.queued(), 0);
    assert!(pool.all_terminated());
    assert!(!pool.has_consumer());
    for worker in 0..3 {
        assert_eq!(pool.worker_state(worker), Some(WorkerState::Terminated));
    }
    let meta = pool.get_job_metadata(1).unwrap();
    assert!(matches!(meta.state, JobStatus::Completed));
    assert_eq!(meta.result, Some("done".to_string()));
    let meta = pool.get_job_metadata(2).unwrap();
    assert!(matches!(meta.state, JobStatus::Failed(ref reason) if reason == "boom"));
    assert_eq!(meta.result, Some("boom".to_string()));
    let meta = pool.get_job_metadata(3).unwrap();
    assert!(matches!(meta.state, JobStatus::Completed));
}

#[test]
fn shutdown_twice_is_shutdown_once() {
    let mut pool = ThreadPool::<Plain>::build(2).unwrap();
    pool.submit(1, done);
    pool.shutdown();
    let once = format!("{:?}", pool.get_job_metadata(1));
    pool.shutdown();
    assert_eq!(format!("{:?}", pool.get_job_metadata(1)), once);
    assert!(pool.all_terminated());
    assert!(!pool.is_open());
    assert_eq!(pool.queued(), 0);
}

#[test]
fn shutdown_leaves_a_busy_worker_to_finish() {
    let mut pool = ThreadPool::<Plain>::build(2).unwrap();
    pool.submit(1, done);
    pool.submit(2, boom);
    let payload = match pool.claim(1) {
        Claim::Run { id: 1, payload } => payload,
        other => panic!("expected job 1, got {:?}", other),
    };
    pool.shutdown();

    // Worker 0 drained the queue and left; worker 1 still runs job 1.
    assert_eq!(pool.worker_state(0), Some(WorkerState::Terminated));
    assert_eq!(pool.worker_state(1), Some(WorkerState::Executing(1)));
    assert!(!pool.all_terminated());
    assert!(matches!(pool.get_job_metadata(1).unwrap().state, JobStatus::Processing));
    assert!(matches!(pool.get_job_metadata(2).unwrap().state, JobStatus::Failed(_)));

    assert!(pool.complete(1, payload()));
    assert_eq!(pool.serve(1), Turn::Exit);
    assert!(pool.all_terminated());
    assert!(matches!(pool.get_job_metadata(1).unwrap().state, JobStatus::Completed));
}

#[test]
fn shutdown_with_no_worker_left_strands_the_queue() {
    let mut pool = ThreadPool::<Plain>::build(1).unwrap();
    pool.submit(1, done);
    assert!(pool.retire(0));
    pool.shutdown();
    assert!(pool.all_terminated());
    assert_eq!(pool.queued(), 1);
    assert!(matches!(pool.get_job_metadata(1).unwrap().state, JobStatus::Pending));
}
