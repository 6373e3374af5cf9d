use thread_pool::pool::Phase;
use thread_pool::pool::PoolError;
use thread_pool::pool::ThreadPool;
use thread_pool::worker::Worker;
use thread_pool::worker::WorkerState;

#[test]
fn new_creates_distinct_worker_ids() {
    for size in 1..6usize {
        let pool = ThreadPool::new(size).unwrap();
        assert_eq!(pool.workers.len(), size);
        for (i, w) in pool.workers.iter().enumerate() {
            assert_eq!(w.id, i);
            assert_eq!(w.state, WorkerState::Idle);
        }
        assert!(pool.queue.is_empty());
        assert_eq!(pool.submitted, 0);
        assert_eq!(pool.started, 0);
        assert!(pool.completed.is_empty());
        assert_eq!(pool.phase, Phase::Running);
    }
}

#[test]
fn new_zero_size_fails_before_any_worker_exists() {
    assert!(matches!(ThreadPool::new(0), Err(PoolError::ZeroSize)));
}

#[test]
fn worker_new_starts_idle() {
    let w = Worker::new(7);
    assert_eq!(w.id, 7);
    assert_eq!(w.state, WorkerState::Idle);
}

#[test]
fn execute_enqueues_in_submission_order() {
    let mut pool = ThreadPool::new(2).unwrap();
    assert_eq!(pool.execute(), Ok(0));
    assert_eq!(pool.execute(), Ok(1));
    assert_eq!(pool.execute(), Ok(2));
    assert_eq!(pool.queue, vec![0, 1, 2]);
    assert_eq!(pool.submitted, 3);
}

#[test]
fn claims_follow_enqueue_order() {
    let mut pool = ThreadPool::new(3).unwrap();
    for _ in 0..3 {
        pool.execute().unwrap();
    }
    // Whichever worker reaches the channel first gets the oldest unit.
    assert_eq!(pool.claim(2), Some(0));
    assert_eq!(pool.claim(0), Some(1));
    assert_eq!(pool.claim(1), Some(2));
    assert!(pool.queue.is_empty());
    assert_eq!(pool.workers[2].state, WorkerState::Busy { job: 0 });
    assert_eq!(pool.workers[0].state, WorkerState::Busy { job: 1 });
    assert_eq!(pool.workers[1].state, WorkerState::Busy { job: 2 });
}

#[test]
fn single_worker_runs_units_in_strict_order() {
    let mut pool = ThreadPool::new(1).unwrap();
    for _ in 0..3 {
        pool.execute().unwrap();
    }
    for expected in 0..3usize {
        assert_eq!(pool.claim(0), Some(expected));
        assert_eq!(pool.completed.len(), expected);
        pool.complete(0);
        assert_eq!(pool.completed, (0..=expected).collect::<Vec<_>>());
    }
}

#[test]
fn dispatch_all_starts_every_unit_before_any_completes() {
    let mut pool = ThreadPool::new(4).unwrap();
    for _ in 0..4 {
        pool.execute().unwrap();
    }
    let started = pool.dispatch_all();
    assert_eq!(started, 4);
    for (i, w) in pool.workers.iter().enumerate() {
        assert_eq!(w.state, WorkerState::Busy { job: i });
    }
    assert!(pool.completed.is_empty());
    assert!(pool.queue.is_empty());
}

#[test]
fn dispatch_all_with_spare_workers() {
    let mut pool = ThreadPool::new(4).unwrap();
    pool.execute().unwrap();
    pool.execute().unwrap();
    assert_eq!(pool.dispatch_all(), 2);
    assert_eq!(pool.workers[0].state, WorkerState::Busy { job: 0 });
    assert_eq!(pool.workers[1].state, WorkerState::Busy { job: 1 });
    assert_eq!(pool.workers[2].state, WorkerState::Idle);
    assert_eq!(pool.workers[3].state, WorkerState::Idle);
}

#[test]
fn execute_after_shutdown_fails_fatally() {
    let mut pool = ThreadPool::new(2).unwrap();
    pool.execute().unwrap();
    pool.begin_shutdown();
    assert_eq!(pool.phase, Phase::Draining);
    assert_eq!(pool.execute(), Err(PoolError::ShutDown));
    // The queued unit is untouched by the failed submission.
    assert_eq!(pool.queue, vec![0]);
    assert_eq!(pool.submitted, 1);
}

#[test]
fn shutdown_drains_queued_and_in_flight_units() {
    let mut pool = ThreadPool::new(3).unwrap();
    for _ in 0..5 {
        pool.execute().unwrap();
    }
    // One unit is already in flight when shutdown begins.
    assert_eq!(pool.claim(1), Some(0));
    pool.shutdown();
    assert_eq!(pool.phase, Phase::Draining);
    assert!(pool.queue.is_empty());
    for w in pool.workers.iter() {
        assert_eq!(w.state, WorkerState::Exited);
    }
    let mut log = pool.completed.clone();
    log.sort();
    assert_eq!(log, vec![0, 1, 2, 3, 4]);
}

#[test]
fn shutdown_of_idle_pool_terminates_every_worker() {
    let mut pool = ThreadPool::new(2).unwrap();
    pool.shutdown();
    assert!(pool.completed.is_empty());
    assert_eq!(pool.workers[0].state, WorkerState::Exited);
    assert_eq!(pool.workers[1].state, WorkerState::Exited);
}

#[test]
fn worker_exits_on_closed_empty_channel() {
    let mut pool = ThreadPool::new(2).unwrap();
    pool.begin_shutdown();
    assert_eq!(pool.claim(0), None);
    assert_eq!(pool.workers[0].state, WorkerState::Exited);
    assert_eq!(pool.workers[1].state, WorkerState::Idle);
}

#[test]
fn four_workers_eight_units_log_each_exactly_once() {
    let mut pool = ThreadPool::new(4).unwrap();
    for _ in 0..8 {
        pool.execute().unwrap();
    }
    // An arbitrary interleaving: all four workers claim, finish in a
    // scrambled order, two claim again, then shutdown drains the rest.
    assert_eq!(pool.claim(0), Some(0));
    assert_eq!(pool.claim(1), Some(1));
    assert_eq!(pool.claim(2), Some(2));
    assert_eq!(pool.claim(3), Some(3));
    pool.complete(2);
    pool.complete(0);
    assert_eq!(pool.claim(0), Some(4));
    assert_eq!(pool.claim(2), Some(5));
    pool.complete(3);
    pool.complete(2);
    pool.shutdown();
    assert_eq!(pool.completed.len(), 8);
    let mut log = pool.completed.clone();
    log.sort();
    assert_eq!(log, (0..8).collect::<Vec<_>>());
}

#[test]
fn each_unit_sits_in_exactly_one_place() {
    let mut pool = ThreadPool::new(2).unwrap();
    for _ in 0..3 {
        pool.execute().unwrap();
    }
    assert_eq!(pool.claim(1), Some(0));
    // Unit 0 is in flight on worker 1 alone; units 1 and 2 are still queued;
    // nothing has completed.
    assert_eq!(pool.workers[1].state, WorkerState::Busy { job: 0 });
    assert_eq!(pool.workers[0].state, WorkerState::Idle);
    assert_eq!(pool.queue, vec![1, 2]);
    assert!(pool.completed.is_empty());
    pool.complete(1);
    // Unit 0 moved to the completion log and nowhere else.
    assert_eq!(pool.completed, vec![0]);
    assert_eq!(pool.workers[1].state, WorkerState::Idle);
    assert_eq!(pool.queue, vec![1, 2]);
}

#[test]
fn exactly_once_for_empty_submission_sequence() {
    let mut pool = ThreadPool::new(4).unwrap();
    pool.shutdown();
    assert_eq!(pool.completed, Vec::<usize>::new());
}
