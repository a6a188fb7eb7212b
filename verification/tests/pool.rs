use worker_pool::HandleState;
use worker_pool::ReceiveOutcome;
use worker_pool::ThreadPool;
use worker_pool::Worker;
use worker_pool::WorkerState;

/// Drive worker `wid` through one receive; panic if the pool misbehaves.
fn receive(pool: &mut ThreadPool, wid: usize) -> ReceiveOutcome {
    assert!(wid < pool.workers.len());
    assert!(matches!(pool.workers[wid].state, WorkerState::Idle));
    pool.recv(wid)
}

/// Drain the (already closed) pool with worker `wid` until it observes
/// closure, returning the job indices it completed on the way.
fn drain_with(pool: &mut ThreadPool, wid: usize) -> Vec<u64> {
    let mut ran: Vec<u64> = Vec::new();
    loop {
        match receive(pool, wid) {
            ReceiveOutcome::Received(t) => {
                ran.push(t);
                pool.finish(wid);
            }
            ReceiveOutcome::Closed => return ran,
            ReceiveOutcome::WouldBlock => panic!("intake still open while draining"),
        }
    }
}

#[test]
fn build_zero_fails_with_error_message() {
    let r = ThreadPool::build(0);
    match r {
        Ok(_) => panic!("a pool of size zero must not be constructed"),
        Err(e) => assert_eq!(e.message(), "size of ThreadPool cannot be zero"),
    }
}

#[test]
fn build_creates_exactly_size_workers() {
    for size in [1usize, 4, 7] {
        let pool = ThreadPool::build(size).unwrap();
        assert_eq!(pool.workers.len(), size);
        assert!(pool.accepting);
        assert_eq!(pool.submitted, 0);
        assert_eq!(pool.queue.len(), 0);
        for (i, w) in pool.workers.iter().enumerate() {
            assert_eq!(w.id, i);
            assert!(matches!(w.state, WorkerState::Idle));
            assert!(matches!(w.handle, HandleState::Present));
            assert!(w.completed.is_empty());
        }
    }
}

#[test]
fn worker_new_is_fresh() {
    let w = Worker::new(5);
    assert_eq!(w.id, 5);
    assert!(matches!(w.state, WorkerState::Idle));
    assert!(matches!(w.handle, HandleState::Present));
    assert!(w.completed.is_empty());
}

#[test]
fn single_worker_preserves_submission_order() {
    let mut pool = ThreadPool::build(1).unwrap();
    // Three jobs that would append 1, 2, 3 to a shared sink: the job with
    // submission index t appends t + 1.
    let mut sink: Vec<u64> = Vec::new();
    for expected in 0u64..3 {
        let t = pool.execute();
        assert_eq!(t, expected);
    }
    for _ in 0..3 {
        match receive(&mut pool, 0) {
            ReceiveOutcome::Received(t) => {
                sink.push(t + 1);
                pool.finish(0);
            }
            _ => panic!("a queued job must be delivered"),
        }
    }
    pool.close_intake();
    assert_eq!(drain_with(&mut pool, 0), Vec::<u64>::new());
    pool.shutdown();
    assert_eq!(sink, vec![1, 2, 3]);
    assert_eq!(pool.workers[0].completed, vec![0, 1, 2]);
}

#[test]
fn hundred_jobs_on_four_workers_all_counted() {
    let mut pool = ThreadPool::build(4).unwrap();
    let mut counter: u64 = 0;
    for _ in 0..100 {
        pool.execute();
    }
    // Workers contend round-robin for the queue; each delivered job
    // increments the shared counter.
    let mut wid = 0usize;
    loop {
        match receive(&mut pool, wid) {
            ReceiveOutcome::Received(_) => {
                counter += 1;
                pool.finish(wid);
            }
            ReceiveOutcome::WouldBlock => break,
            ReceiveOutcome::Closed => panic!("intake is still open"),
        }
        wid = (wid + 1) % 4;
    }
    pool.close_intake();
    for wid in 0..4 {
        drain_with(&mut pool, wid);
    }
    pool.shutdown();
    assert_eq!(counter, 100);
    let total: usize = pool.workers.iter().map(|w| w.completed.len()).sum();
    assert_eq!(total, 100);
}

#[test]
fn no_job_lost_or_duplicated() {
    let mut pool = ThreadPool::build(2).unwrap();
    for _ in 0..3 {
        pool.execute();
    }
    // Deliver a couple of jobs, submit more, then close: jobs queued before
    // closure must still be drained, each to exactly one worker.
    for wid in [0usize, 1] {
        match receive(&mut pool, wid) {
            ReceiveOutcome::Received(_) => pool.finish(wid),
            _ => panic!("a queued job must be delivered"),
        }
    }
    for _ in 0..2 {
        pool.execute();
    }
    pool.close_intake();
    let mut ran: Vec<u64> = Vec::new();
    ran.extend(drain_with(&mut pool, 0));
    ran.extend(drain_with(&mut pool, 1));
    pool.shutdown();
    let mut all: Vec<u64> = Vec::new();
    for w in pool.workers.iter() {
        all.extend(w.completed.iter().copied());
    }
    all.sort();
    assert_eq!(all, vec![0, 1, 2, 3, 4]);
    assert_eq!(ran.len(), 3);
}

#[test]
fn teardown_joins_every_worker_and_is_idempotent() {
    let mut pool = ThreadPool::build(3).unwrap();
    pool.execute();
    match receive(&mut pool, 2) {
        ReceiveOutcome::Received(_) => pool.finish(2),
        _ => panic!("a queued job must be delivered"),
    }
    pool.close_intake();
    for wid in 0..3 {
        assert_eq!(drain_with(&mut pool, wid), Vec::<u64>::new());
    }
    pool.shutdown();
    for w in pool.workers.iter() {
        assert!(matches!(w.state, WorkerState::Exited));
        assert!(matches!(w.handle, HandleState::Taken));
    }
    let completed_before: Vec<Vec<u64>> =
        pool.workers.iter().map(|w| w.completed.clone()).collect();
    // A second teardown is a no-op: handles are already consumed.
    pool.shutdown();
    for (w, before) in pool.workers.iter().zip(completed_before.iter()) {
        assert!(matches!(w.state, WorkerState::Exited));
        assert!(matches!(w.handle, HandleState::Taken));
        assert_eq!(&w.completed, before);
    }
    assert!(!pool.accepting);
}

#[test]
fn close_intake_is_idempotent_and_keeps_queued_jobs() {
    let mut pool = ThreadPool::build(1).unwrap();
    pool.execute();
    pool.execute();
    pool.close_intake();
    assert!(!pool.accepting);
    pool.close_intake();
    assert!(!pool.accepting);
    assert_eq!(pool.queue, vec![0, 1]);
    assert_eq!(drain_with(&mut pool, 0), vec![0, 1]);
    pool.shutdown();
}

#[test]
fn slow_job_does_not_block_other_workers() {
    let mut pool = ThreadPool::build(2).unwrap();
    // Submission index 0 stands for a job that sleeps; the other ten are
    // trivial.
    let slow = pool.execute();
    assert_eq!(slow, 0);
    for _ in 0..10 {
        pool.execute();
    }
    // Worker 0 takes the sleeping job and stays on it.
    match receive(&mut pool, 0) {
        ReceiveOutcome::Received(t) => assert_eq!(t, slow),
        _ => panic!("a queued job must be delivered"),
    }
    // All ten trivial jobs complete on worker 1 while worker 0 is busy.
    for _ in 0..10 {
        match receive(&mut pool, 1) {
            ReceiveOutcome::Received(_) => pool.finish(1),
            _ => panic!("a queued job must be delivered"),
        }
    }
    assert!(matches!(pool.workers[0].state, WorkerState::Busy(0)));
    assert_eq!(pool.workers[1].completed, vec![1, 2, 3, 4, 5, 6, 7, 8, 9, 10]);
    // The sleeper eventually finishes; shutdown then drains and joins.
    pool.finish(0);
    pool.close_intake();
    for wid in 0..2 {
        drain_with(&mut pool, wid);
    }
    pool.shutdown();
    assert_eq!(pool.workers[0].completed, vec![0]);
}

#[test]
fn receive_on_open_empty_intake_would_block() {
    let mut pool = ThreadPool::build(2).unwrap();
    let t = pool.execute();
    match receive(&mut pool, 0) {
        ReceiveOutcome::Received(got) => assert_eq!(got, t),
        _ => panic!("a queued job must be delivered"),
    }
    pool.finish(0);
    // The queue is empty but the intake is open: a receive reports that the
    // worker would keep waiting, and nothing changes.
    assert!(matches!(receive(&mut pool, 1), ReceiveOutcome::WouldBlock));
    assert!(pool.accepting);
    assert_eq!(pool.submitted, 1);
    assert!(matches!(pool.workers[1].state, WorkerState::Idle));
    assert!(pool.workers[1].completed.is_empty());
    pool.close_intake();
    for wid in 0..2 {
        drain_with(&mut pool, wid);
    }
    pool.shutdown();
}

#[test]
fn delivery_is_fifo_across_workers() {
    let mut pool = ThreadPool::build(3).unwrap();
    for _ in 0..6 {
        pool.execute();
    }
    // Whichever worker asks next receives the oldest queued job.
    let mut order: Vec<u64> = Vec::new();
    for wid in [2usize, 0, 1, 0, 2, 1] {
        match receive(&mut pool, wid) {
            ReceiveOutcome::Received(t) => {
                order.push(t);
                pool.finish(wid);
            }
            _ => panic!("a queued job must be delivered"),
        }
    }
    assert_eq!(order, vec![0, 1, 2, 3, 4, 5]);
    pool.close_intake();
    for wid in 0..3 {
        drain_with(&mut pool, wid);
    }
    pool.shutdown();
}
