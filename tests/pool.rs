use std::cell::{Cell, RefCell};
use std::rc::Rc;
use worker_pool::channel::Claim;
use worker_pool::pool::{Phase, PoolError, PoolState, WorkerStatus};

type Job = Box<dyn FnOnce()>;

/// Lets every worker in turn finish what it runs and claim again, running
/// each claimed job, until no worker can make progress.
fn run_round_robin(pool: &mut PoolState<Job>) {
    loop {
        let mut progressed = false;
        for id in 0..pool.size() {
            if pool.status(id) == WorkerStatus::Running {
                pool.finish(id);
                progressed = true;
            }
            if pool.status(id) == WorkerStatus::Idle {
                match pool.claim(id) {
                    Claim::Job(job) => {
                        job();
                        progressed = true;
                    }
                    Claim::Wait => {}
                    Claim::Closed => progressed = true,
                }
            }
        }
        if !progressed {
            break;
        }
    }
}

/// Shuts the pool down, lets the workers drain the queue and exit, and
/// returns the ids in the order they were joined.
fn teardown(pool: &mut PoolState<Job>) -> Vec<usize> {
    pool.shutdown();
    run_round_robin(pool);
    let mut joined = Vec::new();
    while let Some(id) = pool.next_join() {
        joined.push(id);
    }
    joined
}

#[test]
fn zero_size_is_refused() {
    assert!(matches!(PoolState::<Job>::new(0), Err(PoolError::ZeroSize)));
}

#[test]
fn new_pool_has_idle_workers_and_accepts_work() {
    let pool = PoolState::<Job>::new(5).unwrap();
    assert_eq!(pool.size(), 5);
    assert!(pool.is_accepting());
    assert_eq!(pool.phase(), Phase::Active);
    assert_eq!(pool.pending_len(), 0);
    assert_eq!(pool.joined(), 0);
    for id in 0..5 {
        assert_eq!(pool.status(id), WorkerStatus::Idle);
    }
}

#[test]
fn immediate_teardown_exits_and_joins_every_worker() {
    for n in [1usize, 2, 4, 16] {
        let mut pool = PoolState::<Job>::new(n).unwrap();
        pool.shutdown();
        assert_eq!(pool.phase(), Phase::Draining);
        for id in 0..n {
            assert!(matches!(pool.claim(id), Claim::Closed));
            assert_eq!(pool.status(id), WorkerStatus::Exited);
        }
        let mut joined = Vec::new();
        while let Some(id) = pool.next_join() {
            joined.push(id);
        }
        assert_eq!(joined, (0..n).collect::<Vec<usize>>());
        assert_eq!(pool.phase(), Phase::Terminated);
        assert_eq!(pool.next_join(), None);
    }
}

#[test]
fn no_join_while_accepting() {
    let mut pool = PoolState::<Job>::new(2).unwrap();
    assert_eq!(pool.next_join(), None);
    assert_eq!(pool.joined(), 0);
    assert!(pool.is_accepting());
}

#[test]
fn every_job_is_recorded_exactly_once() {
    let sink: Rc<RefCell<Vec<usize>>> = Rc::new(RefCell::new(Vec::new()));
    let mut pool = PoolState::<Job>::new(3).unwrap();
    for i in 0..50usize {
        let s = Rc::clone(&sink);
        assert!(pool.submit(Box::new(move || s.borrow_mut().push(i))).is_ok());
        if i % 7 == 0 {
            run_round_robin(&mut pool);
        }
    }
    let joined = teardown(&mut pool);
    assert_eq!(joined, vec![0, 1, 2]);
    let mut seen = sink.borrow().clone();
    seen.sort();
    assert_eq!(seen, (0..50).collect::<Vec<usize>>());
}

#[test]
fn thousand_increments_on_eight_workers() {
    let counter = Rc::new(Cell::new(0u32));
    let mut pool = PoolState::<Job>::new(8).unwrap();
    for _ in 0..1000 {
        let c = Rc::clone(&counter);
        assert!(pool.submit(Box::new(move || c.set(c.get() + 1))).is_ok());
    }
    teardown(&mut pool);
    assert_eq!(counter.get(), 1000);
    assert_eq!(pool.phase(), Phase::Terminated);
}

#[test]
fn one_more_job_than_workers_leaves_one_waiting() {
    let k = 4usize;
    let started = Rc::new(Cell::new(0usize));
    let mut pool = PoolState::<Job>::new(k).unwrap();
    for _ in 0..k + 1 {
        let s = Rc::clone(&started);
        assert!(pool.submit(Box::new(move || s.set(s.get() + 1))).is_ok());
    }
    let mut held: Vec<Job> = Vec::new();
    for id in 0..k {
        match pool.claim(id) {
            Claim::Job(job) => held.push(job),
            _ => panic!("worker {} found no job", id),
        }
        assert_eq!(pool.status(id), WorkerStatus::Running);
    }
    assert_eq!(pool.pending_len(), 1);
    assert_eq!(started.get(), 0);
    held.remove(0)();
    pool.finish(0);
    assert!(matches!(pool.claim(0), Claim::Job(_)));
    assert_eq!(pool.pending_len(), 0);
}

#[test]
fn submissions_after_shutdown_all_fail() {
    let ran = Rc::new(Cell::new(0u32));
    let mut pool = PoolState::<Job>::new(2).unwrap();
    let r = Rc::clone(&ran);
    assert!(pool.submit(Box::new(move || r.set(r.get() + 1))).is_ok());
    pool.shutdown();
    for _ in 0..20 {
        let r = Rc::clone(&ran);
        assert!(pool.submit(Box::new(move || r.set(r.get() + 100))).is_err());
        assert!(!pool.is_accepting());
    }
    assert_eq!(pool.pending_len(), 1);
    teardown(&mut pool);
    assert_eq!(ran.get(), 1);
}

#[test]
fn refused_job_is_handed_back_unrun() {
    let ran = Rc::new(Cell::new(false));
    let mut pool = PoolState::<Job>::new(1).unwrap();
    pool.shutdown();
    let r = Rc::clone(&ran);
    match pool.submit(Box::new(move || r.set(true))) {
        Err(job) => {
            assert!(!ran.get());
            job();
            assert!(ran.get());
        }
        Ok(()) => panic!("a job was accepted after shutdown"),
    }
}

#[test]
fn no_two_workers_claim_the_same_job() {
    let flags: Vec<Rc<Cell<bool>>> = (0..40).map(|_| Rc::new(Cell::new(false))).collect();
    let mut pool = PoolState::<Job>::new(6).unwrap();
    for f in &flags {
        let f = Rc::clone(f);
        assert!(pool.submit(Box::new(move || assert!(!f.replace(true)))).is_ok());
    }
    teardown(&mut pool);
    assert!(flags.iter().all(|f| f.get()));
}

#[test]
fn finishing_makes_a_worker_idle_again() {
    let mut pool = PoolState::<Job>::new(2).unwrap();
    assert!(pool.submit(Box::new(|| {})).is_ok());
    assert!(matches!(pool.claim(1), Claim::Job(_)));
    assert_eq!(pool.status(1), WorkerStatus::Running);
    assert_eq!(pool.status(0), WorkerStatus::Idle);
    pool.finish(1);
    assert_eq!(pool.status(1), WorkerStatus::Idle);
    assert!(matches!(pool.claim(1), Claim::Wait));
    assert_eq!(pool.status(1), WorkerStatus::Idle);
}
