use std::cell::RefCell;
use std::rc::Rc;

use worker_pool::{JobQueue, PoolCreationError, Receipt, Worker, WorkerState};

type Job = Box<dyn FnOnce()>;

/// Lets every worker in turn ask for work and run what it gets, until all
/// of them have left their loops. Returns the order in which jobs started.
fn drain(q: &mut JobQueue<(usize, Job)>) -> Vec<usize> {
    let mut started = Vec::new();
    loop {
        let mut all_exited = true;
        for w in 0..q.size() {
            if q.state(w) == WorkerState::Exited {
                continue;
            }
            all_exited = false;
            match q.receive(w) {
                Receipt::Job((k, job)) => {
                    started.push(k);
                    job();
                    q.finish(w);
                }
                Receipt::Wait => {}
                Receipt::Disconnected => {}
            }
        }
        if all_exited {
            return started;
        }
    }
}

#[test]
fn build_zero_is_refused() {
    match JobQueue::<u32>::build(0) {
        Err(e) => assert_eq!(e, PoolCreationError::WrongPoolSize),
        Ok(_) => panic!("a pool of no workers was built"),
    }
}

#[test]
fn build_gives_waiting_workers() {
    let q = JobQueue::<u32>::build(3).ok().unwrap();
    assert_eq!(q.size(), 3);
    assert!(q.accepts());
    for w in 0..3 {
        assert_eq!(q.state(w), WorkerState::Waiting);
    }
}

#[test]
fn error_messages() {
    assert_eq!(PoolCreationError::WrongPoolSize.message(), "wrong thread pool size");
    assert_eq!(
        PoolCreationError::WorkerJobTrouble.message(),
        "worker did not get a job (problem thread spawning)"
    );
}

#[test]
fn empty_open_queue_makes_worker_wait() {
    let mut q = JobQueue::<u32>::build(1).ok().unwrap();
    assert!(matches!(q.receive(0), Receipt::Wait));
    assert_eq!(q.state(0), WorkerState::Waiting);
}

#[test]
fn jobs_come_out_in_submission_order() {
    let mut q = JobQueue::<u32>::build(2).ok().unwrap();
    for j in [10, 20, 30] {
        assert!(q.submit(j).is_ok());
    }
    assert!(matches!(q.receive(1), Receipt::Job(10)));
    assert_eq!(q.state(1), WorkerState::Running);
    assert!(matches!(q.receive(0), Receipt::Job(20)));
    q.finish(1);
    assert_eq!(q.state(1), WorkerState::Waiting);
    assert!(matches!(q.receive(1), Receipt::Job(30)));
    q.finish(0);
    assert!(matches!(q.receive(0), Receipt::Wait));
}

#[test]
fn closed_queue_refuses_and_hands_job_back() {
    let mut q = JobQueue::<u32>::build(2).ok().unwrap();
    q.close();
    assert!(!q.accepts());
    assert_eq!(q.submit(7), Err(7));
    q.close();
    assert!(!q.accepts());
}

#[test]
fn queued_jobs_are_delivered_after_close() {
    let mut q = JobQueue::<u32>::build(1).ok().unwrap();
    assert!(q.submit(1).is_ok());
    assert!(q.submit(2).is_ok());
    q.close();
    assert!(matches!(q.receive(0), Receipt::Job(1)));
    q.finish(0);
    assert!(matches!(q.receive(0), Receipt::Job(2)));
    q.finish(0);
    assert!(matches!(q.receive(0), Receipt::Disconnected));
    assert_eq!(q.state(0), WorkerState::Exited);
}

#[test]
fn every_job_runs_exactly_once() {
    let mut q = JobQueue::<(usize, Job)>::build(3).ok().unwrap();
    let runs = Rc::new(RefCell::new(vec![0u32; 7]));
    for k in 0..7 {
        let runs = Rc::clone(&runs);
        let job: Job = Box::new(move || runs.borrow_mut()[k] += 1);
        assert!(q.submit((k, job)).is_ok());
    }
    q.close();
    let started = drain(&mut q);
    assert_eq!(started, vec![0, 1, 2, 3, 4, 5, 6]);
    assert_eq!(*runs.borrow(), vec![1u32; 7]);
}

#[test]
fn two_workers_count_to_five() {
    let mut q = JobQueue::<(usize, Job)>::build(2).ok().unwrap();
    let counter = Rc::new(RefCell::new(0u32));
    for k in 0..5 {
        let counter = Rc::clone(&counter);
        let job: Job = Box::new(move || *counter.borrow_mut() += 1);
        assert!(q.submit((k, job)).is_ok());
    }
    q.close();
    drain(&mut q);
    assert_eq!(*counter.borrow(), 5);
}

#[test]
fn single_worker_finishes_first_job_before_second() {
    let mut q = JobQueue::<(usize, Job)>::build(1).ok().unwrap();
    let log = Rc::new(RefCell::new(Vec::new()));
    let first = Rc::clone(&log);
    let second = Rc::clone(&log);
    let slow: Job = Box::new(move || first.borrow_mut().push('X'));
    let quick: Job = Box::new(move || second.borrow_mut().push('Y'));
    assert!(q.submit((0, slow)).is_ok());
    assert!(q.submit((1, quick)).is_ok());
    match q.receive(0) {
        Receipt::Job((k, job)) => {
            assert_eq!(k, 0);
            job();
        }
        _ => panic!("the first job was not handed out"),
    }
    q.finish(0);
    match q.receive(0) {
        Receipt::Job((k, job)) => {
            assert_eq!(k, 1);
            job();
        }
        _ => panic!("the second job was not handed out"),
    }
    q.finish(0);
    assert_eq!(*log.borrow(), vec!['X', 'Y']);
}

#[test]
fn pool_of_four_shuts_down_with_no_jobs() {
    let mut q = JobQueue::<(usize, Job)>::build(4).ok().unwrap();
    q.close();
    let started = drain(&mut q);
    assert!(started.is_empty());
    for w in 0..4 {
        assert_eq!(q.state(w), WorkerState::Exited);
    }
}

#[test]
fn worker_keeps_started_thread() {
    let mut w = Worker::<&str>::build::<()>(3, Ok("handle")).ok().unwrap();
    assert_eq!(w.id(), 3);
    assert_eq!(w.take_thread(), Some("handle"));
    assert_eq!(w.take_thread(), None);
    assert_eq!(w.id(), 3);
}

#[test]
fn worker_start_failure_fails_pool() {
    let r = Worker::<u8>::build(0, Err("no threads left"));
    assert!(matches!(r, Err(PoolCreationError::WorkerJobTrouble)));
}
