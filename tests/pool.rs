use std::cell::Cell;
use std::rc::Rc;

use worker_pool::model::{WorkerAction, WorkerPhase};
use worker_pool::pool::PoolState;
use worker_pool::queue::TaskQueue;

type Task = Box<dyn FnOnce()>;

/// Lets worker `w` poll once; runs the job it is handed, if any, and reports
/// back. Returns whether a job ran.
fn step(pool: &mut PoolState<Task>, w: usize) -> bool {
    match pool.poll(w) {
        WorkerAction::Run(job) => {
            (job.item)();
            pool.finish(w);
            true
        }
        WorkerAction::Sleep | WorkerAction::Exit => false,
    }
}

fn counting_task(counter: &Rc<Cell<u32>>) -> Task {
    let c = Rc::clone(counter);
    Box::new(move || c.set(c.get() + 1))
}

#[test]
fn queue_pops_most_recent_first() {
    let mut q = TaskQueue::new();
    assert!(q.is_empty());
    q.push('a');
    q.push('b');
    q.push('c');
    assert_eq!(q.len(), 3);
    assert_eq!(q.pop(), Some('c'));
    assert_eq!(q.pop(), Some('b'));
    assert_eq!(q.pop(), Some('a'));
    assert_eq!(q.pop(), None);
    assert!(q.is_empty());
}

#[test]
fn single_worker_runs_in_stack_order() {
    let mut pool: PoolState<char> = PoolState::new(1);
    pool.submit('A');
    pool.submit('B');
    pool.submit('C');
    let mut order = Vec::new();
    for _ in 0..3 {
        match pool.poll(0) {
            WorkerAction::Run(job) => {
                order.push(job.item);
                pool.finish(0);
            }
            _ => panic!("a job was expected"),
        }
    }
    assert_eq!(order, vec!['C', 'B', 'A']);
}

#[test]
fn tickets_count_up_from_zero() {
    let mut pool: PoolState<u8> = PoolState::new(2);
    assert_eq!(pool.submit(10), 0);
    assert_eq!(pool.submit(20), 1);
    assert_eq!(pool.submit(30), 2);
    assert_eq!(pool.pending(), 3);
}

#[test]
fn drained_pool_ran_every_item_exactly_once() {
    let mut pool: PoolState<Task> = PoolState::new(3);
    let counters: Vec<Rc<Cell<u32>>> = (0..20).map(|_| Rc::new(Cell::new(0))).collect();
    for c in &counters {
        pool.submit(counting_task(c));
    }
    let mut ran = 0;
    while pool.pending() > 0 {
        for w in 0..3 {
            if step(&mut pool, w) {
                ran += 1;
            }
        }
    }
    assert_eq!(ran, 20);
    for c in &counters {
        assert_eq!(c.get(), 1);
    }
    pool.request_stop();
    for w in 0..3 {
        assert!(matches!(pool.poll(w), WorkerAction::Exit));
    }
    assert!(pool.all_stopped());
    for c in &counters {
        assert_eq!(c.get(), 1);
    }
}

#[test]
fn interleaved_producers_never_run_an_item_twice() {
    let mut pool: PoolState<Task> = PoolState::new(2);
    let counters: Vec<Rc<Cell<u32>>> = (0..30).map(|_| Rc::new(Cell::new(0))).collect();
    let mut next = 0;
    while next < counters.len() {
        // Three producers each submit one item, then one worker takes a turn.
        for _ in 0..3 {
            if next < counters.len() {
                pool.submit(counting_task(&counters[next]));
                next += 1;
            }
        }
        step(&mut pool, next % 2);
    }
    while pool.pending() > 0 {
        step(&mut pool, 0);
        step(&mut pool, 1);
    }
    for c in &counters {
        assert_eq!(c.get(), 1);
    }
}

#[test]
fn four_producers_four_workers_thousand_increments() {
    let mut pool: PoolState<Task> = PoolState::new(4);
    let counter = Rc::new(Cell::new(0u32));
    for round in 0..250 {
        for _producer in 0..4 {
            pool.submit(counting_task(&counter));
        }
        step(&mut pool, round % 4);
    }
    while pool.pending() > 0 {
        for w in 0..4 {
            step(&mut pool, w);
        }
    }
    assert_eq!(counter.get(), 1000);
}

#[test]
fn idle_worker_backs_off_until_stop() {
    let mut pool: PoolState<u8> = PoolState::new(1);
    assert_eq!(pool.phase(0), WorkerPhase::Polling);
    assert!(matches!(pool.poll(0), WorkerAction::Sleep));
    assert_eq!(pool.phase(0), WorkerPhase::Backoff);
    assert!(!pool.is_stopping());
    pool.request_stop();
    assert!(pool.is_stopping());
    assert!(matches!(pool.poll(0), WorkerAction::Exit));
    assert_eq!(pool.phase(0), WorkerPhase::Terminated);
}

#[test]
fn shutdown_with_nothing_pending_stops_all_workers() {
    let mut pool: PoolState<u8> = PoolState::new(3);
    assert!(!pool.all_stopped());
    pool.request_stop();
    for w in 0..3 {
        assert!(matches!(pool.poll(w), WorkerAction::Exit));
    }
    assert!(pool.all_stopped());
}

#[test]
fn stop_does_not_abandon_queued_work_while_a_worker_polls() {
    let mut pool: PoolState<u8> = PoolState::new(1);
    pool.submit(1);
    pool.submit(2);
    pool.request_stop();
    assert!(matches!(pool.poll(0), WorkerAction::Run(_)));
    pool.finish(0);
    assert!(matches!(pool.poll(0), WorkerAction::Run(_)));
    pool.finish(0);
    assert!(matches!(pool.poll(0), WorkerAction::Exit));
}

#[test]
fn failed_item_leaves_the_rest_to_other_workers() {
    let mut pool: PoolState<u32> = PoolState::new(2);
    for i in 0..5 {
        pool.submit(i);
    }
    let failing = match pool.poll(0) {
        WorkerAction::Run(job) => job.item,
        _ => panic!("a job was expected"),
    };
    assert_eq!(failing, 4);
    pool.fail(0);
    assert_eq!(pool.phase(0), WorkerPhase::Failed);
    assert_eq!(pool.pending(), 4);
    let mut rest = Vec::new();
    loop {
        match pool.poll(1) {
            WorkerAction::Run(job) => {
                rest.push(job.item);
                pool.finish(1);
            }
            _ => break,
        }
    }
    assert_eq!(rest, vec![3, 2, 1, 0]);
    pool.request_stop();
    assert!(matches!(pool.poll(1), WorkerAction::Exit));
    assert!(pool.all_stopped());
}

#[test]
fn worker_count_and_initial_phases() {
    let pool: PoolState<u8> = PoolState::new(4);
    assert_eq!(pool.worker_count(), 4);
    for w in 0..4 {
        assert_eq!(pool.phase(w), WorkerPhase::Polling);
    }
    assert!(pool.can_submit());
    assert_eq!(pool.pending(), 0);
}
