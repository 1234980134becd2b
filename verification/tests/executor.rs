use kernel_net::executor::{Executor, Pollable, Task, TaskPoll};
use kernel_net::p2p::{yield_now, YieldNow};
use std::cell::RefCell;
use std::rc::Rc;

/// A task that reports `Pending` a given number of times and logs each poll.
struct Countdown {
    name: usize,
    left: u32,
    log: Rc<RefCell<Vec<usize>>>,
}

impl Pollable for Countdown {
    fn poll(&mut self) -> TaskPoll {
        self.log.borrow_mut().push(self.name);
        if self.left == 0 {
            TaskPoll::Ready
        } else {
            self.left -= 1;
            TaskPoll::Pending
        }
    }
}

fn countdown(name: usize, left: u32, log: &Rc<RefCell<Vec<usize>>>) -> Task<Countdown> {
    Task::new(Countdown { name, left, log: Rc::clone(log) })
}

#[test]
fn one_pass_polls_each_task_once_in_order() {
    let log = Rc::new(RefCell::new(Vec::new()));
    let mut executor = Executor::new();
    for name in 0..5 {
        executor.spawn(countdown(name, 3, &log));
    }
    executor.poll();
    assert_eq!(*log.borrow(), vec![0, 1, 2, 3, 4]);
    assert_eq!(executor.len(), 5);
}

#[test]
fn pending_tasks_come_back_and_ready_tasks_leave() {
    let log = Rc::new(RefCell::new(Vec::new()));
    let mut executor = Executor::new();
    executor.spawn(countdown(0, 0, &log));
    executor.spawn(countdown(1, 1, &log));
    executor.spawn(countdown(2, 0, &log));
    executor.spawn(countdown(3, 2, &log));
    executor.poll();
    assert_eq!(*log.borrow(), vec![0, 1, 2, 3]);
    assert_eq!(executor.len(), 2);
    executor.poll();
    assert_eq!(*log.borrow(), vec![0, 1, 2, 3, 1, 3]);
    assert_eq!(executor.len(), 1);
    executor.run_ready_tasks();
    assert_eq!(*log.borrow(), vec![0, 1, 2, 3, 1, 3, 3]);
    assert_eq!(executor.len(), 0);
    executor.poll();
    assert_eq!(log.borrow().len(), 7);
}

#[test]
fn a_task_spawned_after_a_pass_waits_for_the_next() {
    let log = Rc::new(RefCell::new(Vec::new()));
    let mut executor = Executor::new();
    executor.spawn(countdown(7, 5, &log));
    executor.poll();
    executor.spawn(countdown(8, 5, &log));
    assert_eq!(*log.borrow(), vec![7]);
    executor.poll();
    assert_eq!(*log.borrow(), vec![7, 7, 8]);
}

#[test]
fn an_empty_executor_polls_nothing() {
    let mut executor: Executor<YieldNow> = Executor::new();
    executor.poll();
    assert_eq!(executor.len(), 0);
}

#[test]
fn yield_now_gives_control_back_exactly_once() {
    let mut work = yield_now();
    assert!(!work.yielded);
    assert_eq!(work.poll(), TaskPoll::Pending);
    assert!(work.yielded);
    assert_eq!(work.poll(), TaskPoll::Ready);
    assert_eq!(work.poll(), TaskPoll::Ready);
}

#[test]
fn yielding_work_survives_one_pass_and_ends_in_the_next() {
    let mut executor = Executor::new();
    executor.spawn(Task::new(yield_now()));
    executor.spawn(Task::new(yield_now()));
    executor.poll();
    assert_eq!(executor.len(), 2);
    executor.poll();
    assert_eq!(executor.len(), 0);
}
