//! A cooperative scheduler: every live task is polled once per pass, in the
//! order in which the tasks were queued.

use std::collections::VecDeque;
use vstd::prelude::*;

verus! {

/// What a task reports when it is polled.
#[derive(Clone, Copy, Debug, PartialEq, Eq, Structural)]
pub enum TaskPoll {
    /// The task is complete and can be dropped.
    Ready,
    /// The task is not complete yet and must be polled again.
    Pending,
}

/// A unit of work that runs in steps and gives control back after each.
pub trait Pollable: Sized {
    /// Whether one step may take the work from `self` to `after` with
    /// `report` as its answer. A kind of work that says nothing of its steps
    /// admits any.
    open spec fn may_step(&self, after: &Self, report: TaskPoll) -> bool {
        true
    }

    /// Runs the work up to its next point of suspension.
    fn poll(&mut self) -> (report: TaskPoll)
        ensures
            old(self).may_step(final(self), report),
    ;
}

/// A unit of work in the executor's queue.
pub struct Task<T: Pollable> {
    /// The work itself.
    pub future: T,
}

impl<T: Pollable> Task<T> {
    /// Wraps `future` for the queue.
    pub fn new(future: T) -> (task: Task<T>)
        ensures
            task.future == future,
    {
        Task { future }
    }

    /// Polls the work once.
    pub fn poll(&mut self) -> (report: TaskPoll)
        ensures
            old(self).future.may_step(&final(self).future, report),
    {
        self.future.poll()
    }
}

/// The tasks among `outcomes` that reported `Pending`, in their order.
pub open spec fn still_pending<T: Pollable>(outcomes: Seq<(Task<T>, TaskPoll)>) -> Seq<Task<T>>
    decreases outcomes.len(),
{
    if outcomes.len() == 0 {
        Seq::empty()
    } else if outcomes.last().1 == TaskPoll::Pending {
        still_pending(outcomes.drop_last()).push(outcomes.last().0)
    } else {
        still_pending(outcomes.drop_last())
    }
}

/// Whether `outcomes` is what one pass over `tasks` may give: each task took
/// exactly one step, and its outcome stands at the task's own index.
pub open spec fn is_pass<T: Pollable>(
    tasks: Seq<Task<T>>,
    outcomes: Seq<(Task<T>, TaskPoll)>,
) -> bool {
    &&& outcomes.len() == tasks.len()
    &&& forall|i: int|
        0 <= i < tasks.len() ==> (#[trigger] tasks[i]).future.may_step(
            &outcomes[i].0.future,
            outcomes[i].1,
        )
}

/// A task that reported `Pending` in a pass is queued again after it, and
/// no more tasks are queued than were polled.
pub proof fn lemma_pending_requeued<T: Pollable>(outcomes: Seq<(Task<T>, TaskPoll)>, i: int)
    requires
        0 <= i < outcomes.len(),
        outcomes[i].1 == TaskPoll::Pending,
    ensures
        still_pending(outcomes).contains(outcomes[i].0),
        still_pending(outcomes).len() <= outcomes.len(),
    decreases outcomes.len(),
{
    let earlier = outcomes.drop_last();
    lemma_requeued_bound(outcomes);
    if i == outcomes.len() - 1 {
        let queued = still_pending(outcomes);
        assert(queued[queued.len() - 1] == outcomes[i].0);
    } else {
        lemma_pending_requeued(earlier, i);
        let k = choose|k: int|
            0 <= k < still_pending(earlier).len() && still_pending(earlier)[k] == earlier[i].0;
        assert(still_pending(outcomes)[k] == outcomes[i].0);
    }
}

/// No more tasks are queued after a pass than were polled in it, and none
/// when every task reported `Ready`.
pub proof fn lemma_requeued_bound<T: Pollable>(outcomes: Seq<(Task<T>, TaskPoll)>)
    ensures
        still_pending(outcomes).len() <= outcomes.len(),
        (forall|i: int| 0 <= i < outcomes.len() ==> (#[trigger] outcomes[i]).1 == TaskPoll::Ready)
            ==> still_pending(outcomes).len() == 0,
    decreases outcomes.len(),
{
    if outcomes.len() > 0 {
        let earlier = outcomes.drop_last();
        lemma_requeued_bound(earlier);
        if forall|i: int| 0 <= i < outcomes.len() ==> (#[trigger] outcomes[i]).1 == TaskPoll::Ready {
            assert forall|i: int| 0 <= i < earlier.len() implies (#[trigger] earlier[i]).1
                == TaskPoll::Ready by {
                assert(earlier[i] == outcomes[i]);
            }
            assert(outcomes[outcomes.len() - 1].1 == TaskPoll::Ready);
        }
    }
}

/// A queue of tasks, polled round-robin.
pub struct Executor<T: Pollable> {
    task_queue: VecDeque<Task<T>>,
}

impl<T: Pollable> View for Executor<T> {
    type V = Seq<Task<T>>;

    /// The queued tasks, the next to be polled first.
    closed spec fn view(&self) -> Seq<Task<T>> {
        self.task_queue@
    }
}

impl<T: Pollable> Executor<T> {
    /// An executor with no tasks.
    pub fn new() -> (executor: Executor<T>)
        ensures
            executor@ == Seq::<Task<T>>::empty(),
    {
        Executor { task_queue: VecDeque::new() }
    }

    /// Queues `task` behind all others.
    pub fn spawn(&mut self, task: Task<T>)
        ensures
            final(self)@ == old(self)@.push(task),
    {
        self.task_queue.push_back(task)
    }

    /// The number of live tasks.
    pub fn len(&self) -> (n: usize)
        ensures
            n == self@.len(),
    {
        self.task_queue.len()
    }

    /// One scheduling pass: polls each task that was queued at entry exactly
    /// once, in order, drops those that report `Ready` and queues the others
    /// again in the same order.
    pub fn run_ready_tasks(&mut self)
        ensures
            exists|outcomes: Seq<(Task<T>, TaskPoll)>|
                is_pass(old(self)@, outcomes) && final(self)@ == still_pending(outcomes),
    {
        let mut tasks_to_run = self.task_queue.len();
        let ghost total = tasks_to_run;
        let ghost mut outcomes: Seq<(Task<T>, TaskPoll)> = Seq::empty();
        assert(old(self)@.skip(0) =~= old(self)@);
        while tasks_to_run > 0
            invariant
                total == old(self)@.len(),
                tasks_to_run <= total,
                outcomes.len() == total - tasks_to_run,
                forall|i: int|
                    0 <= i < outcomes.len() ==> (#[trigger] old(self)@[i]).future.may_step(
                        &outcomes[i].0.future,
                        outcomes[i].1,
                    ),
                self@ == old(self)@.skip(outcomes.len() as int) + still_pending(outcomes),
            decreases tasks_to_run,
        {
            let ghost queue = self@;
            let ghost done = outcomes;
            if let Some(mut task) = self.task_queue.pop_front() {
                let report = task.poll();
                proof {
                    outcomes = done.push((task, report));
                    assert(outcomes.drop_last() =~= done);
                }
                match report {
                    TaskPoll::Ready => {},
                    TaskPoll::Pending => {
                        self.task_queue.push_back(task);
                    },
                }
                assert(self@ =~= old(self)@.skip(outcomes.len() as int) + still_pending(
                    outcomes,
                ));
            }
            tasks_to_run -= 1;
        }
        assert(self@ =~= still_pending(outcomes));
        assert(is_pass(old(self)@, outcomes));
    }

    /// One scheduling pass, as `run_ready_tasks`.
    pub fn poll(&mut self)
        ensures
            exists|outcomes: Seq<(Task<T>, TaskPoll)>|
                is_pass(old(self)@, outcomes) && final(self)@ == still_pending(outcomes),
    {
        self.run_ready_tasks();
    }
}

} // verus!
