//! The work queues of `crossbeam-deque`, holding task numbers.
//!
//! The scheduler owns its queues and borrows one exclusively for every call
//! below. No stealer of a queue is kept, so nothing else takes from a queue
//! between two calls, and its contents are a plain sequence.

use crossbeam_deque::{Injector, Steal, Worker};
use vstd::prelude::*;

verus! {

#[verifier::external_type_specification]
#[verifier::external_body]
#[verifier::reject_recursive_types(T)]
pub struct ExWorker<T>(crossbeam_deque::Worker<T>);

#[verifier::external_type_specification]
#[verifier::external_body]
#[verifier::reject_recursive_types(T)]
pub struct ExInjector<T>(crossbeam_deque::Injector<T>);

/// The tasks in a worker queue, the oldest first.
pub uninterp spec fn worker_tasks(queue: Worker<u64>) -> Seq<u64>;

/// Whether a worker queue hands its newest task to its own thread.
pub uninterp spec fn is_lifo(queue: Worker<u64>) -> bool;

/// The tasks in a global queue, the oldest first.
pub uninterp spec fn injector_tasks(queue: Injector<u64>) -> Seq<u64>;

/// What an attempt to take a task from a queue came to.
#[derive(Clone, Copy, Debug, PartialEq, Eq, Structural)]
pub enum StealOutcome {
    /// There was nothing to take.
    Empty,
    /// The task was taken.
    Success(u64),
    /// The attempt lost a race and took nothing.
    Retry,
}

/// The effect of taking from the front of a shared queue. Only where there is a
/// task can an attempt lose a race for it.
pub open spec fn takes_front(before: Seq<u64>, outcome: StealOutcome, after: Seq<u64>) -> bool {
    match outcome {
        StealOutcome::Empty => before.len() == 0 && after == before,
        StealOutcome::Success(task) => before.len() > 0 && task == before[0] && after
            == before.skip(1),
        StealOutcome::Retry => before.len() > 0 && after == before,
    }
}

/// The effect of moving a batch between worker queues and running its last
/// task: `count` tasks leave the front of the victim, all but the last of them
/// join the back of the thief, and the last is handed out.
pub open spec fn moves_batch(
    victim: Seq<u64>,
    thief: Seq<u64>,
    task: u64,
    victim_after: Seq<u64>,
    thief_after: Seq<u64>,
    count: int,
) -> bool {
    &&& 1 <= count <= victim.len()
    &&& task == victim[count - 1]
    &&& victim_after == victim.skip(count)
    &&& thief_after == thief + victim.take(count - 1)
}

/// The effect of stealing from another thread's queue, with both queues to
/// oneself: no race is lost.
pub open spec fn steals_batch(
    victim: Seq<u64>,
    thief: Seq<u64>,
    outcome: StealOutcome,
    victim_after: Seq<u64>,
    thief_after: Seq<u64>,
) -> bool {
    match outcome {
        StealOutcome::Empty => victim.len() == 0 && victim_after == victim && thief_after == thief,
        StealOutcome::Success(task) => exists|count: int| #[trigger]
            moves_batch(victim, thief, task, victim_after, thief_after, count),
        StealOutcome::Retry => false,
    }
}

/// Calls `Worker::new_lifo`: an empty queue that hands its newest task to its
/// own thread.
#[verifier::external_body]
pub(crate) fn new_worker() -> (queue: Worker<u64>)
    ensures
        worker_tasks(queue).len() == 0,
        is_lifo(queue),
{
    Worker::new_lifo()
}

/// Calls `Worker::push`: the task becomes the newest.
#[verifier::external_body]
pub(crate) fn worker_push(queue: &mut Worker<u64>, task: u64)
    ensures
        worker_tasks(*final(queue)) == worker_tasks(*old(queue)).push(task),
        is_lifo(*final(queue)) == is_lifo(*old(queue)),
{
    queue.push(task)
}

/// Calls `Worker::pop` on a queue made by `new_lifo`: the newest task leaves
/// and is returned, if there is one.
#[verifier::external_body]
pub(crate) fn worker_pop(queue: &mut Worker<u64>) -> (task: Option<u64>)
    requires
        is_lifo(*old(queue)),
    ensures
        task == (if worker_tasks(*old(queue)).len() == 0 {
            None::<u64>
        } else {
            Some(worker_tasks(*old(queue)).last())
        }),
        worker_tasks(*final(queue)) == (if worker_tasks(*old(queue)).len() == 0 {
            worker_tasks(*old(queue))
        } else {
            worker_tasks(*old(queue)).drop_last()
        }),
        is_lifo(*final(queue)),
{
    queue.pop()
}

/// Calls `Worker::is_empty`.
#[verifier::external_body]
pub(crate) fn worker_is_empty(queue: &Worker<u64>) -> (empty: bool)
    ensures
        empty == (worker_tasks(*queue).len() == 0),
{
    queue.is_empty()
}

/// Calls `Stealer::steal_batch_and_pop` on a stealer of `victim`, both queues
/// made by `new_lifo`. How many tasks move is not specified. The call gives up
/// only where it loses a race for a task, and there is nobody to lose it to.
#[verifier::external_body]
pub(crate) fn worker_steal(victim: &mut Worker<u64>, thief: &mut Worker<u64>) -> (outcome: StealOutcome)
    requires
        is_lifo(*old(victim)),
        is_lifo(*old(thief)),
    ensures
        steals_batch(
            worker_tasks(*old(victim)),
            worker_tasks(*old(thief)),
            outcome,
            worker_tasks(*final(victim)),
            worker_tasks(*final(thief)),
        ),
        is_lifo(*final(victim)),
        is_lifo(*final(thief)),
{
    match victim.stealer().steal_batch_and_pop(thief) {
        Steal::Empty => StealOutcome::Empty,
        Steal::Success(task) => StealOutcome::Success(task),
        Steal::Retry => StealOutcome::Retry,
    }
}

/// Calls `Injector::new`: an empty queue.
#[verifier::external_body]
pub(crate) fn new_injector() -> (queue: Injector<u64>)
    ensures
        injector_tasks(queue).len() == 0,
{
    Injector::new()
}

/// Calls `Injector::push`: the task becomes the newest.
#[verifier::external_body]
pub(crate) fn injector_push(queue: &mut Injector<u64>, task: u64)
    ensures
        injector_tasks(*final(queue)) == injector_tasks(*old(queue)).push(task),
{
    queue.push(task)
}

/// Calls `Injector::steal`: the oldest task leaves and is returned. The call
/// may fail spuriously where there is a task, and then takes nothing. An empty
/// queue is found empty: its ends are compared before the exchange that may
/// fail.
#[verifier::external_body]
pub(crate) fn injector_steal(queue: &mut Injector<u64>) -> (outcome: StealOutcome)
    ensures
        takes_front(injector_tasks(*old(queue)), outcome, injector_tasks(*final(queue))),
{
    match queue.steal() {
        Steal::Empty => StealOutcome::Empty,
        Steal::Success(task) => StealOutcome::Success(task),
        Steal::Retry => StealOutcome::Retry,
    }
}

} // verus!
