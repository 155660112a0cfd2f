//! Which task runs next: what scheduling, taking and stealing do to the order of
//! the tasks that wait.

use crate::executor::attribution::{TaskAttribution, ThreadContext};
use crate::executor::runner::{Fetch, FetchStage, FetchStep};
use crate::executor::scheduler::{Executor, Wake};
use crate::executor::spawn::Runtime;
use crate::executor::task::TaskPriority;
use crate::executor::try_steal::StealAttempt;
use crate::executor::wake::UnparkSearch;
use rand::rngs::SmallRng;
use vstd::prelude::*;

#[allow(unused_imports)]
use crate::executor::queues::{moves_batch, StealOutcome};
#[allow(unused_imports)]
use crate::executor::stealing::asks_thread;
#[allow(unused_imports)]
use crate::executor::try_steal::{region_is_empty, robs, steals, threads_are_empty};

verus! {

/// A thread takes the task in its slot first, and then those of its queue, the
/// newest first. What it does not take stays where it is.
pub proof fn law_slot_comes_first_and_then_the_newest(
    executor: &mut Executor,
    thread: usize,
    task: Option<u64>,
)
    requires
        call_ensures(Executor::take_local, (executor, thread), task),
        thread < old(executor)@.lists.len(),
    ensures
        ({
            let list = old(executor)@.lists[thread as int];
            let after = final(executor)@.lists[thread as int];
            &&& list.slot is Some ==> task == list.slot && after.slot is None && after.queue
                == list.queue
            &&& list.slot is None && list.queue.len() > 0 ==> task == Some(
                list.queue[list.queue.len() - 1],
            ) && after.slot is None && after.queue == list.queue.take(list.queue.len() - 1)
            &&& list.slot is None && list.queue.len() == 0 ==> task is None && after == list
        }),
        final(executor)@.lists.len() == old(executor)@.lists.len(),
        forall|t: int|
            0 <= t < old(executor)@.lists.len() && t != thread ==> #[trigger] final(executor)@.lists[t] == old(executor)@.lists[t],
        final(executor)@.high == old(executor)@.high,
        final(executor)@.low == old(executor)@.low,
        final(executor)@.numa == old(executor)@.numa,
        final(executor)@.num_regions == old(executor)@.num_regions,
{
    let queue = old(executor)@.lists[thread as int].queue;
    if queue.len() > 0 {
        assert(queue.drop_last() =~= queue.take(queue.len() - 1));
    }
}

/// A woken low priority task does not come before what the thread already has to
/// do: it joins the back of the global low priority queue, a worker of the
/// thread's region is woken for it, and the thread's own list stays as it is, so
/// that the thread goes on with what it would have gone on with.
pub proof fn law_low_task_waits_for_the_threads_own(
    executor: &mut Executor,
    thread: usize,
    task: u64,
    fresh: &mut bool,
    wake: Wake,
    later: &mut Executor,
    next: Option<u64>,
)
    requires
        call_ensures(
            Executor::schedule_task,
            (executor, thread, task, TaskPriority::Low, fresh),
            wake,
        ),
        !*old(fresh),
        thread < old(executor)@.lists.len(),
        old(executor)@.lists[thread as int].queue.len() > 0 || old(executor)@.lists[thread as int].slot is Some,
        call_ensures(Executor::take_local, (later, thread), next),
        *old(later) == *final(executor),
    ensures
        next == (match old(executor)@.lists[thread as int].slot {
            Some(own) => Some(own),
            None => Some(old(executor)@.lists[thread as int].queue.last()),
        }),
        wake == Wake::Region(old(executor)@.numa[thread as int]),
        final(executor)@.low == old(executor)@.low.push(task),
        final(executor)@.high == old(executor)@.high,
        final(executor)@.lists == old(executor)@.lists,
        final(executor)@.numa == old(executor)@.numa,
        final(executor)@.num_regions == old(executor)@.num_regions,
        !*final(fresh),
{
}

/// A woken low priority task runs at once on a thread that has nothing else to
/// do: the thread takes it next, and nobody is woken for it.
pub proof fn law_low_task_runs_on_an_idle_thread(
    executor: &mut Executor,
    thread: usize,
    task: u64,
    fresh: &mut bool,
    wake: Wake,
    later: &mut Executor,
    next: Option<u64>,
)
    requires
        call_ensures(
            Executor::schedule_task,
            (executor, thread, task, TaskPriority::Low, fresh),
            wake,
        ),
        !*old(fresh),
        thread < old(executor)@.lists.len(),
        old(executor)@.lists[thread as int].queue.len() == 0,
        old(executor)@.lists[thread as int].slot is None,
        call_ensures(Executor::take_local, (later, thread), next),
        *old(later) == *final(executor),
    ensures
        next == Some(task),
        wake == Wake::Nobody,
        final(later)@ == old(executor)@,
        final(executor)@.low == old(executor)@.low,
        final(executor)@.high == old(executor)@.high,
        !*final(fresh),
{
    assert(final(later)@.lists[thread as int] == old(executor)@.lists[thread as int]);
    assert(final(later)@ =~= old(executor)@);
}

/// A woken high priority task is what its thread runs next, and after it the
/// thread goes on with what it would have run before. Nobody is woken for a task
/// that only fills the thread's slot, and a worker of its region where a task
/// had to make room.
pub proof fn law_high_task_runs_next(
    executor: &mut Executor,
    thread: usize,
    task: u64,
    fresh: &mut bool,
    wake: Wake,
    later: &mut Executor,
    next: Option<u64>,
    still_later: &mut Executor,
    then: Option<u64>,
)
    requires
        call_ensures(
            Executor::schedule_task,
            (executor, thread, task, TaskPriority::High, fresh),
            wake,
        ),
        !*old(fresh),
        thread < old(executor)@.lists.len(),
        old(executor)@.wf(),
        call_ensures(Executor::take_local, (later, thread), next),
        *old(later) == *final(executor),
        call_ensures(Executor::take_local, (still_later, thread), then),
        *old(still_later) == *final(later),
    ensures
        next == Some(task),
        then == (match old(executor)@.lists[thread as int].slot {
            Some(own) => Some(own),
            None => if old(executor)@.lists[thread as int].queue.len() > 0 {
                Some(old(executor)@.lists[thread as int].queue.last())
            } else {
                None
            },
        }),
        wake == (match old(executor)@.lists[thread as int].slot {
            Some(_) => Wake::Region(old(executor)@.numa[thread as int]),
            None => Wake::Nobody,
        }),
        final(executor)@.high == old(executor)@.high,
        final(executor)@.low == old(executor)@.low,
        forall|t: int|
            0 <= t < old(executor)@.lists.len() && t != thread ==> #[trigger] final(executor)@.lists[t] == old(executor)@.lists[t],
        ({
            // The rest of the list stays, in its order.
            let list = old(executor)@.lists[thread as int];
            let after = final(still_later)@.lists[thread as int];
            after.slot is None && after.queue == (if list.slot is Some || list.queue.len() == 0 {
                list.queue
            } else {
                list.queue.take(list.queue.len() - 1)
            })
        }),
        !*final(fresh),
{
    let list = old(executor)@.lists[thread as int];
    let after = final(still_later)@.lists[thread as int];
    if list.slot is Some {
        assert(list.queue.push(list.slot->0).drop_last() =~= list.queue);
    } else if list.queue.len() > 0 {
        assert(list.queue.drop_last() =~= list.queue.take(list.queue.len() - 1));
    }
}

/// A task that is new, or that is scheduled from outside the executor, joins the
/// back of the global queue of its priority, where any thread can find it, and a
/// worker of any region is woken for it. No thread's own list changes.
pub proof fn law_new_and_outside_tasks_wait_globally(
    executor: &mut Executor,
    thread: usize,
    task: u64,
    priority: TaskPriority,
    fresh: &mut bool,
    wake: Wake,
)
    requires
        call_ensures(Executor::schedule_task, (executor, thread, task, priority, fresh), wake),
        *old(fresh) || thread >= old(executor)@.lists.len(),
    ensures
        wake == Wake::AnyRegion,
        final(executor)@.lists == old(executor)@.lists,
        final(executor)@.numa == old(executor)@.numa,
        final(executor)@.num_regions == old(executor)@.num_regions,
        priority == TaskPriority::High ==> final(executor)@.high == old(executor)@.high.push(task)
            && final(executor)@.low == old(executor)@.low,
        priority == TaskPriority::Low ==> final(executor)@.low == old(executor)@.low.push(task)
            && final(executor)@.high == old(executor)@.high,
        !*final(fresh),
{
}

/// The runtime schedules a task as its own priority and history say, as the
/// thread that calls or as none, and takes note that the task is no longer new.
pub proof fn law_runtime_schedules_by_the_tasks_priority<A: TaskAttribution>(
    runtime: &mut Runtime<A>,
    context: &ThreadContext<A>,
    task: u64,
    wake: Wake,
    executor: &mut Executor,
    thread: usize,
    fresh: &mut bool,
    direct: Wake,
)
    requires
        call_ensures(Runtime::<A>::schedule, (runtime, context, task), wake),
        old(runtime).tasks@.contains_key(task),
        old(runtime).executor@.wf(),
        call_ensures(
            Executor::schedule_task,
            (executor, thread, task, old(runtime).tasks@[task].priority, fresh),
            direct,
        ),
        old(executor)@ == old(runtime).executor@,
        *old(fresh) == old(runtime).tasks@[task].freshly_spawned,
        match context.thread_id {
            Some(own) => thread == own,
            None => thread >= old(executor)@.lists.len(),
        },
    ensures
        wake == direct,
        final(runtime).executor@ == final(executor)@,
        !final(runtime).tasks@[task].freshly_spawned,
        final(runtime).tasks@[task].priority == old(runtime).tasks@[task].priority,
        final(runtime).tasks@[task].metrics == old(runtime).tasks@[task].metrics,
        final(runtime).tasks@[task].attribution == old(runtime).tasks@[task].attribution,
        final(runtime).tasks@[task].scoped == old(runtime).tasks@[task].scoped,
        final(runtime).tasks@[task].cancelled == old(runtime).tasks@[task].cancelled,
        forall|t: u64| #[trigger]
            old(runtime).tasks@.contains_key(t) && t != task ==> final(runtime).tasks@[t] == old(runtime).tasks@[t],
        final(runtime).tasks@.dom() == old(runtime).tasks@.dom(),
        final(runtime).metrics == old(runtime).metrics,
{
    assert(final(runtime).tasks@.dom() =~= old(runtime).tasks@.dom());
}

/// Stealing prefers high priority: as long as the global queue of high priority
/// holds a task, nothing else is taken, and from it only the oldest. Then comes
/// the oldest of low priority, and only then the queues of threads.
pub proof fn law_stealing_prefers_high_priority(
    executor: &mut Executor,
    thread: usize,
    rng: &mut SmallRng,
    patience: u64,
    task: u64,
)
    requires
        call_ensures(
            Executor::try_steal_task,
            (executor, thread, rng, patience),
            StealAttempt::Found(task),
        ),
    ensures
        old(executor)@.high.len() > 0 ==> {
            &&& task == old(executor)@.high[0]
            &&& final(executor)@.high == old(executor)@.high.skip(1)
            &&& final(executor)@.low == old(executor)@.low
            &&& final(executor)@.lists == old(executor)@.lists
        },
        old(executor)@.high.len() == 0 && old(executor)@.low.len() > 0 ==> {
            &&& task == old(executor)@.low[0]
            &&& final(executor)@.high == old(executor)@.high
            &&& final(executor)@.low == old(executor)@.low.skip(1)
            &&& final(executor)@.lists == old(executor)@.lists
        },
        final(executor)@.numa == old(executor)@.numa,
{
    if old(executor)@.high.len() == 0 && old(executor)@.low.len() == 0 {
        let victim = choose|victim: int| #[trigger]
            robs(old(executor)@, thread as int, victim, task, final(executor)@);
    }
}

/// Where no task waits globally, a search takes one from the queue of a thread,
/// of its own region if one there has any. It may move older ones of that thread
/// to its own queue. It leaves every slot and every other thread alone.
pub proof fn law_stealing_prefers_the_own_region(
    executor: &mut Executor,
    thread: usize,
    rng: &mut SmallRng,
    patience: u64,
    task: u64,
)
    requires
        call_ensures(
            Executor::try_steal_task,
            (executor, thread, rng, patience),
            StealAttempt::Found(task),
        ),
        old(executor)@.wf(),
        thread < old(executor)@.lists.len(),
        old(executor)@.high.len() == 0,
        old(executor)@.low.len() == 0,
    ensures
        final(executor)@.high.len() == 0,
        final(executor)@.low.len() == 0,
        exists|victim: int|
            0 <= victim < old(executor)@.lists.len() && {
                let own = old(executor)@.lists[thread as int].queue;
                let robbed = (#[trigger] old(executor)@.lists[victim]).queue;
                &&& robbed.contains(task)
                &&& (exists|t: int|
                    0 <= t < old(executor)@.lists.len() && old(executor)@.numa[t] == old(executor)@.numa[thread as int] && (#[trigger] old(executor)@.lists[t]).queue.len() > 0)
                    ==> old(executor)@.numa[victim] == old(executor)@.numa[thread as int]
                &&& victim == thread ==> task == own.last() && final(executor)@.lists[thread as int].queue == own.take(own.len() - 1)
                &&& victim != thread ==> exists|count: int|
                    1 <= count <= robbed.len() && task == robbed[count - 1] && final(executor)@.lists[victim].queue == robbed.skip(count) && final(executor)@.lists[thread as int].queue == own + #[trigger] robbed.take(count - 1)
                &&& forall|t: int|
                    0 <= t < old(executor)@.lists.len() ==> (#[trigger] final(executor)@.lists[t]).slot == old(executor)@.lists[t].slot && (t != thread && t != victim
                        ==> final(executor)@.lists[t].queue == old(executor)@.lists[t].queue)
            },
{
    let before = old(executor)@;
    let after = final(executor)@;
    let victim = choose|victim: int| #[trigger]
        robs(before, thread as int, victim, task, after);
    let own = before.lists[thread as int].queue;
    let robbed = before.lists[victim].queue;
    if victim == thread {
        assert(own.drop_last() =~= own.take(own.len() - 1));
        assert(own[own.len() - 1] == task);
    } else {
        assert(asks_thread(before, thread as int, victim, StealOutcome::Success(task), after));
        let count = choose|count: int| #[trigger]
            moves_batch(
                robbed,
                own,
                task,
                after.lists[victim].queue,
                after.lists[thread as int].queue,
                count,
            );
        assert(robbed[count - 1] == task);
        assert(after.lists[thread as int].queue == own + robbed.take(count - 1));
    }
    if before.numa[victim] != before.numa[thread as int] {
        assert(region_is_empty(before, thread as int));
    }
    assert(before.lists[victim].queue.contains(task));
}

/// A search comes up with nothing only where there is nothing: both global
/// queues and the queue of every thread are empty. It is broken off only while a
/// task waits globally. Either way it changes nothing.
pub proof fn law_search_in_vain_found_nothing(
    executor: &mut Executor,
    thread: usize,
    rng: &mut SmallRng,
    patience: u64,
    attempt: StealAttempt,
)
    requires
        call_ensures(Executor::try_steal_task, (executor, thread, rng, patience), attempt),
        !(attempt is Found),
    ensures
        final(executor)@ == old(executor)@,
        attempt == StealAttempt::Nothing ==> {
            &&& old(executor)@.high.len() == 0
            &&& old(executor)@.low.len() == 0
            &&& forall|t: int|
                0 <= t < old(executor)@.lists.len() ==> (#[trigger] old(executor)@.lists[t]).queue.len() == 0
        },
        attempt == StealAttempt::Impatient ==> old(executor)@.high.len() > 0 || old(executor)@.low.len() > 0,
{
}

/// A runner runs what it has itself before it steals, tells the two apart, and
/// announces that it will park before it searches a last time and parks.
pub proof fn law_runner_steals_before_it_parks(
    fetch: &mut Fetch,
    executor: &mut Executor,
    rng: &mut SmallRng,
    patience: u64,
    step: FetchStep,
)
    requires
        call_ensures(Fetch::step, (fetch, executor, rng, patience), step),
        old(fetch)@.stage == FetchStage::Local || old(fetch)@.stage == FetchStage::Stealing || old(fetch)@.stage == FetchStage::StealingAgain,
        old(fetch)@.thread < old(executor)@.lists.len(),
    ensures
        final(fetch)@.thread == old(fetch)@.thread,
        ({
            let list = old(executor)@.lists[old(fetch)@.thread as int];
            let nothing_elsewhere = old(executor)@.high.len() == 0 && old(executor)@.low.len() == 0
                && forall|t: int|
                0 <= t < old(executor)@.lists.len() ==> (#[trigger] old(executor)@.lists[t]).queue.len() == 0;
            match old(fetch)@.stage {
                FetchStage::Local => if list.slot is Some {
                    step == FetchStep::Run(list.slot->0, true) && final(fetch)@.stage
                        == FetchStage::Over
                } else if list.queue.len() > 0 {
                    step == FetchStep::Run(list.queue.last(), true) && final(fetch)@.stage
                        == FetchStage::Over
                } else {
                    step == FetchStep::Continue && final(fetch)@.stage == FetchStage::Stealing
                },
                FetchStage::Stealing => {
                    &&& step == FetchStep::PreparePark <==> nothing_elsewhere
                    &&& step == FetchStep::PreparePark ==> final(fetch)@.stage
                        == FetchStage::Preparing
                    &&& step != FetchStep::Park
                    &&& step == FetchStep::Continue ==> final(fetch)@ == old(fetch)@ && final(executor)@ == old(executor)@
                    &&& step matches FetchStep::Run(_, local) ==> !local && final(fetch)@.stage
                        == FetchStage::Over
                },
                _ => {
                    &&& step == FetchStep::Park <==> nothing_elsewhere
                    &&& step == FetchStep::Park ==> final(fetch)@.stage == FetchStage::Parking
                    &&& step != FetchStep::PreparePark
                    &&& step == FetchStep::Continue ==> final(fetch)@ == old(fetch)@ && final(executor)@ == old(executor)@
                    &&& step matches FetchStep::Run(_, local) ==> !local && final(fetch)@.stage
                        == FetchStage::Over
                },
            }
        }),
{
    let before = old(executor)@;
    if old(fetch)@.stage != FetchStage::Local {
        let attempt = choose|attempt: StealAttempt|
            (final(fetch)@, step) == old(fetch)@.stole(attempt) && #[trigger] steals(
                before,
                old(fetch)@.thread as int,
                patience,
                attempt,
                final(executor)@,
            );
        if let StealAttempt::Found(task) = attempt {
            if before.high.len() == 0 && before.low.len() == 0 {
                let victim = choose|victim: int| #[trigger]
                    robs(before, old(fetch)@.thread as int, victim, task, final(executor)@);
                assert(before.lists[victim].queue.len() > 0);
            }
        }
        if attempt == StealAttempt::Nothing {
            assert(threads_are_empty(before));
        }
        if final(fetch)@ != old(fetch)@ && step == FetchStep::Continue {
            assert(false);
        }
    }
}

/// A search for a worker to wake asks the regions in its order, one after the
/// other, and ends with the first that woke one.
pub proof fn law_wake_search_ends_with_the_first_worker(
    search: &mut UnparkSearch,
    woke: bool,
    now: Option<usize>,
    next: Option<usize>,
    answered: &UnparkSearch,
)
    requires
        call_ensures(UnparkSearch::next_region, (&*old(search),), now),
        now is Some,
        call_ensures(UnparkSearch::answered, (search, woke), ()),
        *answered == *final(search),
        call_ensures(UnparkSearch::next_region, (answered,), next),
    ensures
        now == Some(old(search)@.order[old(search)@.tried as int]),
        final(search)@.order == old(search)@.order,
        woke ==> next is None,
        !woke && old(search)@.tried + 1 < old(search)@.order.len() ==> next == Some(
            old(search)@.order[old(search)@.tried as int + 1],
        ),
        !woke && old(search)@.tried + 1 >= old(search)@.order.len() ==> next is None,
{
}

/// Another region is asked only where the region asked first woke nobody, and
/// there is another.
pub proof fn law_other_regions_come_last(
    executor: &Executor,
    woke: bool,
    elsewhere: bool,
    recruited: Option<bool>,
    recruits: bool,
)
    requires
        call_ensures(Executor::wakes_elsewhere, (executor, woke), elsewhere),
        call_ensures(Executor::recruits_elsewhere, (executor, recruited), recruits),
    ensures
        elsewhere <==> !woke && executor@.num_regions >= 2,
        recruits <==> recruited == Some(false) && executor@.num_regions >= 2,
{
}

} // verus!
