//! Where a ready task is queued, and how a worker finds one to run.

use crate::executor::queues::{injector_push, injector_steal, is_lifo, new_injector, new_worker, worker_is_empty, worker_pop, worker_push, worker_steal, StealOutcome};
use crate::executor::task::TaskPriority;
use crossbeam_deque::{Injector, Worker};
use vstd::prelude::*;

#[allow(unused_imports)]
use crate::executor::queues::{injector_tasks, steals_batch, takes_front, worker_tasks};

verus! {

/// A per-thread task list.
pub struct ThreadLocalTaskList {
    high_prio_tasks: Worker<u64>,
    local_slot: Option<u64>,
}

/// What a thread's task list holds: the tasks of its queue, the oldest first,
/// and the task it runs next.
pub struct TaskListView {
    pub queue: Seq<u64>,
    pub slot: Option<u64>,
}

impl View for ThreadLocalTaskList {
    type V = TaskListView;

    closed spec fn view(&self) -> TaskListView {
        TaskListView { queue: worker_tasks(self.high_prio_tasks), slot: self.local_slot }
    }
}

/// The queues of the executor and the layout of its threads.
pub struct Executor {
    thread_numa_regions: Vec<usize>,
    thread_task_lists: Vec<ThreadLocalTaskList>,
    global_high_prio_task_queue: Injector<u64>,
    global_low_prio_task_queue: Injector<u64>,
    num_numa_regions: usize,
}

/// What the executor's queues hold. `numa[t]` is the region of thread `t`.
#[verifier::ext_equal]
pub struct ExecutorView {
    pub numa: Seq<usize>,
    pub num_regions: nat,
    pub lists: Seq<TaskListView>,
    pub high: Seq<u64>,
    pub low: Seq<u64>,
}

impl View for Executor {
    type V = ExecutorView;

    closed spec fn view(&self) -> ExecutorView {
        ExecutorView {
            numa: self.thread_numa_regions@,
            num_regions: self.num_numa_regions as nat,
            lists: Seq::new(self.thread_task_lists@.len(), |t: int| self.thread_task_lists@[t]@),
            high: injector_tasks(self.global_high_prio_task_queue),
            low: injector_tasks(self.global_low_prio_task_queue),
        }
    }
}

/// Whom to wake after a task was queued.
#[derive(Clone, Copy, Debug, PartialEq, Eq, Structural)]
pub enum Wake {
    /// The thread that queued the task will run it.
    Nobody,
    /// One worker of a random region.
    AnyRegion,
    /// One worker of this region, or else one of a random region.
    Region(usize),
}

impl ExecutorView {
    /// One region and one list per thread.
    pub open spec fn wf(self) -> bool {
        &&& self.lists.len() == self.numa.len()
        &&& self.numa.len() <= 0x8000_0000
        &&& self.num_regions <= 0x8000_0000
        &&& forall|t: int| 0 <= t < self.numa.len() ==> #[trigger] self.numa[t] < self.num_regions
    }

    /// The same queues with the list of thread `t` replaced.
    pub open spec fn with_list(self, t: int, list: TaskListView) -> ExecutorView {
        ExecutorView { lists: self.lists.update(t, list), ..self }
    }

    /// The queues after `task` was scheduled from `thread`.
    ///
    /// A task that is new, or that comes from outside the executor, joins the
    /// global queue of its priority. Otherwise a high priority task takes the
    /// thread's slot and the task that it displaces joins the thread's queue,
    /// and a low priority task takes the slot only where the thread has nothing
    /// else to do.
    pub open spec fn scheduled(self, thread: int, task: u64, high: bool, fresh: bool) -> (
        ExecutorView,
        Wake,
    ) {
        if fresh || !(0 <= thread < self.lists.len()) {
            if high {
                (ExecutorView { high: self.high.push(task), ..self }, Wake::AnyRegion)
            } else {
                (ExecutorView { low: self.low.push(task), ..self }, Wake::AnyRegion)
            }
        } else {
            let list = self.lists[thread];
            if high {
                match list.slot {
                    None => (
                        self.with_list(thread, TaskListView { slot: Some(task), ..list }),
                        Wake::Nobody,
                    ),
                    Some(displaced) => (
                        self.with_list(
                            thread,
                            TaskListView { slot: Some(task), queue: list.queue.push(displaced) },
                        ),
                        Wake::Region(self.numa[thread]),
                    ),
                }
            } else if list.queue.len() == 0 && list.slot is None {
                (
                    self.with_list(thread, TaskListView { slot: Some(task), ..list }),
                    Wake::Nobody,
                )
            } else {
                (
                    ExecutorView { low: self.low.push(task), ..self },
                    Wake::Region(self.numa[thread]),
                )
            }
        }
    }

    /// What thread `t` takes from its own list: the slot's task, or else the
    /// newest of its queue.
    pub open spec fn local_task(self, t: int) -> Option<u64> {
        match self.lists[t].slot {
            Some(task) => Some(task),
            None => if self.lists[t].queue.len() == 0 {
                None
            } else {
                Some(self.lists[t].queue.last())
            },
        }
    }

    /// The queues after thread `t` took its own task.
    pub open spec fn local_taken(self, t: int) -> ExecutorView {
        match self.lists[t].slot {
            Some(task) => self.with_list(t, TaskListView { slot: None, ..self.lists[t] }),
            None => if self.lists[t].queue.len() == 0 {
                self
            } else {
                self.with_list(
                    t,
                    TaskListView { queue: self.lists[t].queue.drop_last(), ..self.lists[t] },
                )
            },
        }
    }
}

impl Executor {
    /// The invariant of the executor.
    pub closed spec fn wf(&self) -> bool {
        &&& self@.wf()
        &&& forall|t: int|
            0 <= t < self.thread_task_lists@.len() ==> is_lifo(
                (#[trigger] self.thread_task_lists@[t]).high_prio_tasks,
            )
    }

    /// What the invariant says of the queues.
    pub proof fn lemma_wf(&self)
        requires
            self.wf(),
        ensures
            self@.wf(),
    {
    }

    /// An executor with empty queues, one list for each thread and its region.
    pub fn new(thread_numa_regions: Vec<usize>, num_numa_regions: usize) -> (executor: Executor)
        requires
            thread_numa_regions@.len() <= 0x8000_0000,
            num_numa_regions <= 0x8000_0000,
            forall|t: int|
                0 <= t < thread_numa_regions@.len() ==> #[trigger] thread_numa_regions@[t]
                    < num_numa_regions,
        ensures
            executor.wf(),
            executor@.numa == thread_numa_regions@,
            executor@.num_regions == num_numa_regions,
            executor@.high == Seq::<u64>::empty(),
            executor@.low == Seq::<u64>::empty(),
            executor@.lists == Seq::new(
                thread_numa_regions@.len(),
                |t: int| (TaskListView { queue: Seq::empty(), slot: None }),
            ),
    {
        let mut thread_task_lists: Vec<ThreadLocalTaskList> = Vec::new();
        let n_threads: usize = thread_numa_regions.len();
        let mut t: usize = 0;
        while t < n_threads
            invariant
                t <= n_threads,
                thread_task_lists@.len() == t,
                forall|i: int|
                    0 <= i < t ==> (#[trigger] thread_task_lists@[i]).local_slot is None
                        && worker_tasks(thread_task_lists@[i].high_prio_tasks).len() == 0
                        && is_lifo(thread_task_lists@[i].high_prio_tasks),
            decreases n_threads - t,
        {
            thread_task_lists.push(
                ThreadLocalTaskList { high_prio_tasks: new_worker(), local_slot: None },
            );
            t = t + 1;
        }
        let executor = Executor {
            thread_numa_regions,
            thread_task_lists,
            global_high_prio_task_queue: new_injector(),
            global_low_prio_task_queue: new_injector(),
            num_numa_regions,
        };
        proof {
            assert(executor@.high =~= Seq::<u64>::empty());
            assert(executor@.low =~= Seq::<u64>::empty());
            assert forall|i: int| 0 <= i < n_threads implies executor@.lists[i] == (TaskListView {
                queue: Seq::empty(),
                slot: None,
            }) by {
                assert(executor.thread_task_lists@[i].local_slot is None);
                assert(executor@.lists[i].queue =~= Seq::<u64>::empty());
            }
            assert(executor@.lists =~= Seq::new(
                executor.thread_numa_regions@.len(),
                |t: int| (TaskListView { queue: Seq::empty(), slot: None }),
            ));
        }
        executor
    }

    /// Queues a ready task, and says whom to wake for it.
    ///
    /// `thread` is the executor thread that calls, any other number standing
    /// for a thread outside the executor. A task counts as freshly spawned until
    /// the first time that it is scheduled.
    pub fn schedule_task(
        &mut self,
        thread: usize,
        task: u64,
        priority: TaskPriority,
        freshly_spawned: &mut bool,
    ) -> (wake: Wake)
        requires
            old(self).wf(),
        ensures
            final(self).wf(),
            (final(self)@, wake) == old(self)@.scheduled(
                thread as int,
                task,
                priority == TaskPriority::High,
                *old(freshly_spawned),
            ),
            *final(freshly_spawned) == false,
    {
        let ghost before = self@;
        let mut use_global_queue: bool = thread >= self.thread_task_lists.len();
        if *freshly_spawned {
            use_global_queue = true;
            *freshly_spawned = false;
        }
        if use_global_queue {
            if priority == TaskPriority::High {
                injector_push(&mut self.global_high_prio_task_queue, task);
            } else {
                injector_push(&mut self.global_low_prio_task_queue, task);
            }
            assert(self@.lists =~= before.lists);
            return Wake::AnyRegion;
        }
        let numa: usize = self.thread_numa_regions[thread];
        if priority == TaskPriority::High {
            let displaced: Option<u64> = self.thread_task_lists[thread].local_slot;
            self.thread_task_lists[thread].local_slot = Some(task);
            match displaced {
                None => {
                    proof {
                        assert(self@.lists =~= before.scheduled(
                            thread as int,
                            task,
                            true,
                            false,
                        ).0.lists);
                    }
                    Wake::Nobody
                },
                Some(displaced) => {
                    worker_push(&mut self.thread_task_lists[thread].high_prio_tasks, displaced);
                    proof {
                        assert(self@.lists =~= before.scheduled(
                            thread as int,
                            task,
                            true,
                            false,
                        ).0.lists);
                    }
                    Wake::Region(numa)
                },
            }
        } else {
            if worker_is_empty(&self.thread_task_lists[thread].high_prio_tasks)
                && self.thread_task_lists[thread].local_slot.is_none() {
                self.thread_task_lists[thread].local_slot = Some(task);
                proof {
                    assert(self@.lists =~= before.scheduled(
                        thread as int,
                        task,
                        false,
                        false,
                    ).0.lists);
                }
                Wake::Nobody
            } else {
                injector_push(&mut self.global_low_prio_task_queue, task);
                proof {
                    assert(self@.lists =~= before.lists);
                }
                Wake::Region(numa)
            }
        }
    }

    /// Takes the next task of `thread` from its own list: its slot, or else the
    /// newest task of its queue.
    pub fn take_local(&mut self, thread: usize) -> (task: Option<u64>)
        requires
            old(self).wf(),
            thread < old(self)@.lists.len(),
        ensures
            final(self).wf(),
            task == old(self)@.local_task(thread as int),
            final(self)@ == old(self)@.local_taken(thread as int),
    {
        let ghost before = self@;
        let slot: Option<u64> = self.thread_task_lists[thread].local_slot;
        if let Some(task) = slot {
            self.thread_task_lists[thread].local_slot = None;
            assert(self@ =~= before.local_taken(thread as int));
            return Some(task);
        }
        let task: Option<u64> = worker_pop(&mut self.thread_task_lists[thread].high_prio_tasks);
        assert(self@ =~= before.local_taken(thread as int));
        task
    }

    /// Whether two threads are in the same NUMA region.
    pub fn same_region(&self, a: usize, b: usize) -> (same: bool)
        requires
            self.wf(),
            a < self@.lists.len(),
            b < self@.lists.len(),
        ensures
            same == (self@.numa[a as int] == self@.numa[b as int]),
    {
        self.thread_numa_regions[a] == self.thread_numa_regions[b]
    }

    /// The number of NUMA regions.
    pub fn num_regions(&self) -> (n: usize)
        ensures
            n == self@.num_regions,
    {
        self.num_numa_regions
    }

    /// The number of executor threads.
    pub fn num_threads(&self) -> (n: usize)
        requires
            self.wf(),
        ensures
            n == self@.lists.len(),
    {
        self.thread_task_lists.len()
    }

    /// Asks the global queue of high priority tasks for its oldest.
    pub(crate) fn steal_global_high(&mut self) -> (outcome: StealOutcome)
        requires
            old(self).wf(),
        ensures
            final(self).wf(),
            takes_front(old(self)@.high, outcome, final(self)@.high),
            final(self)@ == (ExecutorView { high: final(self)@.high, ..old(self)@ }),
    {
        let outcome = injector_steal(&mut self.global_high_prio_task_queue);
        assert(self@.lists =~= old(self)@.lists);
        outcome
    }

    /// Asks the global queue of low priority tasks for its oldest.
    pub(crate) fn steal_global_low(&mut self) -> (outcome: StealOutcome)
        requires
            old(self).wf(),
        ensures
            final(self).wf(),
            takes_front(old(self)@.low, outcome, final(self)@.low),
            final(self)@ == (ExecutorView { low: final(self)@.low, ..old(self)@ }),
    {
        let outcome = injector_steal(&mut self.global_low_prio_task_queue);
        assert(self@.lists =~= old(self)@.lists);
        outcome
    }

    /// Takes the newest task of the queue of `thread`, leaving its slot alone.
    pub(crate) fn pop_own_queue(&mut self, thread: usize) -> (task: Option<u64>)
        requires
            old(self).wf(),
            thread < old(self)@.lists.len(),
        ensures
            final(self).wf(),
            old(self)@.lists[thread as int].queue.len() == 0 ==> task is None && final(self)@
                == old(self)@,
            old(self)@.lists[thread as int].queue.len() > 0 ==> task == Some(
                old(self)@.lists[thread as int].queue.last(),
            ) && final(self)@ == old(self)@.with_list(
                thread as int,
                TaskListView {
                    queue: old(self)@.lists[thread as int].queue.drop_last(),
                    ..old(self)@.lists[thread as int]
                },
            ),
    {
        let ghost before = self@;
        let task: Option<u64> = worker_pop(&mut self.thread_task_lists[thread].high_prio_tasks);
        proof {
            let list = before.lists[thread as int];
            if list.queue.len() == 0 {
                assert(self@ =~= before);
            } else {
                assert(self@ =~= before.with_list(
                    thread as int,
                    TaskListView { queue: list.queue.drop_last(), ..list },
                ));
            }
        }
        task
    }

    /// Steals a batch from the queue of `victim` into that of `thread`.
    pub(crate) fn steal_from(&mut self, thread: usize, victim: usize) -> (outcome: StealOutcome)
        requires
            old(self).wf(),
            thread < old(self)@.lists.len(),
            victim < old(self)@.lists.len(),
            thread != victim,
        ensures
            final(self).wf(),
            steals_batch(
                old(self)@.lists[victim as int].queue,
                old(self)@.lists[thread as int].queue,
                outcome,
                final(self)@.lists[victim as int].queue,
                final(self)@.lists[thread as int].queue,
            ),
            final(self)@ == old(self)@.with_list(
                victim as int,
                TaskListView {
                    queue: final(self)@.lists[victim as int].queue,
                    ..old(self)@.lists[victim as int]
                },
            ).with_list(
                thread as int,
                TaskListView {
                    queue: final(self)@.lists[thread as int].queue,
                    ..old(self)@.lists[thread as int]
                },
            ),
    {
        let ghost before = self@;
        let outcome: StealOutcome;
        if victim < thread {
            let (low, high) = self.thread_task_lists.as_mut_slice().split_at_mut(thread);
            outcome = worker_steal(&mut low[victim].high_prio_tasks, &mut high[0].high_prio_tasks);
        } else {
            let (low, high) = self.thread_task_lists.as_mut_slice().split_at_mut(victim);
            outcome = worker_steal(&mut high[0].high_prio_tasks, &mut low[thread].high_prio_tasks);
        }
        proof {
            let after = self@;
            assert(after =~= before.with_list(
                victim as int,
                TaskListView {
                    queue: after.lists[victim as int].queue,
                    ..before.lists[victim as int]
                },
            ).with_list(
                thread as int,
                TaskListView {
                    queue: after.lists[thread as int].queue,
                    ..before.lists[thread as int]
                },
            ));
        }
        outcome
    }
}

} // verus!
