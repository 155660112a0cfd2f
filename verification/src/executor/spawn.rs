//! Spawning tasks, and the handles to them.

use crate::executor::attribution::{current_task_attribution, new_task_metrics, TaskAttribution, ThreadContext, TrackingSettings};
use crate::executor::scheduler::{Executor, Wake};
use crate::executor::task::{TaskMetricsTable, TaskPriority};
use std::collections::HashMap;
use vstd::prelude::*;

#[allow(unused_imports)]
use crate::executor::task::TaskMetrics;

verus! {

/// Where in the program a task was spawned.
#[derive(Clone, Copy, Debug)]
pub struct SpawnLocation {
    pub file: &'static str,
    pub line: u32,
    pub column: u32,
}

/// What ties a task to the scope that it was spawned in.
#[derive(Clone, Copy, Debug, PartialEq, Eq, Structural)]
pub struct ScopedTaskMetadata {
    pub scope: u64,
    pub task_key: u64,
}

/// Metadata associated with a task to help schedule it and clean it up.
#[derive(Clone, Copy, Debug)]
pub struct TaskMetadata<A> {
    pub spawn_location: SpawnLocation,
    pub priority: TaskPriority,
    pub freshly_spawned: bool,
    pub scoped: Option<ScopedTaskMetadata>,
    /// The number of the task's metrics, where it is measured.
    pub metrics: Option<u64>,
    /// Inherited at spawn; installed while the task is polled so that anything
    /// it spawns is credited to the same place.
    pub attribution: Option<A>,
    /// Whether the task was told to stop.
    pub cancelled: bool,
}

/// The tasks that exist, by their numbers.
pub struct TaskTable<A> {
    tasks: HashMap<u64, TaskMetadata<A>>,
    next: u64,
}

impl<A> View for TaskTable<A> {
    type V = Map<u64, TaskMetadata<A>>;

    closed spec fn view(&self) -> Map<u64, TaskMetadata<A>> {
        self.tasks@
    }
}

impl<A: Copy> TaskTable<A> {
    /// Numbers are given out in order.
    pub closed spec fn wf(&self) -> bool {
        forall|task: u64| self.tasks@.contains_key(task) ==> task < self.next
    }

    /// How many numbers are left to give out.
    pub closed spec fn room(&self) -> nat {
        (u64::MAX - self.next) as nat
    }

    /// The tasks after `task` was told to stop: nothing changes where it no
    /// longer exists.
    pub open spec fn cancelled(tasks: Map<u64, TaskMetadata<A>>, task: u64) -> Map<
        u64,
        TaskMetadata<A>,
    > {
        if tasks.contains_key(task) {
            tasks.insert(task, TaskMetadata { cancelled: true, ..tasks[task] })
        } else {
            tasks
        }
    }

    /// A table without tasks.
    pub fn new() -> (table: TaskTable<A>)
        ensures
            table.wf(),
            table.room() == u64::MAX,
            table@ == Map::<u64, TaskMetadata<A>>::empty(),
    {
        broadcast use vstd::std_specs::hash::group_hash_axioms;

        TaskTable { tasks: HashMap::new(), next: 0 }
    }

    /// Whether there is a number left to give out.
    pub fn can_spawn(&self) -> (room: bool)
        ensures
            room == (self.room() > 0),
    {
        self.next < u64::MAX
    }

    /// Whether there are numbers left for so many tasks.
    pub fn can_spawn_all(&self, tasks: usize) -> (room: bool)
        ensures
            room == (self.room() >= tasks),
    {
        u64::MAX - self.next >= tasks as u64
    }

    /// The metadata of a task, while it exists.
    pub fn get(&self, task: u64) -> (metadata: Option<TaskMetadata<A>>)
        ensures
            metadata == (if self@.contains_key(task) {
                Some(self@[task])
            } else {
                None
            }),
    {
        broadcast use vstd::std_specs::hash::group_hash_axioms;

        match self.tasks.get(&task) {
            Some(metadata) => Some(*metadata),
            None => None,
        }
    }

    /// The number that the next task gets.
    pub closed spec fn next_task(&self) -> u64 {
        self.next
    }

    fn peek(&self) -> (task: u64)
        requires
            self.wf(),
        ensures
            task == self.next_task(),
            !self@.contains_key(task),
    {
        self.next
    }

    fn add_task(&mut self, metadata: TaskMetadata<A>) -> (task: u64)
        requires
            old(self).wf(),
            old(self).room() > 0,
        ensures
            final(self).wf(),
            task == old(self).next_task(),
            !old(self)@.contains_key(task),
            final(self)@ == old(self)@.insert(task, metadata),
            final(self).room() + 1 == old(self).room(),
    {
        broadcast use vstd::std_specs::hash::group_hash_axioms;

        let task: u64 = self.next;
        self.tasks.insert(task, metadata);
        self.next = task + 1;
        task
    }

    fn set(&mut self, task: u64, metadata: TaskMetadata<A>)
        requires
            old(self).wf(),
            old(self)@.contains_key(task),
        ensures
            final(self).wf(),
            final(self)@ == old(self)@.insert(task, metadata),
            final(self).room() == old(self).room(),
            final(self).next_task() == old(self).next_task(),
    {
        broadcast use vstd::std_specs::hash::group_hash_axioms;

        self.tasks.insert(task, metadata);
    }

    /// Tells a task to stop, and returns whether it still exists.
    pub fn cancel(&mut self, task: u64) -> (exists_still: bool)
        requires
            old(self).wf(),
        ensures
            final(self).wf(),
            exists_still == old(self)@.contains_key(task),
            final(self)@ == Self::cancelled(old(self)@, task),
            final(self).room() == old(self).room(),
            final(self).next_task() == old(self).next_task(),
    {
        match self.get(task) {
            Some(metadata) => {
                self.set(task, TaskMetadata { cancelled: true, ..metadata });
                true
            },
            None => false,
        }
    }

    /// Drops a task that has ended and that no handle is left to: its metrics
    /// are done, and its scope, if it has one, is to be told.
    pub fn drop_task(&mut self, task: u64, metrics: &mut TaskMetricsTable) -> (scoped: Option<
        ScopedTaskMetadata,
    >)
        requires
            old(self).wf(),
            old(metrics).wf(),
            old(self)@.contains_key(task),
        ensures
            final(self).wf(),
            final(metrics).wf(),
            final(self)@ == old(self)@.remove(task),
            final(self).room() == old(self).room(),
            final(self).next_task() == old(self).next_task(),
            final(metrics).room() == old(metrics).room(),
            scoped == old(self)@[task].scoped,
            match old(self)@[task].metrics {
                Some(id) => final(metrics)@ == (if old(metrics)@.contains_key(id) {
                    old(metrics)@.insert(
                        id,
                        TaskMetrics { done: true, ..old(metrics)@[id] },
                    )
                } else {
                    old(metrics)@
                }),
                None => final(metrics)@ == old(metrics)@,
            },
    {
        broadcast use vstd::std_specs::hash::group_hash_axioms;

        let mut scoped: Option<ScopedTaskMetadata> = None;
        if let Some(metadata) = self.get(task) {
            if let Some(id) = metadata.metrics {
                metrics.mark_done(id);
            }
            scoped = metadata.scoped;
        }
        self.tasks.remove(&task);
        assert(self@ =~= old(self)@.remove(task));
        scoped
    }
}

/// The tasks, their metrics and the queues that they wait in.
pub struct Runtime<A> {
    pub settings: TrackingSettings,
    pub tasks: TaskTable<A>,
    pub metrics: TaskMetricsTable,
    pub executor: Executor,
}

impl<A: TaskAttribution> Runtime<A> {
    /// The invariant of a runtime.
    pub open spec fn wf(&self) -> bool {
        self.tasks.wf() && self.metrics.wf() && self.executor.wf()
    }

    /// A runtime over an executor, without tasks.
    pub fn new(executor: Executor) -> (runtime: Runtime<A>)
        requires
            executor.wf(),
        ensures
            runtime.wf(),
            runtime.executor == executor,
            runtime.tasks@ == Map::<u64, TaskMetadata<A>>::empty(),
            runtime.metrics@ == Map::<u64, TaskMetrics>::empty(),
            !runtime.settings.task_metrics,
            !runtime.settings.poll_cpu_time,
            runtime.tasks.room() == u64::MAX,
            runtime.metrics.room() == u64::MAX,
    {
        Runtime {
            settings: TrackingSettings::default(),
            tasks: TaskTable::new(),
            metrics: TaskMetricsTable::new(),
            executor,
        }
    }

    /// Queues a task that is ready to be polled, and says whom to wake for it.
    pub fn schedule(&mut self, context: &ThreadContext<A>, task: u64) -> (wake: Wake)
        requires
            old(self).wf(),
            old(self).tasks@.contains_key(task),
        ensures
            final(self).wf(),
            final(self).settings == old(self).settings,
            final(self).metrics == old(self).metrics,
            final(self).tasks.room() == old(self).tasks.room(),
            final(self).tasks@ == old(self).tasks@.insert(
                task,
                TaskMetadata { freshly_spawned: false, ..old(self).tasks@[task] },
            ),
            (final(self).executor@, wake) == old(self).executor@.scheduled(
                thread_number(context.thread_id),
                task,
                old(self).tasks@[task].priority == TaskPriority::High,
                old(self).tasks@[task].freshly_spawned,
            ),
    {
        let mut wake = Wake::Nobody;
        proof {
            self.executor.lemma_wf();
        }
        if let Some(metadata) = self.tasks.get(task) {
            let thread: usize = match context.thread_id {
                Some(thread) => thread,
                None => usize::MAX,
            };
            let mut fresh: bool = metadata.freshly_spawned;
            wake = self.executor.schedule_task(thread, task, metadata.priority, &mut fresh);
            self.tasks.set(task, TaskMetadata { freshly_spawned: fresh, ..metadata });
        }
        wake
    }

    /// Adds a task that inherits the attribution of `context`, and queues it.
    fn start(
        &mut self,
        context: &ThreadContext<A>,
        priority: TaskPriority,
        spawn_location: SpawnLocation,
        scoped: Option<ScopedTaskMetadata>,
        sink: &mut A::Sink,
    ) -> (spawned: (u64, Wake))
        requires
            old(self).can_start(context, *old(sink)),
        ensures
            started(
                *old(self),
                *context,
                priority,
                spawn_location,
                scoped,
                *old(sink),
                spawned.0,
                spawned.1,
                *final(self),
                *final(sink),
            ),
            spawned.0 == old(self).tasks.next_task(),
    {
        let attribution: Option<A> = current_task_attribution(context);
        let metrics: Option<u64> = new_task_metrics(
            self.settings,
            attribution,
            &mut self.metrics,
            sink,
        );
        let task: u64 = self.tasks.add_task(
            TaskMetadata {
                spawn_location,
                priority,
                freshly_spawned: true,
                scoped,
                metrics,
                attribution,
                cancelled: false,
            },
        );
        let wake = self.schedule(context, task);
        proof {
            let record = self.tasks@[task];
            assert(self.tasks@ =~= old(self).tasks@.insert(task, record));
        }
        (task, wake)
    }

    pub(crate) fn next_task(&self) -> (task: u64)
        requires
            self.wf(),
        ensures
            task == self.tasks.next_task(),
    {
        self.tasks.peek()
    }

    pub(crate) fn spawn_scoped(
        &mut self,
        context: &ThreadContext<A>,
        priority: TaskPriority,
        spawn_location: SpawnLocation,
        scoped: ScopedTaskMetadata,
        sink: &mut A::Sink,
    ) -> (spawned: (JoinHandle, Wake))
        requires
            old(self).can_start(context, *old(sink)),
        ensures
            started(
                *old(self),
                *context,
                priority,
                spawn_location,
                Some(scoped),
                *old(sink),
                spawned.0.task(),
                spawned.1,
                *final(self),
                *final(sink),
            ),
            spawned.0.task() == old(self).tasks.next_task(),
    {
        let (task, wake) = self.start(context, priority, spawn_location, Some(scoped), sink);
        (JoinHandle { task }, wake)
    }

    /// Whether a task can be spawned: there are numbers left for it and for its
    /// metrics, if it is measured, and its attribution can be told.
    pub open spec fn can_start(&self, context: &ThreadContext<A>, sink: A::Sink) -> bool {
        &&& self.wf()
        &&& self.tasks.room() > 0
        &&& self.settings.task_metrics ==> self.metrics.room() > 0
        &&& self.settings.task_metrics ==> (context.attribution matches Some(a) ==> a.can_credit(
            sink,
        ))
    }
}

/// The number by which the scheduler knows a thread: a number past the end for
/// a thread without identity.
pub open spec fn thread_number(thread_id: Option<usize>) -> int {
    match thread_id {
        Some(thread) => thread as int,
        None => usize::MAX as int,
    }
}

/// The effect of spawning `task`.
///
/// It is new, it inherits the attribution of the thread that spawned it, and it
/// waits in the global queue of its priority. Where tasks are measured it has
/// fresh metrics, and its attribution was told of them.
pub open spec fn started<A: TaskAttribution>(
    before: Runtime<A>,
    context: ThreadContext<A>,
    priority: TaskPriority,
    spawn_location: SpawnLocation,
    scoped: Option<ScopedTaskMetadata>,
    sink_before: A::Sink,
    task: u64,
    wake: Wake,
    after: Runtime<A>,
    sink_after: A::Sink,
) -> bool {
    let record = after.tasks@[task];
    &&& after.wf()
    &&& after.settings == before.settings
    &&& after.tasks.room() + 1 == before.tasks.room()
    &&& !before.tasks@.contains_key(task)
    &&& after.tasks@ == before.tasks@.insert(task, record)
    &&& record == TaskMetadata {
        spawn_location,
        priority,
        freshly_spawned: false,
        scoped,
        metrics: record.metrics,
        attribution: context.attribution,
        cancelled: false,
    }
    &&& if before.settings.task_metrics {
        &&& record.metrics is Some
        &&& before.metrics.registers(record.metrics->0, after.metrics)
        &&& match context.attribution {
            Some(a) => a.credits(sink_before, record.metrics->0, sink_after) && a.can_credit(
                sink_after,
            ),
            None => sink_after == sink_before,
        }
    } else {
        &&& record.metrics is None
        &&& after.metrics == before.metrics
        &&& sink_after == sink_before
    }
    &&& (after.executor@, wake) == before.executor@.scheduled(
        thread_number(context.thread_id),
        task,
        priority == TaskPriority::High,
        true,
    )
}

/// A handle to a spawned task.
pub struct JoinHandle {
    task: u64,
}

/// A handle that can tell a task to stop, and does not keep it alive.
pub struct CancelHandle {
    task: u64,
}

impl JoinHandle {
    /// The task that the handle is for.
    pub closed spec fn task(&self) -> u64 {
        self.task
    }

    /// The number of the task.
    pub fn id(&self) -> (task: u64)
        ensures
            task == self.task(),
    {
        self.task
    }

    /// The number of the task's metrics, if it is measured.
    pub fn metrics<A: Copy>(&self, tasks: &TaskTable<A>) -> (metrics: Option<u64>)
        ensures
            metrics == (if tasks@.contains_key(self.task()) {
                tasks@[self.task()].metrics
            } else {
                None
            }),
    {
        match tasks.get(self.task) {
            Some(metadata) => metadata.metrics,
            None => None,
        }
    }

    /// Where the task was spawned.
    pub fn spawn_location<A: Copy>(&self, tasks: &TaskTable<A>) -> (location: Option<SpawnLocation>)
        ensures
            location == (if tasks@.contains_key(self.task()) {
                Some(tasks@[self.task()].spawn_location)
            } else {
                None
            }),
    {
        match tasks.get(self.task) {
            Some(metadata) => Some(metadata.spawn_location),
            None => None,
        }
    }

    /// A handle to cancel the task with.
    pub fn cancel_handle(&self) -> (handle: CancelHandle)
        ensures
            handle.task() == self.task(),
    {
        CancelHandle { task: self.task }
    }
}

impl CancelHandle {
    /// The task that the handle is for.
    pub closed spec fn task(&self) -> u64 {
        self.task
    }

    /// Tells the task to stop, if it still exists, and returns whether it does.
    pub fn cancel<A: Copy>(&self, tasks: &mut TaskTable<A>) -> (exists_still: bool)
        requires
            old(tasks).wf(),
        ensures
            final(tasks).wf(),
            exists_still == old(tasks)@.contains_key(self.task()),
            final(tasks)@ == TaskTable::cancelled(old(tasks)@, self.task()),
            final(tasks).room() == old(tasks).room(),
            final(tasks).next_task() == old(tasks).next_task(),
    {
        tasks.cancel(self.task)
    }
}

/// A handle whose end cancels its task.
pub struct AbortOnDropHandle {
    join_handle: JoinHandle,
    cancel_handle: CancelHandle,
}

impl AbortOnDropHandle {
    /// The task that the handle is for.
    pub closed spec fn task(&self) -> u64 {
        self.join_handle.task
    }

    /// Both handles are to the same task.
    pub closed spec fn wf(&self) -> bool {
        self.cancel_handle.task == self.join_handle.task
    }

    /// Makes the end of the handle the end of the task.
    pub fn new(join_handle: JoinHandle) -> (handle: AbortOnDropHandle)
        ensures
            handle.wf(),
            handle.task() == join_handle.task(),
    {
        let cancel_handle = join_handle.cancel_handle();
        AbortOnDropHandle { join_handle, cancel_handle }
    }

    /// The handle to wait for the task with.
    pub fn join_handle(&self) -> (handle: &JoinHandle)
        ensures
            handle.task() == self.task(),
    {
        &self.join_handle
    }

    /// Ends the handle, and with it the task. Returns whether it still exists.
    pub fn abort<A: Copy>(self, tasks: &mut TaskTable<A>) -> (exists_still: bool)
        requires
            self.wf(),
            old(tasks).wf(),
        ensures
            final(tasks).wf(),
            exists_still == old(tasks)@.contains_key(self.task()),
            final(tasks)@ == TaskTable::cancelled(old(tasks)@, self.task()),
            final(tasks).room() == old(tasks).room(),
            final(tasks).next_task() == old(tasks).next_task(),
    {
        self.cancel_handle.cancel(tasks)
    }
}

/// Spawns a task of the given priority, and says whom to wake for it.
pub fn spawn<A: TaskAttribution>(
    runtime: &mut Runtime<A>,
    context: &ThreadContext<A>,
    priority: TaskPriority,
    spawn_location: SpawnLocation,
    sink: &mut A::Sink,
) -> (spawned: (JoinHandle, Wake))
    requires
        old(runtime).can_start(context, *old(sink)),
    ensures
        started(
            *old(runtime),
            *context,
            priority,
            spawn_location,
            None,
            *old(sink),
            spawned.0.task(),
            spawned.1,
            *final(runtime),
            *final(sink),
        ),
{
    let (task, wake) = runtime.start(context, priority, spawn_location, None, sink);
    (JoinHandle { task }, wake)
}

/// A new task waits in the global queue of its priority and wakes a worker
/// somewhere, whichever thread spawns it.
pub proof fn law_new_task_waits_globally<A: TaskAttribution>(
    before: Runtime<A>,
    context: ThreadContext<A>,
    priority: TaskPriority,
    spawn_location: SpawnLocation,
    scoped: Option<ScopedTaskMetadata>,
    sink_before: A::Sink,
    task: u64,
    wake: Wake,
    after: Runtime<A>,
    sink_after: A::Sink,
)
    requires
        started(
            before,
            context,
            priority,
            spawn_location,
            scoped,
            sink_before,
            task,
            wake,
            after,
            sink_after,
        ),
    ensures
        wake == Wake::AnyRegion,
        after.executor@.lists == before.executor@.lists,
        priority == TaskPriority::High ==> after.executor@.high == before.executor@.high.push(task)
            && after.executor@.low == before.executor@.low,
        priority == TaskPriority::Low ==> after.executor@.low == before.executor@.low.push(task)
            && after.executor@.high == before.executor@.high,
{
}

/// A task spawned from inside another inherits its attribution: while a task is
/// polled the thread's context holds the task's own, and what is spawned from
/// there is credited to the same place.
pub proof fn law_spawned_task_inherits_attribution<A: TaskAttribution>(
    parent: TaskMetadata<A>,
    before: Runtime<A>,
    outside: ThreadContext<A>,
    inside: ThreadContext<A>,
    priority: TaskPriority,
    spawn_location: SpawnLocation,
    scoped: Option<ScopedTaskMetadata>,
    sink_before: A::Sink,
    task: u64,
    wake: Wake,
    after: Runtime<A>,
    sink_after: A::Sink,
)
    requires
        inside == (ThreadContext { attribution: parent.attribution, ..outside }),
        started(
            before,
            inside,
            priority,
            spawn_location,
            scoped,
            sink_before,
            task,
            wake,
            after,
            sink_after,
        ),
    ensures
        after.tasks@[task].attribution == parent.attribution,
{
}

/// A spawned task is a new one with what it was spawned with: its priority, its
/// place in the program and the attribution of the thread. Nobody has told it to
/// stop, and it belongs to no scope. It is measured from nothing where tasks are
/// measured, and no other task or its metrics change.
pub proof fn law_spawned_task_is_new<A: TaskAttribution>(
    runtime: &mut Runtime<A>,
    context: &ThreadContext<A>,
    priority: TaskPriority,
    location: SpawnLocation,
    sink: &mut A::Sink,
    spawned: (JoinHandle, Wake),
    task: u64,
    other: u64,
)
    requires
        call_ensures(spawn::<A>, (runtime, context, priority, location, sink), spawned),
        call_ensures(JoinHandle::id, (&spawned.0,), task),
    ensures
        !old(runtime).tasks@.contains_key(task),
        final(runtime).tasks@.contains_key(task),
        final(runtime).tasks@[task].priority == priority,
        final(runtime).tasks@[task].spawn_location == location,
        final(runtime).tasks@[task].attribution == context.attribution,
        final(runtime).tasks@[task].scoped is None,
        !final(runtime).tasks@[task].cancelled,
        !final(runtime).tasks@[task].freshly_spawned,
        final(runtime).tasks@[task].metrics is Some <==> old(runtime).settings.task_metrics,
        final(runtime).tasks@[task].metrics matches Some(id) ==> {
            &&& !old(runtime).metrics@.contains_key(id)
            &&& final(runtime).metrics@.contains_key(id)
            &&& final(runtime).metrics@[id].total_polls == 0
            &&& final(runtime).metrics@[id].total_poll_time_ns == 0
            &&& !final(runtime).metrics@[id].done
            &&& context.attribution matches Some(a) ==> a.credits(*old(sink), id, *final(sink))
        },
        old(runtime).tasks@.contains_key(other) ==> final(runtime).tasks@.contains_key(other)
            && final(runtime).tasks@[other] == old(runtime).tasks@[other],
        final(runtime).tasks@.contains_key(other) && other != task ==> old(runtime).tasks@.contains_key(other),
        old(runtime).metrics@.contains_key(other) ==> final(runtime).metrics@.contains_key(other)
            && final(runtime).metrics@[other] == old(runtime).metrics@[other],
        spawned.1 == Wake::AnyRegion,
        final(runtime).executor@.lists == old(runtime).executor@.lists,
        priority == TaskPriority::High ==> final(runtime).executor@.high == old(runtime).executor@.high.push(task) && final(runtime).executor@.low == old(runtime).executor@.low,
        priority == TaskPriority::Low ==> final(runtime).executor@.low == old(runtime).executor@.low.push(task) && final(runtime).executor@.high == old(runtime).executor@.high,
{
}

/// Telling a task to stop tells that task and no other, and only while it exists.
pub proof fn law_cancelling_tells_one_task<A: Copy>(
    handle: &JoinHandle,
    task: u64,
    cancel: CancelHandle,
    tasks: &mut TaskTable<A>,
    exists_still: bool,
)
    requires
        call_ensures(JoinHandle::id, (handle,), task),
        call_ensures(JoinHandle::cancel_handle, (handle,), cancel),
        call_ensures(CancelHandle::cancel::<A>, (&cancel, tasks), exists_still),
    ensures
        exists_still <==> old(tasks)@.contains_key(task),
        final(tasks)@.dom() == old(tasks)@.dom(),
        exists_still ==> {
            let before = old(tasks)@[task];
            let after = final(tasks)@[task];
            &&& after.cancelled
            &&& after.priority == before.priority
            &&& after.metrics == before.metrics
            &&& after.attribution == before.attribution
            &&& after.scoped == before.scoped
            &&& after.freshly_spawned == before.freshly_spawned
            &&& after.spawn_location == before.spawn_location
        },
        forall|other: u64| #[trigger]
            old(tasks)@.contains_key(other) && other != task ==> final(tasks)@[other] == old(tasks)@[other],
{
    assert(final(tasks)@.dom() =~= old(tasks)@.dom());
}

/// Ending a handle that aborts tells the task of the handle that it was made of
/// to stop, as cancelling it does.
pub proof fn law_aborting_is_cancelling<A: Copy>(
    joined: JoinHandle,
    task: u64,
    handle: AbortOnDropHandle,
    tasks: &mut TaskTable<A>,
    exists_still: bool,
)
    requires
        call_ensures(JoinHandle::id, (&joined,), task),
        call_ensures(AbortOnDropHandle::new, (joined,), handle),
        call_ensures(AbortOnDropHandle::abort::<A>, (handle, tasks), exists_still),
    ensures
        exists_still <==> old(tasks)@.contains_key(task),
        exists_still ==> final(tasks)@[task].cancelled,
        forall|other: u64| #[trigger]
            old(tasks)@.contains_key(other) && other != task ==> final(tasks)@[other] == old(tasks)@[other],
{
}

/// A task that is dropped is gone, alone, and its metrics are done but kept. Its
/// scope is told, if it has one.
pub proof fn law_dropped_task_is_done<A: Copy>(
    tasks: &mut TaskTable<A>,
    task: u64,
    metrics: &mut TaskMetricsTable,
    scoped: Option<ScopedTaskMetadata>,
)
    requires
        call_ensures(TaskTable::<A>::drop_task, (tasks, task, metrics), scoped),
        old(tasks)@.contains_key(task),
    ensures
        scoped == old(tasks)@[task].scoped,
        !final(tasks)@.contains_key(task),
        forall|other: u64| #[trigger]
            old(tasks)@.contains_key(other) && other != task ==> final(tasks)@.contains_key(other)
                && final(tasks)@[other] == old(tasks)@[other],
        final(metrics)@.dom() == old(metrics)@.dom(),
        forall|id: u64| #[trigger]
            old(metrics)@.contains_key(id) && old(tasks)@[task].metrics == Some(id) ==> final(metrics)@[id].done && final(metrics)@[id].total_polls == old(metrics)@[id].total_polls
                && final(metrics)@[id].total_poll_time_ns == old(metrics)@[id].total_poll_time_ns,
        forall|id: u64| #[trigger]
            old(metrics)@.contains_key(id) && old(tasks)@[task].metrics != Some(id) ==> final(metrics)@[id] == old(metrics)@[id],
{
    assert(final(metrics)@.dom() =~= old(metrics)@.dom());
}

/// A handle tells of its task what the table knows, while the task exists.
pub proof fn law_handle_tells_of_its_task<A: Copy>(
    handle: &JoinHandle,
    tasks: &TaskTable<A>,
    task: u64,
    metrics: Option<u64>,
    location: Option<SpawnLocation>,
    metadata: Option<TaskMetadata<A>>,
)
    requires
        call_ensures(JoinHandle::id, (handle,), task),
        call_ensures(JoinHandle::metrics::<A>, (handle, tasks), metrics),
        call_ensures(JoinHandle::spawn_location::<A>, (handle, tasks), location),
        call_ensures(TaskTable::<A>::get, (tasks, task), metadata),
    ensures
        metadata matches Some(known) ==> metrics == known.metrics && location == Some(
            known.spawn_location,
        ) && known == tasks@[task],
        metadata is None ==> metrics is None && location is None && !tasks@.contains_key(task),
{
}

} // verus!
