//! Tasks that end with the scope that they were spawned in.

use crate::executor::attribution::{TaskAttribution, ThreadContext};
use crate::executor::scheduler::Wake;
use crate::executor::spawn::{JoinHandle, Runtime, ScopedTaskMetadata, SpawnLocation, TaskTable};
use crate::executor::task::TaskPriority;
use crate::slots::{new_slots, slots_drain, slots_insert, slots_len, slots_remove, SlotTable};
use vstd::prelude::*;

#[allow(unused_imports)]
use crate::executor::spawn::{started, TaskMetadata};
#[allow(unused_imports)]
use crate::keys::is_key;
#[allow(unused_imports)]
use crate::slots::{lists_slots, max_slots, slot_values};

verus! {

/// Keeps track of in-progress tasks, so that they can be forcibly cancelled
/// when the scope ends.
///
/// Tasks report their own key when done, so that the memory used by their
/// handles can be reclaimed.
pub struct TaskScope {
    scope: u64,
    cancel_handles: SlotTable,
    completed_tasks: Vec<u64>,
}

/// The tasks of a scope: those that it cancels at its end, by their keys, and
/// the keys that were reported as completed since.
#[verifier::ext_equal]
pub struct TaskScopeView {
    pub scope: u64,
    pub handles: Map<u64, u64>,
    pub completed: Seq<u64>,
}

impl View for TaskScope {
    type V = TaskScopeView;

    closed spec fn view(&self) -> TaskScopeView {
        TaskScopeView {
            scope: self.scope,
            handles: slot_values(self.cancel_handles),
            completed: self.completed_tasks@,
        }
    }
}

impl TaskScopeView {
    /// Only keys are reported.
    pub open spec fn wf(self) -> bool {
        forall|i: int| 0 <= i < self.completed.len() ==> is_key(#[trigger] self.completed[i])
    }

    /// The tasks that are still to be cancelled: those not reported as completed.
    pub open spec fn pending(self) -> Map<u64, u64> {
        self.handles.remove_keys(self.completed.to_set())
    }
}

/// `after` are the tasks `before` with each task of `handles` told to stop.
pub open spec fn all_cancelled<A>(
    before: Map<u64, TaskMetadata<A>>,
    handles: Map<u64, u64>,
    after: Map<u64, TaskMetadata<A>>,
) -> bool {
    &&& after.dom() == before.dom()
    &&& forall|task: u64| #[trigger]
        before.contains_key(task) ==> after[task] == (if handles.contains_value(task) {
            TaskMetadata { cancelled: true, ..before[task] }
        } else {
            before[task]
        })
}

impl TaskScope {
    /// An empty scope numbered `scope`.
    pub fn new(scope: u64) -> (task_scope: TaskScope)
        ensures
            task_scope@.wf(),
            task_scope@ == (TaskScopeView {
                scope,
                handles: Map::empty(),
                completed: Seq::empty(),
            }),
    {
        let task_scope = TaskScope {
            scope,
            cancel_handles: new_slots(),
            completed_tasks: Vec::new(),
        };
        assert(task_scope@ =~= (TaskScopeView {
            scope,
            handles: Map::empty(),
            completed: Seq::empty(),
        }));
        task_scope
    }

    /// Notes that the task under `task_key` was dropped.
    pub fn task_completed(&mut self, task_key: u64)
        requires
            old(self)@.wf(),
            is_key(task_key),
        ensures
            final(self)@.wf(),
            final(self)@ == (TaskScopeView {
                completed: old(self)@.completed.push(task_key),
                ..old(self)@
            }),
    {
        let ghost before = self@;
        self.completed_tasks.push(task_key);
        assert forall|i: int| 0 <= i < self@.completed.len() implies is_key(
            #[trigger] self@.completed[i],
        ) by {
            if i < before.completed.len() {
                assert(self@.completed[i] == before.completed[i]);
            }
        }
    }

    /// Whether another task fits, once the completed ones are cleared.
    pub fn has_room(&mut self) -> (room: bool)
        requires
            old(self)@.wf(),
        ensures
            final(self)@.wf(),
            final(self)@ == (TaskScopeView {
                handles: old(self)@.pending(),
                completed: Seq::empty(),
                ..old(self)@
            }),
            room == (old(self)@.pending().dom().len() < max_slots()),
    {
        self.clear_completed_tasks();
        slots_len(&self.cancel_handles) < 0xffff_fffe
    }

    /// Forgets the tasks that have completed.
    pub fn clear_completed_tasks(&mut self)
        requires
            old(self)@.wf(),
        ensures
            final(self)@.wf(),
            final(self)@ == (TaskScopeView {
                handles: old(self)@.pending(),
                completed: Seq::empty(),
                ..old(self)@
            }),
    {
        let ghost before = self@;
        let mut i: usize = 0;
        while i < self.completed_tasks.len()
            invariant
                i <= self.completed_tasks@.len(),
                self.completed_tasks@ == before.completed,
                self.scope == before.scope,
                before.wf(),
                slot_values(self.cancel_handles) == before.handles.remove_keys(
                    before.completed.take(i as int).to_set(),
                ),
            decreases self.completed_tasks@.len() - i,
        {
            let key: u64 = self.completed_tasks[i];
            slots_remove(&mut self.cancel_handles, key);
            i = i + 1;
            proof {
                let done = before.completed.take(i as int);
                assert(done.drop_last() =~= before.completed.take(i - 1));
                assert forall|k: u64|
                    done.to_set().contains(k) <==> done.drop_last().to_set().contains(k) || k
                        == key by {
                    if done.contains(k) {
                        let j = done.index_of(k);
                        if j < i - 1 {
                            assert(done.drop_last()[j] == k);
                        }
                    }
                    if done.drop_last().contains(k) {
                        let j = done.drop_last().index_of(k);
                        assert(done[j] == k);
                    }
                    assert(done[i - 1] == key);
                }
                assert(slot_values(self.cancel_handles) =~= before.handles.remove_keys(
                    done.to_set(),
                ));
            }
        }
        proof {
            assert(before.completed.take(i as int) =~= before.completed);
        }
        self.completed_tasks = Vec::new();
        assert(self@.completed =~= Seq::empty());
    }

    /// Spawns a task that is cancelled when the scope ends, and says whom to
    /// wake for it.
    pub fn spawn_task<A: TaskAttribution>(
        &mut self,
        runtime: &mut Runtime<A>,
        context: &ThreadContext<A>,
        priority: TaskPriority,
        spawn_location: SpawnLocation,
        sink: &mut A::Sink,
    ) -> (spawned: (JoinHandle, Wake))
        requires
            old(self)@.wf(),
            old(self)@.pending().dom().len() < max_slots(),
            old(runtime).can_start(context, *old(sink)),
        ensures
            final(self)@.wf(),
            final(self)@.scope == old(self)@.scope,
            final(self)@.completed == Seq::<u64>::empty(),
            exists|task_key: u64|
                is_key(task_key) && !old(self)@.pending().contains_key(task_key)
                    && final(self)@.handles == #[trigger] old(self)@.pending().insert(
                    task_key,
                    spawned.0.task(),
                ) && started(
                    *old(runtime),
                    *context,
                    priority,
                    spawn_location,
                    Some(ScopedTaskMetadata { scope: old(self)@.scope, task_key }),
                    *old(sink),
                    spawned.0.task(),
                    spawned.1,
                    *final(runtime),
                    *final(sink),
                ),
    {
        let ghost before = self@;
        self.clear_completed_tasks();
        let task: u64 = runtime.next_task();
        let task_key: u64 = slots_insert(&mut self.cancel_handles, task);
        let (handle, wake) = runtime.spawn_scoped(
            context,
            priority,
            spawn_location,
            ScopedTaskMetadata { scope: self.scope, task_key },
            sink,
        );
        assert(self@.handles == before.pending().insert(task_key, handle.task()));
        (handle, wake)
    }

    /// Ends the scope: every task that has not completed is told to stop.
    /// Returns the tasks that still exist, each of which is to be stopped.
    pub fn destroy<A: Copy>(&mut self, tasks: &mut TaskTable<A>) -> (stopped: Vec<u64>)
        requires
            old(tasks).wf(),
            old(self)@.wf(),
        ensures
            final(tasks).wf(),
            final(self)@ == (TaskScopeView { handles: Map::empty(), ..old(self)@ }),
            all_cancelled(old(tasks)@, old(self)@.handles, final(tasks)@),
            final(tasks).room() == old(tasks).room(),
            forall|task: u64| #[trigger]
                stopped@.contains(task) <==> old(self)@.handles.contains_value(task) && old(
                    tasks,
                )@.contains_key(task),
    {
        let ghost handles = self@.handles;
        let ghost before = tasks@;
        let pairs: Vec<(u64, u64)> = slots_drain(&mut self.cancel_handles);
        assert(self@ =~= (TaskScopeView { handles: Map::empty(), ..old(self)@ }));
        let mut stopped: Vec<u64> = Vec::new();
        let mut i: usize = 0;
        while i < pairs.len()
            invariant
                i <= pairs@.len(),
                tasks.wf(),
                tasks.room() == old(tasks).room(),
                tasks@.dom() == before.dom(),
                lists_slots(handles, pairs@),
                forall|task: u64| #[trigger]
                    before.contains_key(task) ==> tasks@[task] == (if drained(
                        pairs@.take(i as int),
                        task,
                    ) {
                        TaskMetadata { cancelled: true, ..before[task] }
                    } else {
                        before[task]
                    }),
                forall|task: u64| #[trigger]
                    stopped@.contains(task) <==> drained(pairs@.take(i as int), task)
                        && before.contains_key(task),
            decreases pairs@.len() - i,
        {
            let task: u64 = pairs[i].1;
            let ghost sofar = pairs@.take(i as int);
            let ghost stopped_before = stopped@;
            if tasks.cancel(task) {
                stopped.push(task);
            }
            i = i + 1;
            proof {
                let next = pairs@.take(i as int);
                assert forall|t: u64| #[trigger] drained(next, t) <==> drained(sofar, t) || t
                    == task by {
                    if drained(next, t) {
                        let j = choose|j: int| 0 <= j < next.len() && (#[trigger] next[j]).1 == t;
                        if j < i - 1 {
                            assert(sofar[j].1 == t);
                        }
                    }
                    if drained(sofar, t) {
                        let j = choose|j: int| 0 <= j < sofar.len() && (#[trigger] sofar[j]).1 == t;
                        assert(next[j].1 == t);
                    }
                    assert(next[i - 1].1 == task);
                }
                assert(tasks@.dom() =~= before.dom());
                assert forall|t: u64| #[trigger] stopped@.contains(t) <==> drained(next, t)
                    && before.contains_key(t) by {
                    assert(drained(next, t) <==> drained(sofar, t) || t == task);
                    if before.contains_key(task) {
                        assert(stopped@ == stopped_before.push(task));
                        assert(stopped@[stopped_before.len() as int] == task);
                        if stopped_before.contains(t) {
                            let j = stopped_before.index_of(t);
                            assert(stopped@[j] == t);
                        }
                        if stopped@.contains(t) && t != task {
                            let j = stopped@.index_of(t);
                            assert(stopped_before[j] == t);
                        }
                    }
                }
            }
        }
        proof {
            assert(pairs@.take(i as int) =~= pairs@);
            assert forall|task: u64| #[trigger] drained(pairs@, task) <==> handles.contains_value(
                task,
            ) by {
                if drained(pairs@, task) {
                    let j = choose|j: int| 0 <= j < pairs@.len() && (#[trigger] pairs@[j]).1 == task;
                    assert(handles.contains_key(pairs@[j].0) && handles[pairs@[j].0] == task);
                }
                if handles.contains_value(task) {
                    let key = choose|key: u64| handles.contains_key(key) && handles[key] == task;
                    let j = choose|j: int| 0 <= j < pairs@.len() && (#[trigger] pairs@[j]).0 == key;
                    assert(pairs@[j].1 == task);
                }
            }
        }
        stopped
    }
}

/// Whether `task` is among the drained entries.
spec fn drained(pairs: Seq<(u64, u64)>, task: u64) -> bool {
    exists|i: int| 0 <= i < pairs.len() && (#[trigger] pairs[i]).1 == task
}

/// No task outlives its scope unnoticed: a task that the scope holds and that
/// still exists when the scope ends was told to stop.
pub proof fn law_scope_end_cancels_its_tasks<A>(
    scope: TaskScopeView,
    task_key: u64,
    before: Map<u64, TaskMetadata<A>>,
    after: Map<u64, TaskMetadata<A>>,
)
    requires
        scope.handles.contains_key(task_key),
        before.contains_key(scope.handles[task_key]),
        all_cancelled(before, scope.handles, after),
    ensures
        after[scope.handles[task_key]].cancelled,
{
    assert(scope.handles.contains_value(scope.handles[task_key]));
}

/// A task stays with its scope until it is reported as completed: spawning
/// another one forgets only what was reported.
pub proof fn law_scope_keeps_running_tasks(
    before: TaskScopeView,
    task_key: u64,
    new_key: u64,
    new_task: u64,
)
    requires
        before.handles.contains_key(task_key),
        !before.completed.contains(task_key),
        !before.pending().contains_key(new_key),
    ensures
        before.pending().insert(new_key, new_task).contains_key(task_key),
        before.pending().insert(new_key, new_task)[task_key] == before.handles[task_key],
{
    assert(before.pending().contains_key(task_key));
}

/// A task that is spawned in a scope is the scope's to cancel, and knows which
/// scope to tell and under which key. Tasks of the scope that have not completed
/// stay the scope's.
pub proof fn law_scope_owns_what_it_spawns<A: TaskAttribution>(
    scope: &mut TaskScope,
    runtime: &mut Runtime<A>,
    context: &ThreadContext<A>,
    priority: TaskPriority,
    location: SpawnLocation,
    sink: &mut A::Sink,
    spawned: (JoinHandle, Wake),
    key: u64,
)
    requires
        call_ensures(
            TaskScope::spawn_task::<A>,
            (scope, runtime, context, priority, location, sink),
            spawned,
        ),
    ensures
        final(scope)@.scope == old(scope)@.scope,
        final(scope)@.completed.len() == 0,
        final(runtime).tasks@.contains_key(spawned.0.task()),
        final(runtime).tasks@[spawned.0.task()].scoped matches Some(scoped) && scoped.scope == old(scope)@.scope && final(scope)@.handles.contains_key(scoped.task_key) && final(scope)@.handles[scoped.task_key] == spawned.0.task() && (final(scope)@.handles.contains_key(key)
            <==> key == scoped.task_key || (old(scope)@.handles.contains_key(key) && !old(scope)@.completed.contains(key))) && (old(scope)@.handles.contains_key(key) && !old(scope)@.completed.contains(key) ==> final(scope)@.handles[key] == old(scope)@.handles[key]),
        spawned.1 == Wake::AnyRegion,
        !old(runtime).tasks@.contains_key(spawned.0.task()),
        final(runtime).tasks@[spawned.0.task()].priority == priority,
        final(runtime).tasks@[spawned.0.task()].attribution == context.attribution,
        !final(runtime).tasks@[spawned.0.task()].cancelled,
{
    let pending = old(scope)@.pending();
    let task_key = choose|task_key: u64|
        is_key(task_key) && !pending.contains_key(task_key) && final(scope)@.handles
            == #[trigger] pending.insert(task_key, spawned.0.task()) && started(
            *old(runtime),
            *context,
            priority,
            location,
            Some(ScopedTaskMetadata { scope: old(scope)@.scope, task_key }),
            *old(sink),
            spawned.0.task(),
            spawned.1,
            *final(runtime),
            *final(sink),
        );
    assert(final(runtime).tasks@[spawned.0.task()].scoped == Some(
        ScopedTaskMetadata { scope: old(scope)@.scope, task_key },
    ));
    assert(pending.contains_key(key) <==> old(scope)@.handles.contains_key(key) && !old(scope)@.completed.contains(key));
}

/// The end of a scope tells its tasks to stop, all that still exist and no
/// others, and says which.
pub proof fn law_scope_end_stops_its_tasks<A: Copy>(
    scope: &mut TaskScope,
    tasks: &mut TaskTable<A>,
    stopped: Vec<u64>,
    task: u64,
)
    requires
        call_ensures(TaskScope::destroy::<A>, (scope, tasks), stopped),
        old(tasks)@.contains_key(task),
    ensures
        ({
            let owned = exists|key: u64|
                old(scope)@.handles.contains_key(key) && #[trigger] old(scope)@.handles[key]
                    == task;
            &&& final(tasks)@.contains_key(task)
            &&& stopped@.contains(task) <==> owned
            &&& owned ==> final(tasks)@[task].cancelled
            &&& !owned ==> final(tasks)@[task] == old(tasks)@[task]
            &&& final(tasks)@[task].metrics == old(tasks)@[task].metrics
            &&& final(tasks)@[task].attribution == old(tasks)@[task].attribution
            &&& final(tasks)@[task].priority == old(tasks)@[task].priority
        }),
        final(tasks)@.dom() == old(tasks)@.dom(),
        final(scope)@.handles.dom().is_empty(),
{
    if exists|key: u64|
        old(scope)@.handles.contains_key(key) && #[trigger] old(scope)@.handles[key] == task {
        let key = choose|key: u64|
            old(scope)@.handles.contains_key(key) && #[trigger] old(scope)@.handles[key] == task;
        assert(old(scope)@.handles.contains_value(task));
    }
    if old(scope)@.handles.contains_value(task) {
        let key = choose|key: u64|
            old(scope)@.handles.contains_key(key) && old(scope)@.handles[key] == task;
        assert(old(scope)@.handles[key] == task);
    }
    assert(final(scope)@.handles.dom() =~= Set::empty());
}

/// A task that has completed is no longer the scope's once the scope clears up,
/// and every other task still is.
pub proof fn law_scope_forgets_what_completed(
    scope: &mut TaskScope,
    task_key: u64,
    clearing: &mut TaskScope,
    key: u64,
)
    requires
        call_ensures(TaskScope::task_completed, (scope, task_key), ()),
        *old(clearing) == *final(scope),
        call_ensures(TaskScope::clear_completed_tasks, (clearing,), ()),
        old(scope)@.completed.len() == 0,
    ensures
        final(scope)@.handles == old(scope)@.handles,
        final(clearing)@.completed.len() == 0,
        final(clearing)@.handles.contains_key(key) <==> old(scope)@.handles.contains_key(key)
            && key != task_key,
        final(clearing)@.handles.contains_key(key) ==> final(clearing)@.handles[key] == old(scope)@.handles[key],
        final(clearing)@.scope == old(scope)@.scope,
{
    let completed = final(scope)@.completed;
    assert(completed =~= seq![task_key]);
    assert(completed.contains(key) <==> key == task_key) by {
        assert(completed[0] == task_key);
    }
}

} // verus!
