//! Futures that run where they are polled, or as tasks of the executor.

use crate::executor::attribution::{TaskAttribution, ThreadContext};
use crate::executor::scheduler::Wake;
use crate::executor::spawn::{spawn, AbortOnDropHandle, Runtime, SpawnLocation, TaskTable};
use crate::executor::task::TaskPriority;
use vstd::prelude::*;

#[allow(unused_imports)]
use crate::executor::scheduler::ExecutorView;
#[allow(unused_imports)]
use crate::executor::spawn::{started, TaskMetadata};
#[allow(unused_imports)]
use crate::executor::task::TaskMetrics;

verus! {

/// Represents a future that may either be local or spawned.
///
/// `Spawned` carries an optional observer, told on completion so the spawned
/// task's CPU can be attributed to whoever fanned it out.
pub enum LocalOrSpawnedFuture<F, O> {
    Local { fut: F },
    Spawned { handle: AbortOnDropHandle, observer: Option<O> },
}

/// A future handed to the executor: the task that runs it, and whom to wake for it.
pub struct SpawnedFuture<F> {
    pub task: u64,
    pub wake: Wake,
    pub fut: F,
}

impl<F, O> LocalOrSpawnedFuture<F, O> {
    /// The future is local and is `fut`.
    pub open spec fn is_local(self, fut: F) -> bool {
        self == (LocalOrSpawnedFuture::<F, O>::Local { fut })
    }

    /// The future runs as `task`, and `observer` is told when it is done.
    pub open spec fn is_spawned(self, task: u64, observer: Option<O>) -> bool {
        self matches LocalOrSpawnedFuture::Spawned { handle, observer: o } && handle.wf()
            && handle.task() == task && o == observer
    }

    /// The future after a poll that completed it or did not, and whom to tell of
    /// which metrics.
    pub open spec fn after_poll<A>(self, is_ready: bool, tasks: Map<u64, TaskMetadata<A>>) -> (
        Self,
        Option<(O, u64)>,
    ) {
        match self {
            LocalOrSpawnedFuture::Local { fut } => (self, None),
            LocalOrSpawnedFuture::Spawned { handle, observer } => if is_ready {
                (
                    LocalOrSpawnedFuture::Spawned { handle, observer: None },
                    match observer {
                        Some(o) => if tasks.contains_key(handle.task()) {
                            match tasks[handle.task()].metrics {
                                Some(metrics) => Some((o, metrics)),
                                None => None,
                            }
                        } else {
                            None
                        },
                        None => None,
                    },
                )
            } else {
                (self, None)
            },
        }
    }

    /// Wraps the future in a `Local` variant.
    pub fn new_local(fut: F) -> (future: Self)
        ensures
            future.is_local(fut),
    {
        LocalOrSpawnedFuture::Local { fut }
    }

    /// Spawns the future onto the async executor.
    pub fn spawn<A: TaskAttribution>(
        runtime: &mut Runtime<A>,
        context: &ThreadContext<A>,
        task_priority: TaskPriority,
        spawn_location: SpawnLocation,
        sink: &mut A::Sink,
        fut: F,
    ) -> (spawned: (Self, SpawnedFuture<F>))
        requires
            old(runtime).can_start(context, *old(sink)),
        ensures
            spawned.0.is_spawned(spawned.1.task, None),
            spawned.1.fut == fut,
            started(
                *old(runtime),
                *context,
                task_priority,
                spawn_location,
                None,
                *old(sink),
                spawned.1.task,
                spawned.1.wake,
                *final(runtime),
                *final(sink),
            ),
    {
        Self::spawn_observed(runtime, context, task_priority, spawn_location, sink, fut, None)
    }

    /// Spawns the future, reporting its `TaskMetrics` to `observer` once it
    /// completes.
    pub fn spawn_observed<A: TaskAttribution>(
        runtime: &mut Runtime<A>,
        context: &ThreadContext<A>,
        task_priority: TaskPriority,
        spawn_location: SpawnLocation,
        sink: &mut A::Sink,
        fut: F,
        observer: Option<O>,
    ) -> (spawned: (Self, SpawnedFuture<F>))
        requires
            old(runtime).can_start(context, *old(sink)),
        ensures
            spawned.0.is_spawned(spawned.1.task, observer),
            spawned.1.fut == fut,
            started(
                *old(runtime),
                *context,
                task_priority,
                spawn_location,
                None,
                *old(sink),
                spawned.1.task,
                spawned.1.wake,
                *final(runtime),
                *final(sink),
            ),
    {
        let (handle, wake) = spawn(runtime, context, task_priority, spawn_location, sink);
        let task: u64 = handle.id();
        (
            LocalOrSpawnedFuture::Spawned { handle: AbortOnDropHandle::new(handle), observer },
            SpawnedFuture { task, wake, fut },
        )
    }

    /// Takes note of a poll of the future, which completed it or did not.
    /// Returns whom to tell of which metrics, at most once.
    ///
    /// A local future needs nothing: it runs inline, so its CPU is already
    /// inside the calling task's own poll time.
    pub fn polled<A: Copy>(&mut self, is_ready: bool, tasks: &TaskTable<A>) -> (report: Option<
        (O, u64),
    >)
        ensures
            (*final(self), report) == old(self).after_poll(is_ready, tasks@),
    {
        match self {
            LocalOrSpawnedFuture::Local { fut } => None,
            LocalOrSpawnedFuture::Spawned { handle, observer } => {
                if !is_ready {
                    return None;
                }
                let told: Option<O> = observer.take();
                match told {
                    Some(o) => match handle.join_handle().metrics(tasks) {
                        Some(m) => Some((o, m)),
                        None => None,
                    },
                    None => None,
                }
            },
        }
    }
}

/// The sinks after each of the metrics `ids` was credited to `a` in turn.
pub open spec fn credits_all<A: TaskAttribution>(
    a: A,
    before: A::Sink,
    ids: Seq<u64>,
    after: A::Sink,
) -> bool
    decreases ids.len(),
{
    if ids.len() == 0 {
        after == before
    } else {
        exists|middle: A::Sink|
            credits_all(a, before, ids.drop_last(), middle) && #[trigger] a.credits(
                middle,
                ids.last(),
                after,
            )
    }
}

/// The effect of spawning the futures `handed` in turn: each is a new task that
/// waits in the global queue of its priority, all of them in order. Where tasks
/// are measured each has fresh metrics of its own, and those of other tasks
/// stay as they are.
pub open spec fn spawned_in_turn<A: TaskAttribution, F>(
    before: Runtime<A>,
    context: ThreadContext<A>,
    priority: TaskPriority,
    location: SpawnLocation,
    sink_before: A::Sink,
    handed: Seq<SpawnedFuture<F>>,
    after: Runtime<A>,
    sink_after: A::Sink,
) -> bool {
    let tasks = handed.map_values(|h: SpawnedFuture<F>| h.task);
    let ids = tasks.map_values(|t: u64| after.tasks@[t].metrics->0);
    &&& after.wf()
    &&& after.settings == before.settings
    &&& after.tasks.room() + handed.len() == before.tasks.room()
    &&& tasks.no_duplicates()
    &&& after.tasks@.dom() == before.tasks@.dom().union(tasks.to_set())
    &&& forall|t: u64| #[trigger]
        before.tasks@.contains_key(t) ==> after.tasks@[t] == before.tasks@[t] && !tasks.contains(t)
    &&& forall|i: int|
        0 <= i < handed.len() ==> {
            let record = after.tasks@[(#[trigger] handed[i]).task];
            &&& handed[i].wake == Wake::AnyRegion
            &&& (record.metrics is Some) == before.settings.task_metrics
            &&& record == TaskMetadata {
                spawn_location: location,
                priority,
                freshly_spawned: false,
                scoped: None,
                metrics: record.metrics,
                attribution: context.attribution,
                cancelled: false,
            }
        }
    &&& after.executor@ == (if priority == TaskPriority::High {
        ExecutorView {
            high: before.executor@.high + tasks,
            ..before.executor@
        }
    } else {
        ExecutorView {
            low: before.executor@.low + tasks,
            ..before.executor@
        }
    })
    &&& if before.settings.task_metrics {
        &&& after.metrics.room() + handed.len() == before.metrics.room()
        &&& ids.no_duplicates()
        &&& after.metrics@.dom() == before.metrics@.dom().union(ids.to_set())
        &&& forall|id: u64| #[trigger]
            before.metrics@.contains_key(id) ==> after.metrics@[id] == before.metrics@[id]
                && !ids.contains(id)
        &&& forall|id: u64| #[trigger]
            ids.contains(id) ==> after.metrics@[id] == TaskMetrics::zero()
        &&& match context.attribution {
            Some(a) => credits_all(a, sink_before, ids, sink_after) && (handed.len() > 0
                ==> a.can_credit(sink_after)),
            None => sink_after == sink_before,
        }
    } else {
        &&& after.metrics == before.metrics
        &&& sink_after == sink_before
    }
}

/// The futures after the fan-out: the first is local, the others run as the
/// tasks of `handed`, in order.
pub open spec fn fanned_out<F, O>(
    futures: Seq<F>,
    observer: Option<O>,
    fanned: Seq<LocalOrSpawnedFuture<F, O>>,
    handed: Seq<SpawnedFuture<F>>,
) -> bool {
    &&& fanned.len() == futures.len()
    &&& handed.len() == (if futures.len() == 0 {
        0
    } else {
        futures.len() - 1
    })
    &&& futures.len() > 0 ==> fanned[0].is_local(futures[0])
    &&& forall|i: int|
        1 <= i < futures.len() ==> (#[trigger] fanned[i]).is_spawned(handed[i - 1].task, observer)
            && handed[i - 1].fut == futures[i]
}

proof fn lemma_fanned_one_more<F, O>(
    futures: Seq<F>,
    observer: Option<O>,
    fanned: Seq<LocalOrSpawnedFuture<F, O>>,
    handed: Seq<SpawnedFuture<F>>,
    fut: F,
    future: LocalOrSpawnedFuture<F, O>,
    one: SpawnedFuture<F>,
)
    requires
        fanned_out(futures, observer, fanned, handed),
        futures.len() > 0,
        future.is_spawned(one.task, observer),
        one.fut == fut,
    ensures
        fanned_out(futures.push(fut), observer, fanned.push(future), handed.push(one)),
{
    let more = fanned.push(future);
    assert forall|i: int| 1 <= i < futures.push(fut).len() implies (#[trigger] more[i]).is_spawned(
        handed.push(one)[i - 1].task,
        observer,
    ) && handed.push(one)[i - 1].fut == futures.push(fut)[i] by {
        if i < futures.len() {
            assert(fanned[i].is_spawned(handed[i - 1].task, observer));
        }
    }
    assert(more[0] == fanned[0]);
}

proof fn lemma_spawned_one_more<A: TaskAttribution, F>(
    before: Runtime<A>,
    context: ThreadContext<A>,
    priority: TaskPriority,
    location: SpawnLocation,
    sink_before: A::Sink,
    handed: Seq<SpawnedFuture<F>>,
    middle: Runtime<A>,
    sink_middle: A::Sink,
    one: SpawnedFuture<F>,
    after: Runtime<A>,
    sink_after: A::Sink,
)
    requires
        spawned_in_turn(
            before,
            context,
            priority,
            location,
            sink_before,
            handed,
            middle,
            sink_middle,
        ),
        started(
            middle,
            context,
            priority,
            location,
            None,
            sink_middle,
            one.task,
            one.wake,
            after,
            sink_after,
        ),
    ensures
        spawned_in_turn(
            before,
            context,
            priority,
            location,
            sink_before,
            handed.push(one),
            after,
            sink_after,
        ),
{
    let tasks0 = handed.map_values(|h: SpawnedFuture<F>| h.task);
    let tasks = handed.push(one).map_values(|h: SpawnedFuture<F>| h.task);
    assert(tasks =~= tasks0.push(one.task));
    assert(!middle.tasks@.contains_key(one.task));
    assert forall|i: int| 0 <= i < handed.len() implies middle.tasks@.contains_key(
        (#[trigger] handed[i]).task,
    ) && handed[i].task != one.task by {
        assert(tasks0[i] == handed[i].task);
        assert(tasks0.to_set().contains(handed[i].task));
        assert(middle.tasks@.dom().contains(handed[i].task));
    }
    assert(tasks.no_duplicates()) by {
        assert forall|i: int, j: int| 0 <= i < tasks.len() && 0 <= j < tasks.len() && i != j implies tasks[i]
            != tasks[j] by {
            if i < handed.len() {
                assert(handed[i].task != one.task);
            }
            if j < handed.len() {
                assert(handed[j].task != one.task);
            }
        }
    }
    assert(tasks.to_set() =~= tasks0.to_set().insert(one.task)) by {
        assert forall|t: u64| tasks.contains(t) <==> tasks0.contains(t) || t == one.task by {
            if tasks0.contains(t) {
                let i = tasks0.index_of(t);
                assert(tasks[i] == t);
            }
            if tasks.contains(t) && t != one.task {
                let i = tasks.index_of(t);
                assert(tasks0[i] == t);
            }
            assert(tasks[handed.len() as int] == one.task);
        }
    }
    assert(after.tasks@.dom() =~= before.tasks@.dom().union(tasks.to_set()));
    assert forall|t: u64| #[trigger] before.tasks@.contains_key(t) implies after.tasks@[t]
        == before.tasks@[t] && !tasks.contains(t) by {
        assert(middle.tasks@.dom().contains(t));
        assert(tasks.contains(t) ==> tasks.to_set().contains(t));
        assert(tasks0.contains(t) ==> tasks0.to_set().contains(t));
    }
    assert forall|i: int| 0 <= i < handed.push(one).len() implies {
        let record = after.tasks@[(#[trigger] handed.push(one)[i]).task];
        &&& handed.push(one)[i].wake == Wake::AnyRegion
        &&& (record.metrics is Some) == before.settings.task_metrics
        &&& record == TaskMetadata {
            spawn_location: location,
            priority,
            freshly_spawned: false,
            scoped: None,
            metrics: record.metrics,
            attribution: context.attribution,
            cancelled: false,
        }
    } by {
        if i < handed.len() {
            assert(handed.push(one)[i] == handed[i]);
            assert(handed[i].task != one.task);
        }
    }
    if priority == TaskPriority::High {
        assert(after.executor@.high =~= before.executor@.high + tasks);
        assert(after.executor@ == ExecutorView {
            high: before.executor@.high + tasks,
            ..before.executor@
        });
    } else {
        assert(after.executor@.low =~= before.executor@.low + tasks);
        assert(after.executor@ == ExecutorView {
            low: before.executor@.low + tasks,
            ..before.executor@
        });
    }
    let ids0 = tasks0.map_values(|t: u64| middle.tasks@[t].metrics->0);
    let ids = tasks.map_values(|t: u64| after.tasks@[t].metrics->0);
    assert(ids.drop_last() =~= ids0) by {
        assert forall|i: int| 0 <= i < ids0.len() implies ids.drop_last()[i] == ids0[i] by {
            assert(handed[i].task != one.task);
        }
    }
    if before.settings.task_metrics {
        let id = after.tasks@[one.task].metrics->0;
        assert(ids =~= ids0.push(id));
        assert(!middle.metrics@.contains_key(id));
        assert(!ids0.contains(id)) by {
            if ids0.contains(id) {
                assert(ids0.to_set().contains(id));
                assert(middle.metrics@.dom().contains(id));
            }
        }
        assert(ids.no_duplicates()) by {
            assert forall|i: int, j: int|
                0 <= i < ids.len() && 0 <= j < ids.len() && i != j implies ids[i] != ids[j] by {
                if i < ids0.len() {
                    assert(ids0.contains(ids0[i]));
                }
                if j < ids0.len() {
                    assert(ids0.contains(ids0[j]));
                }
            }
        }
        assert forall|x: u64| ids.contains(x) <==> ids0.contains(x) || x == id by {
            if ids0.contains(x) {
                let i = ids0.index_of(x);
                assert(ids[i] == x);
            }
            if ids.contains(x) && x != id {
                let i = ids.index_of(x);
                assert(ids0[i] == x);
            }
            assert(ids[ids0.len() as int] == id);
        }
        assert(ids.to_set() =~= ids0.to_set().insert(id));
        assert(after.metrics@.dom() =~= before.metrics@.dom().union(ids.to_set()));
        assert forall|x: u64| #[trigger] before.metrics@.contains_key(x) implies after.metrics@[x]
            == before.metrics@[x] && !ids.contains(x) by {
            assert(middle.metrics@.dom().contains(x));
        }
        assert forall|x: u64| #[trigger] ids.contains(x) implies after.metrics@[x]
            == TaskMetrics::zero() by {
            if x != id {
                assert(ids0.contains(x));
            }
        }
    }
    if let Some(a) = context.attribution {
        if before.settings.task_metrics {
            assert(credits_all(a, sink_before, ids.drop_last(), sink_middle));
            assert(a.credits(sink_middle, ids.last(), sink_after));
            assert(credits_all(a, sink_before, ids, sink_after));
        }
    }
}

proof fn lemma_spawned_none<A: TaskAttribution, F>(
    before: Runtime<A>,
    context: ThreadContext<A>,
    priority: TaskPriority,
    location: SpawnLocation,
    sink: A::Sink,
)
    requires
        before.wf(),
    ensures
        spawned_in_turn(
            before,
            context,
            priority,
            location,
            sink,
            Seq::<SpawnedFuture<F>>::empty(),
            before,
            sink,
        ),
{
    let handed = Seq::<SpawnedFuture<F>>::empty();
    let tasks = handed.map_values(|h: SpawnedFuture<F>| h.task);
    let ids = tasks.map_values(|t: u64| before.tasks@[t].metrics->0);
    assert(before.tasks@.dom().union(tasks.to_set()) =~= before.tasks@.dom());
    assert(before.metrics@.dom().union(ids.to_set()) =~= before.metrics@.dom());
    assert(before.executor@.high + tasks =~= before.executor@.high);
    assert(before.executor@.low + tasks =~= before.executor@.low);
    if let Some(a) = context.attribution {
        assert(credits_all(a, sink, ids, sink));
    }
}

/// Parallelizes futures across the computational async runtime.
///
/// As an optimization for cache access, the first future is kept on the current
/// thread. If there is only 1 future, then nothing is spawned at all. The other
/// futures are handed to the executor, all of them up front.
///
/// Note this means the first of the returned futures does not run until polled.
pub fn parallelize_first_to_local<A: TaskAttribution, F>(
    runtime: &mut Runtime<A>,
    context: &ThreadContext<A>,
    task_priority: TaskPriority,
    spawn_location: SpawnLocation,
    sink: &mut A::Sink,
    futures: Vec<F>,
) -> (fanned: (Vec<LocalOrSpawnedFuture<F, u64>>, Vec<SpawnedFuture<F>>))
    requires
        can_fan_out(*old(runtime), *context, *old(sink), futures@.len()),
    ensures
        fanned_out(futures@, None, fanned.0@, fanned.1@),
        spawned_in_turn(
            *old(runtime),
            *context,
            task_priority,
            spawn_location,
            *old(sink),
            fanned.1@,
            *final(runtime),
            *final(sink),
        ),
{
    parallelize_first_to_local_impl(
        runtime,
        context,
        task_priority,
        spawn_location,
        sink,
        futures,
        None,
    )
}

/// As [`parallelize_first_to_local`], but each *spawned* future reports its
/// `TaskMetrics` to `observer` on completion.
///
/// Without this the fan-out is invisible to the caller's own accounting: the
/// first future runs inline and lands in the caller's poll time, while the rest
/// become detached tasks that nothing collects.
pub fn parallelize_first_to_local_observed<A: TaskAttribution, F, O: Copy>(
    runtime: &mut Runtime<A>,
    context: &ThreadContext<A>,
    task_priority: TaskPriority,
    spawn_location: SpawnLocation,
    sink: &mut A::Sink,
    futures: Vec<F>,
    observer: Option<O>,
) -> (fanned: (Vec<LocalOrSpawnedFuture<F, O>>, Vec<SpawnedFuture<F>>))
    requires
        can_fan_out(*old(runtime), *context, *old(sink), futures@.len()),
    ensures
        fanned_out(futures@, observer, fanned.0@, fanned.1@),
        spawned_in_turn(
            *old(runtime),
            *context,
            task_priority,
            spawn_location,
            *old(sink),
            fanned.1@,
            *final(runtime),
            *final(sink),
        ),
{
    parallelize_first_to_local_impl(
        runtime,
        context,
        task_priority,
        spawn_location,
        sink,
        futures,
        observer,
    )
}

/// Whether `n` futures can be fanned out: there are numbers left for the tasks
/// of all but one and for their metrics, if they are measured, and the
/// attribution can be told.
pub open spec fn can_fan_out<A: TaskAttribution>(
    runtime: Runtime<A>,
    context: ThreadContext<A>,
    sink: A::Sink,
    n: nat,
) -> bool {
    &&& runtime.wf()
    &&& runtime.tasks.room() + 1 >= n
    &&& runtime.settings.task_metrics ==> runtime.metrics.room() + 1 >= n
    &&& runtime.settings.task_metrics ==> (context.attribution matches Some(a) ==> a.can_credit(
        sink,
    ))
}

fn parallelize_first_to_local_impl<A: TaskAttribution, F, O: Copy>(
    runtime: &mut Runtime<A>,
    context: &ThreadContext<A>,
    task_priority: TaskPriority,
    spawn_location: SpawnLocation,
    sink: &mut A::Sink,
    futures: Vec<F>,
    observer: Option<O>,
) -> (fanned: (Vec<LocalOrSpawnedFuture<F, O>>, Vec<SpawnedFuture<F>>))
    requires
        can_fan_out(*old(runtime), *context, *old(sink), futures@.len()),
    ensures
        fanned_out(futures@, observer, fanned.0@, fanned.1@),
        spawned_in_turn(
            *old(runtime),
            *context,
            task_priority,
            spawn_location,
            *old(sink),
            fanned.1@,
            *final(runtime),
            *final(sink),
        ),
{
    let ghost all = futures@;
    let ghost start = *runtime;
    let ghost sink_start = *sink;
    let mut fanned: Vec<LocalOrSpawnedFuture<F, O>> = Vec::with_capacity(futures.len());
    let mut handed: Vec<SpawnedFuture<F>> = Vec::new();
    proof {
        lemma_spawned_none::<A, F>(start, *context, task_priority, spawn_location, sink_start);
        assert(handed@ =~= Seq::<SpawnedFuture<F>>::empty());
    }
    for fut in it: futures.into_iter()
        invariant
            it.seq() == all,
            fanned_out(all.take(it.index()), observer, fanned@, handed@),
            spawned_in_turn(
                start,
                *context,
                task_priority,
                spawn_location,
                sink_start,
                handed@,
                *runtime,
                *sink,
            ),
            runtime.tasks.room() + handed@.len() + 1 >= all.len(),
            runtime.settings.task_metrics ==> runtime.metrics.room() + handed@.len() + 1
                >= all.len(),
            runtime.settings.task_metrics ==> (context.attribution matches Some(a) ==> a.can_credit(
                *sink,
            )),
    {
        let ghost n = it.index();
        let ghost fanned_before = fanned@;
        let ghost handed_before = handed@;
        assert(all.take(n + 1) =~= all.take(n).push(fut));
        if fanned.len() == 0 {
            // The local future comes first, so that nothing blocks polling it.
            fanned.push(LocalOrSpawnedFuture::new_local(fut));
            assert(fanned_out(all.take(n + 1), observer, fanned@, handed@));
        } else {
            let ghost middle = *runtime;
            let ghost sink_middle = *sink;
            let (future, spawned) = LocalOrSpawnedFuture::spawn_observed(
                runtime,
                context,
                task_priority,
                spawn_location,
                sink,
                fut,
                observer,
            );
            fanned.push(future);
            proof {
                lemma_spawned_one_more(
                    start,
                    *context,
                    task_priority,
                    spawn_location,
                    sink_start,
                    handed_before,
                    middle,
                    sink_middle,
                    spawned,
                    *runtime,
                    *sink,
                );
            }
            handed.push(spawned);
            proof {
                lemma_fanned_one_more(
                    all.take(n),
                    observer,
                    fanned_before,
                    handed_before,
                    fut,
                    fanned@.last(),
                    handed@.last(),
                );
                assert(fanned@ =~= fanned_before.push(fanned@.last()));
                assert(handed@ =~= handed_before.push(handed@.last()));
            }
        }
    }
    assert(all.take(all.len() as int) =~= all);
    (fanned, handed)
}

/// An observer is told at most once: a future that has completed reports nothing
/// more, however often it is polled.
pub proof fn law_observer_is_told_once<F, O, A>(
    future: LocalOrSpawnedFuture<F, O>,
    tasks: Map<u64, TaskMetadata<A>>,
    is_ready: bool,
    later: Map<u64, TaskMetadata<A>>,
)
    ensures
        future.after_poll(true, tasks).0.after_poll(is_ready, later).1 is None,
        future.after_poll(false, tasks).1 is None,
{
}

/// A single future is not spawned: nothing is handed to the executor, and
/// nothing changes there.
pub proof fn law_single_future_is_not_spawned<A: TaskAttribution, F, O>(
    before: Runtime<A>,
    context: ThreadContext<A>,
    priority: TaskPriority,
    location: SpawnLocation,
    sink_before: A::Sink,
    futures: Seq<F>,
    observer: Option<O>,
    fanned: Seq<LocalOrSpawnedFuture<F, O>>,
    handed: Seq<SpawnedFuture<F>>,
    after: Runtime<A>,
    sink_after: A::Sink,
)
    requires
        futures.len() <= 1,
        fanned_out(futures, observer, fanned, handed),
        spawned_in_turn(
            before,
            context,
            priority,
            location,
            sink_before,
            handed,
            after,
            sink_after,
        ),
    ensures
        handed.len() == 0,
        after.tasks@ == before.tasks@,
        after.tasks.room() == before.tasks.room(),
        after.metrics@ == before.metrics@,
        before.settings.task_metrics ==> after.metrics.room() == before.metrics.room(),
        !before.settings.task_metrics ==> after.metrics == before.metrics,
        after.executor@ == before.executor@,
        sink_after == sink_before,
{
    let tasks = handed.map_values(|h: SpawnedFuture<F>| h.task);
    assert(tasks.to_set() =~= Set::empty());
    assert(after.tasks@ =~= before.tasks@);
    let ids = tasks.map_values(|t: u64| after.tasks@[t].metrics->0);
    assert(ids.to_set() =~= Set::empty());
    assert(after.metrics@ =~= before.metrics@);
    assert(before.executor@.high + tasks =~= before.executor@.high);
    assert(before.executor@.low + tasks =~= before.executor@.low);
}

/// A fan-out loses no future and mixes none up: each is in its place, run where
/// it is polled or by the task that was handed it.
pub proof fn law_fan_out_keeps_every_future<F, O>(
    futures: Seq<F>,
    observer: Option<O>,
    fanned: Seq<LocalOrSpawnedFuture<F, O>>,
    handed: Seq<SpawnedFuture<F>>,
    i: int,
)
    requires
        fanned_out(futures, observer, fanned, handed),
        0 <= i < futures.len(),
    ensures
        i == 0 ==> fanned[i].is_local(futures[i]),
        i > 0 ==> exists|j: int|
            0 <= j < handed.len() && (#[trigger] handed[j]).fut == futures[i]
                && fanned[i].is_spawned(handed[j].task, observer),
{
    if i > 0 {
        assert(fanned[i].is_spawned(handed[i - 1].task, observer));
    }
}

/// A fan-out keeps the first future where it is and hands the others to the
/// executor, each once and in order. What it returns stands for the futures in
/// their order, and each that was handed out reports to the observer.
pub proof fn law_first_future_stays_and_the_rest_are_spawned<A: TaskAttribution, F, O: Copy>(
    runtime: &mut Runtime<A>,
    context: &ThreadContext<A>,
    priority: TaskPriority,
    location: SpawnLocation,
    sink: &mut A::Sink,
    futures: Vec<F>,
    observer: Option<O>,
    fanned: (Vec<LocalOrSpawnedFuture<F, O>>, Vec<SpawnedFuture<F>>),
    i: int,
)
    requires
        call_ensures(
            parallelize_first_to_local_observed::<A, F, O>,
            (runtime, context, priority, location, sink, futures, observer),
            fanned,
        ),
        0 <= i < futures@.len(),
    ensures
        fanned.0@.len() == futures@.len(),
        fanned.1@.len() == futures@.len() - 1,
        fanned.0@[0] == (LocalOrSpawnedFuture::<F, O>::Local { fut: futures@[0] }),
        i > 0 ==> {
            let handed = fanned.1@[i - 1];
            &&& handed.fut == futures@[i]
            &&& handed.wake == Wake::AnyRegion
            &&& fanned.0@[i] matches LocalOrSpawnedFuture::Spawned { handle, observer: told }
                && handle.task() == handed.task && told == observer
            &&& !old(runtime).tasks@.contains_key(handed.task)
            &&& final(runtime).tasks@.contains_key(handed.task)
            &&& final(runtime).tasks@[handed.task].priority == priority
            &&& final(runtime).tasks@[handed.task].attribution == context.attribution
            &&& !final(runtime).tasks@[handed.task].cancelled
            &&& final(runtime).tasks@[handed.task].metrics is Some
                <==> old(runtime).settings.task_metrics
            &&& final(runtime).tasks@[handed.task].metrics matches Some(id) ==> final(runtime).metrics@.contains_key(id) && !old(runtime).metrics@.contains_key(id) && final(runtime).metrics@[id].total_polls == 0 && !final(runtime).metrics@[id].done
            &&& priority == TaskPriority::High ==> final(runtime).executor@.high[old(runtime).executor@.high.len() + i - 1] == handed.task
            &&& priority == TaskPriority::Low ==> final(runtime).executor@.low[old(runtime).executor@.low.len() + i - 1] == handed.task
        },
        final(runtime).executor@.lists == old(runtime).executor@.lists,
        final(runtime).executor@.high.len() + final(runtime).executor@.low.len() == old(runtime).executor@.high.len() + old(runtime).executor@.low.len() + futures@.len() - 1,
{
    let handed = fanned.1@;
    let tasks = handed.map_values(|h: SpawnedFuture<F>| h.task);
    let ids = tasks.map_values(|t: u64| final(runtime).tasks@[t].metrics->0);
    if i > 0 {
        assert(fanned.0@[i].is_spawned(handed[i - 1].task, observer));
        let task = handed[i - 1].task;
        assert(tasks[i - 1] == task);
        assert(tasks.to_set().contains(task));
        assert(final(runtime).tasks@.dom().contains(task));
        if old(runtime).tasks@.contains_key(task) {
            assert(!tasks.contains(task));
        }
        if old(runtime).settings.task_metrics {
            let id = final(runtime).tasks@[task].metrics->0;
            assert(ids[i - 1] == id);
            assert(ids.contains(id));
            assert(ids.to_set().contains(id));
            assert(final(runtime).metrics@.dom().contains(id));
            if old(runtime).metrics@.contains_key(id) {
                assert(!ids.contains(id));
            }
        }
    }
}

/// A fan-out without observer does the same, and nobody is told.
pub proof fn law_fan_out_without_observer_tells_nobody<A: TaskAttribution, F>(
    runtime: &mut Runtime<A>,
    context: &ThreadContext<A>,
    priority: TaskPriority,
    location: SpawnLocation,
    sink: &mut A::Sink,
    futures: Vec<F>,
    fanned: (Vec<LocalOrSpawnedFuture<F, u64>>, Vec<SpawnedFuture<F>>),
    i: int,
)
    requires
        call_ensures(
            parallelize_first_to_local::<A, F>,
            (runtime, context, priority, location, sink, futures),
            fanned,
        ),
        0 <= i < futures@.len(),
    ensures
        fanned.0@.len() == futures@.len(),
        fanned.1@.len() == futures@.len() - 1,
        fanned.0@[0] == (LocalOrSpawnedFuture::<F, u64>::Local { fut: futures@[0] }),
        i > 0 ==> {
            let handed = fanned.1@[i - 1];
            &&& handed.fut == futures@[i]
            &&& fanned.0@[i] matches LocalOrSpawnedFuture::Spawned { handle, observer }
                && handle.task() == handed.task && observer is None
            &&& final(runtime).tasks@[handed.task].priority == priority
            &&& final(runtime).tasks@[handed.task].attribution == context.attribution
        },
{
    if i > 0 {
        assert(fanned.0@[i].is_spawned(fanned.1@[i - 1].task, None));
        assert(fanned.1@[i - 1].wake == Wake::AnyRegion);
    }
}

/// A spawned future reports the metrics of its task to its observer when it is
/// done, and only then. One that runs inline has nothing to report.
pub proof fn law_future_reports_when_it_is_done<F, O, A: Copy>(
    future: &mut LocalOrSpawnedFuture<F, O>,
    is_ready: bool,
    tasks: &TaskTable<A>,
    report: Option<(O, u64)>,
    again: &mut LocalOrSpawnedFuture<F, O>,
    ready_again: bool,
    later: &TaskTable<A>,
    second: Option<(O, u64)>,
)
    requires
        call_ensures(LocalOrSpawnedFuture::<F, O>::polled::<A>, (future, is_ready, tasks), report),
        *old(again) == *final(future),
        call_ensures(
            LocalOrSpawnedFuture::<F, O>::polled::<A>,
            (again, ready_again, later),
            second,
        ),
    ensures
        !is_ready ==> report is None && *final(future) == *old(future),
        is_ready ==> second is None,
        *old(future) is Local ==> report is None,
        is_ready && *old(future) is Spawned && old(future)->observer is Some ==> {
            let task = old(future)->handle.task();
            report == (if tasks@.contains_key(task) && tasks@[task].metrics is Some {
                Some((old(future)->observer->0, tasks@[task].metrics->0))
            } else {
                None
            })
        },
        *old(future) is Spawned && old(future)->observer is None ==> report is None,
{
}

} // verus!
