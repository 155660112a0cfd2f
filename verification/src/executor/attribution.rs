//! Who is credited for the tasks that a thread spawns.

use crate::executor::task::TaskMetricsTable;
use vstd::prelude::*;

verus! {

/// Receives the metrics of every task spawned on this attribution's behalf.
///
/// The executor is shared by every query in the process, so an implementor has
/// to identify both the query and the node within it; a bare node key is not
/// enough.
pub trait TaskAttribution: Copy {
    /// Where the metrics are credited.
    type Sink;

    /// Whether `sink` can take a task's metrics.
    spec fn can_credit(self, sink: Self::Sink) -> bool;

    /// The effect of crediting the metrics numbered `metrics`.
    spec fn credits(self, before: Self::Sink, metrics: u64, after: Self::Sink) -> bool;

    /// Called once per spawn, before the task is first polled.
    ///
    /// The metrics are live and keep updating, so the implementor holds their
    /// number and reads them later rather than reading them here.
    fn task_spawned(&self, metrics: u64, sink: &mut Self::Sink)
        requires
            self.can_credit(*old(sink)),
        ensures
            self.credits(*old(sink), metrics, *final(sink)),
            self.can_credit(*final(sink)),
    ;

    /// Whether poll sessions can be opened and ended in `sink`.
    spec fn can_time(self, sink: Self::Sink) -> bool;

    /// The effect of opening a poll session at `now`.
    spec fn opens(self, before: Self::Sink, now: u64, opened: bool, after: Self::Sink) -> bool;

    /// Opens a session for the duration of one poll, and says whether it did.
    ///
    /// Summing poll time counts eight threads polling for a millisecond as
    /// eight milliseconds -- right for cost, wrong for duration. Unioning the
    /// sessions instead gives the one millisecond they occupied.
    fn poll_session(&self, now: u64, sink: &mut Self::Sink) -> (opened: bool)
        requires
            self.can_time(*old(sink)),
        ensures
            self.can_time(*final(sink)),
            self.opens(*old(sink), now, opened, *final(sink)),
    ;

    /// The effect of ending a poll session at `now`.
    spec fn closes(self, before: Self::Sink, now: u64, after: Self::Sink) -> bool;

    /// Ends a session that [`TaskAttribution::poll_session`] opened.
    fn end_poll_session(&self, now: u64, sink: &mut Self::Sink)
        requires
            self.can_time(*old(sink)),
        ensures
            self.can_time(*final(sink)),
            self.closes(*old(sink), now, *final(sink)),
    ;
}

/// What a thread knows of itself.
pub struct ThreadContext<A> {
    /// Which executor thread this is, if it schedules tasks.
    pub thread_id: Option<usize>,
    /// In which NUMA region this executor thread is supposed to run.
    pub numa_region: Option<usize>,
    /// Who to credit for tasks spawned from this thread right now.
    ///
    /// Set around a task's poll to that task's own attribution, so a task
    /// spawned from inside another task inherits it, transitively and without
    /// the spawning code having to know about metrics.
    pub attribution: Option<A>,
    /// Whether work may be handed to the thread pool from this thread.
    pub allow_rayon_threads: bool,
    /// Whether the executor made this thread.
    pub spawned_by_polars_executor: bool,
}

impl<A> ThreadContext<A> {
    /// The context of a thread that the executor knows nothing of.
    pub fn new() -> (context: ThreadContext<A>)
        ensures
            context == (ThreadContext::<A> {
                thread_id: None,
                numa_region: None,
                attribution: None,
                allow_rayon_threads: true,
                spawned_by_polars_executor: false,
            }),
    {
        ThreadContext {
            thread_id: None,
            numa_region: None,
            attribution: None,
            allow_rayon_threads: true,
            spawned_by_polars_executor: false,
        }
    }

    /// Makes this thread a runner in a NUMA region, with or without an identity.
    pub fn become_runner(&mut self, initial_thread_id: Option<usize>, numa_region: usize)
        ensures
            *final(self) == (ThreadContext {
                thread_id: initial_thread_id,
                numa_region: Some(numa_region),
                attribution: old(self).attribution,
                allow_rayon_threads: false,
                spawned_by_polars_executor: true,
            }),
    {
        self.thread_id = initial_thread_id;
        self.numa_region = Some(numa_region);
        self.allow_rayon_threads = false;
        self.spawned_by_polars_executor = true;
    }
}

/// Returns whether this thread is actively used for scheduling tasks.
pub fn is_scheduling_polars_executor_thread<A>(context: &ThreadContext<A>) -> (scheduling: bool)
    ensures
        scheduling == (context.thread_id is Some),
{
    context.thread_id.is_some()
}

/// What is measured.
#[derive(Clone, Copy, Debug, PartialEq, Eq, Structural)]
pub struct TrackingSettings {
    /// Whether tasks and workers are measured at all.
    pub task_metrics: bool,
    /// Whether each poll is also measured on the thread CPU clock.
    pub poll_cpu_time: bool,
}

impl Default for TrackingSettings {
    fn default() -> (settings: Self)
        ensures
            !settings.task_metrics,
            !settings.poll_cpu_time,
    {
        TrackingSettings { task_metrics: false, poll_cpu_time: false }
    }
}

pub fn track_task_metrics(settings: &mut TrackingSettings, should_track: bool)
    ensures
        *final(settings) == (TrackingSettings { task_metrics: should_track, ..*old(settings) }),
{
    settings.task_metrics = should_track;
}

/// Also measure each poll on the thread CPU clock, not only the wall clock.
///
/// Poll wall time counts time the thread was descheduled, so under
/// oversubscription it can exceed the CPU the process actually used. The CPU
/// clock does not, at the cost of an extra clock reading per poll, which is why
/// it is opt-in. Requires task metrics, and reports nothing on Windows, whose
/// thread clock is too coarse for a poll.
pub fn track_poll_cpu_time(settings: &mut TrackingSettings, should_track: bool)
    ensures
        *final(settings) == (TrackingSettings { poll_cpu_time: should_track, ..*old(settings) }),
{
    settings.poll_cpu_time = should_track;
}

/// The attribution that a scope replaced, to be restored at its end.
#[must_use]
pub struct AttributionGuard<A>(Option<A>);

impl<A> AttributionGuard<A> {
    /// The attribution that the guard restores.
    pub closed spec fn previous(self) -> Option<A> {
        self.0
    }

    /// Restores the previous attribution.
    pub fn restore(self, context: &mut ThreadContext<A>)
        ensures
            *final(context) == (ThreadContext { attribution: self.previous(), ..*old(context) }),
    {
        context.attribution = self.0;
    }
}

/// Credits tasks spawned from this thread to `attribution` until the guard
/// restores the previous one.
pub fn scoped_task_attribution<A>(context: &mut ThreadContext<A>, attribution: Option<A>) -> (guard:
    AttributionGuard<A>)
    ensures
        guard.previous() == old(context).attribution,
        *final(context) == (ThreadContext { attribution, ..*old(context) }),
{
    let mut previous: Option<A> = attribution;
    std::mem::swap(&mut previous, &mut context.attribution);
    AttributionGuard(previous)
}

/// The attribution that a task spawned from this thread inherits.
pub fn current_task_attribution<A: Copy>(context: &ThreadContext<A>) -> (attribution: Option<A>)
    ensures
        attribution == context.attribution,
{
    context.attribution
}

/// A future that runs elsewhere under the attribution of the place that made it.
pub struct AttributedFuture<A, F> {
    pub attribution: Option<A>,
    pub fut: F,
}

/// Carries the current attribution into a future that will run elsewhere.
///
/// Inheritance rides the context of a thread that only this executor's runner
/// sets, so it does not survive a hop onto another runtime. This captures the
/// attribution while it is still in scope, to be reinstalled around each poll.
pub fn with_current_attribution<A: Copy, F>(context: &ThreadContext<A>, fut: F) -> (attributed:
    AttributedFuture<A, F>)
    ensures
        attributed.attribution == context.attribution,
        attributed.fut == fut,
{
    AttributedFuture { attribution: current_task_attribution(context), fut }
}

impl<A: Copy, F> AttributedFuture<A, F> {
    /// Installs the captured attribution for one poll.
    pub fn enter(&self, context: &mut ThreadContext<A>) -> (guard: AttributionGuard<A>)
        ensures
            guard.previous() == old(context).attribution,
            *final(context) == (ThreadContext { attribution: self.attribution, ..*old(context) }),
    {
        scoped_task_attribution(context, self.attribution)
    }
}

/// Metrics for a task about to be spawned, registered with its attribution.
pub fn new_task_metrics<A: TaskAttribution>(
    settings: TrackingSettings,
    attribution: Option<A>,
    table: &mut TaskMetricsTable,
    sink: &mut A::Sink,
) -> (metrics: Option<u64>)
    requires
        old(table).wf(),
        settings.task_metrics ==> old(table).room() > 0,
        settings.task_metrics ==> (attribution matches Some(a) ==> a.can_credit(*old(sink))),
    ensures
        final(table).wf(),
        !settings.task_metrics ==> metrics is None && *final(table) == *old(table) && *final(sink)
            == *old(sink),
        settings.task_metrics ==> metrics is Some && old(table).registers(
            metrics->0,
            *final(table),
        ) && match attribution {
            Some(a) => a.credits(*old(sink), metrics->0, *final(sink)) && a.can_credit(*final(sink)),
            None => *final(sink) == *old(sink),
        },
{
    if !settings.task_metrics {
        return None;
    }
    let id: u64 = table.register();
    if let Some(attribution) = attribution {
        attribution.task_spawned(id, sink);
    }
    Some(id)
}

/// Restoring undoes a scope: whatever attribution a scope installs, afterwards
/// the thread's context is what it was before.
pub proof fn law_scope_restores_attribution<A>(
    before: ThreadContext<A>,
    attribution: Option<A>,
    during: ThreadContext<A>,
    guard: AttributionGuard<A>,
    after: ThreadContext<A>,
)
    requires
        guard.previous() == before.attribution,
        during == (ThreadContext { attribution, ..before }),
        after == (ThreadContext { attribution: guard.previous(), ..during }),
    ensures
        after == before,
{
}

/// An attribution survives a hop onto another thread: a future that captured it
/// installs it there, whatever that thread's own was. After the poll the thread
/// has its own again, whatever the poll installed meanwhile.
pub proof fn law_attribution_survives_a_hop<A, F>(
    origin: ThreadContext<A>,
    attributed: AttributedFuture<A, F>,
    elsewhere: ThreadContext<A>,
    guard: AttributionGuard<A>,
    entered: ThreadContext<A>,
    polled: ThreadContext<A>,
    after: ThreadContext<A>,
)
    requires
        attributed.attribution == origin.attribution,
        guard.previous() == elsewhere.attribution,
        entered == (ThreadContext { attribution: attributed.attribution, ..elsewhere }),
        after == (ThreadContext { attribution: guard.previous(), ..polled }),
    ensures
        entered.attribution == origin.attribution,
        entered == (ThreadContext { attribution: origin.attribution, ..elsewhere }),
        after.attribution == elsewhere.attribution,
        polled == entered ==> after == elsewhere,
{
}

/// A scope is undone when its guard restores: whatever attribution it installed
/// meanwhile, the thread's context is what it was before.
pub proof fn law_scope_is_undone<A>(
    context: &mut ThreadContext<A>,
    attribution: Option<A>,
    guard: AttributionGuard<A>,
    later: &mut ThreadContext<A>,
    current: Option<A>,
)
    requires
        call_ensures(scoped_task_attribution::<A>, (context, attribution), guard),
        *old(later) == *final(context),
        call_ensures(AttributionGuard::<A>::restore, (guard, later), ()),
    ensures
        final(context).attribution == attribution,
        final(context).thread_id == old(context).thread_id,
        final(context).numa_region == old(context).numa_region,
        *final(later) == *old(context),
{
}

/// What a future captures where it is made is what counts where it is polled,
/// and after the poll the other thread has its own attribution back.
pub proof fn law_captured_attribution_counts_elsewhere<A: Copy, F>(
    origin: &ThreadContext<A>,
    fut: F,
    attributed: AttributedFuture<A, F>,
    elsewhere: &mut ThreadContext<A>,
    guard: AttributionGuard<A>,
    later: &mut ThreadContext<A>,
)
    requires
        call_ensures(with_current_attribution::<A, F>, (origin, fut), attributed),
        call_ensures(AttributedFuture::<A, F>::enter, (&attributed, elsewhere), guard),
        *old(later) == *final(elsewhere),
        call_ensures(AttributionGuard::<A>::restore, (guard, later), ()),
    ensures
        attributed.fut == fut,
        final(elsewhere).attribution == origin.attribution,
        *final(later) == *old(elsewhere),
{
}

/// What is spawned from a thread inherits the thread's attribution.
pub proof fn law_current_attribution_is_the_threads<A: Copy>(
    context: &ThreadContext<A>,
    attribution: Option<A>,
    scheduling: bool,
)
    requires
        call_ensures(current_task_attribution::<A>, (context,), attribution),
        call_ensures(is_scheduling_polars_executor_thread::<A>, (context,), scheduling),
    ensures
        attribution == context.attribution,
        scheduling <==> context.thread_id is Some,
{
}

/// The two settings are independent: changing one leaves the other.
pub proof fn law_settings_are_independent(
    metrics: &mut TrackingSettings,
    cpu: &mut TrackingSettings,
    on: bool,
)
    requires
        call_ensures(track_task_metrics, (metrics, on), ()),
        call_ensures(track_poll_cpu_time, (cpu, on), ()),
    ensures
        final(metrics).task_metrics == on,
        final(metrics).poll_cpu_time == old(metrics).poll_cpu_time,
        final(cpu).poll_cpu_time == on,
        final(cpu).task_metrics == old(cpu).task_metrics,
{
}

/// A runner is a thread of the executor in its region, keeps its attribution,
/// and hands no work to the thread pool.
pub proof fn law_runner_belongs_to_the_executor<A>(
    context: &mut ThreadContext<A>,
    thread_id: Option<usize>,
    region: usize,
)
    requires
        call_ensures(ThreadContext::<A>::become_runner, (context, thread_id, region), ()),
    ensures
        final(context).thread_id == thread_id,
        final(context).numa_region == Some(region),
        final(context).attribution == old(context).attribution,
        !final(context).allow_rayon_threads,
        final(context).spawned_by_polars_executor,
{
}

/// A task gets metrics if and only if tasks are measured: new ones, that its
/// attribution is told of.
pub proof fn law_measured_tasks_get_metrics<A: TaskAttribution>(
    settings: TrackingSettings,
    attribution: Option<A>,
    table: &mut TaskMetricsTable,
    sink: &mut A::Sink,
    metrics: Option<u64>,
)
    requires
        call_ensures(new_task_metrics::<A>, (settings, attribution, table, sink), metrics),
    ensures
        metrics is Some <==> settings.task_metrics,
        metrics matches Some(id) ==> {
            &&& !old(table)@.contains_key(id)
            &&& final(table)@.contains_key(id)
            &&& final(table)@[id].total_polls == 0 && !final(table)@[id].done
            &&& forall|other: u64| #[trigger]
                old(table)@.contains_key(other) ==> final(table)@.contains_key(other) && final(table)@[other] == old(table)@[other]
            &&& attribution matches Some(a) ==> a.credits(*old(sink), id, *final(sink))
        },
        metrics is None ==> final(table)@ == old(table)@,
        metrics is None || attribution is None ==> *final(sink) == *old(sink),
{
}

} // verus!
