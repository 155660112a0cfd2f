//! What a runner does between two polls, and how it accounts for them.
//!
//! A runner looks for a task in its own list, then steals. Where there is
//! nothing to steal it announces that it will park, searches once more, and
//! only then parks: a task queued after the announcement wakes it, and one
//! queued before is found by the second search.

use crate::executor::attribution::{scoped_task_attribution, AttributionGuard, TaskAttribution, ThreadContext, TrackingSettings};
use crate::executor::scheduler::Executor;
use crate::executor::spawn::TaskMetadata;
use crate::executor::task::TaskMetricsTable;
use crate::executor::try_steal::StealAttempt;
use crate::executor::worker_state::{poll_cpu, PollRecord, WorkerStateCounters};
use rand::rngs::SmallRng;
use vstd::prelude::*;

#[allow(unused_imports)]
use crate::executor::laws::{law_local_take_removes_the_task, waiting};
#[allow(unused_imports)]
use crate::executor::scheduler::ExecutorView;
#[allow(unused_imports)]
use crate::executor::try_steal::{law_stealing_removes_only_the_task, steals, threads_are_empty};
#[allow(unused_imports)]
use crate::executor::worker_state::{after_poll, gained};

verus! {

/// What a runner does at the start of a turn.
#[derive(Clone, Copy, Debug, PartialEq, Eq, Structural)]
pub enum Turn {
    /// Get an identity first.
    AcquireIdentity,
    /// Look for a task as this thread.
    Fetch(usize),
}

/// Decides what a runner does next: without an identity it has no list to work
/// on.
pub fn begin_turn<A>(context: &ThreadContext<A>) -> (turn: Turn)
    ensures
        turn == match context.thread_id {
            Some(thread) => Turn::Fetch(thread),
            None => Turn::AcquireIdentity,
        },
{
    match context.thread_id {
        Some(thread) => Turn::Fetch(thread),
        None => Turn::AcquireIdentity,
    }
}

/// How far a runner has come in looking for a task.
#[derive(Clone, Copy, Debug, PartialEq, Eq, Structural)]
pub enum FetchStage {
    /// Looking in its own list.
    Local,
    /// Stealing.
    Stealing,
    /// About to announce that it will park.
    Preparing,
    /// Stealing once more, the announcement made.
    StealingAgain,
    /// About to park.
    Parking,
    /// Over.
    Over,
}

/// What a runner that looks for a task does next.
#[derive(Clone, Copy, Debug, PartialEq, Eq, Structural)]
pub enum FetchStep {
    /// Run the task, which came from the runner's own list or did not.
    Run(u64, bool),
    /// Go on.
    Continue,
    /// Announce that it will park.
    PreparePark,
    /// Park.
    Park,
}

/// A runner's search for a task.
pub struct Fetch {
    thread: usize,
    stage: FetchStage,
}

/// The state of such a search.
#[verifier::ext_equal]
pub struct FetchView {
    pub thread: nat,
    pub stage: FetchStage,
}

impl View for Fetch {
    type V = FetchView;

    closed spec fn view(&self) -> FetchView {
        FetchView { thread: self.thread as nat, stage: self.stage }
    }
}

impl FetchView {
    /// The search in another stage.
    pub open spec fn at(self, stage: FetchStage) -> FetchView {
        FetchView { stage, ..self }
    }

    /// Whether the runner can take a step by itself.
    pub open spec fn is_searching(self) -> bool {
        self.stage == FetchStage::Local || self.stage == FetchStage::Stealing || self.stage
            == FetchStage::StealingAgain
    }

    /// The state and the step after the runner's list gave `task`.
    pub open spec fn looked_locally(self, task: Option<u64>) -> (FetchView, FetchStep) {
        match task {
            Some(task) => (self.at(FetchStage::Over), FetchStep::Run(task, true)),
            None => (self.at(FetchStage::Stealing), FetchStep::Continue),
        }
    }

    /// The state and the step after a search of the other queues.
    pub open spec fn stole(self, attempt: StealAttempt) -> (FetchView, FetchStep) {
        match attempt {
            StealAttempt::Found(task) => (
                self.at(FetchStage::Over),
                FetchStep::Run(task, false),
            ),
            StealAttempt::Nothing => if self.stage == FetchStage::Stealing {
                (self.at(FetchStage::Preparing), FetchStep::PreparePark)
            } else {
                (self.at(FetchStage::Parking), FetchStep::Park)
            },
            StealAttempt::Impatient => (self, FetchStep::Continue),
        }
    }
}

/// One step of a runner that looks for a task.
pub open spec fn fetch_steps(
    fetch: FetchView,
    patience: u64,
    before: ExecutorView,
    step: FetchStep,
    fetch_after: FetchView,
    after: ExecutorView,
) -> bool {
    if fetch.stage == FetchStage::Local {
        &&& (fetch_after, step) == fetch.looked_locally(before.local_task(fetch.thread as int))
        &&& after == before.local_taken(fetch.thread as int)
    } else {
        exists|attempt: StealAttempt|
            (fetch_after, step) == fetch.stole(attempt) && #[trigger] steals(
                before,
                fetch.thread as int,
                patience,
                attempt,
                after,
            )
    }
}

impl Fetch {
    /// The runner of `thread` begins to look for a task.
    pub fn new(thread: usize) -> (fetch: Fetch)
        ensures
            fetch@ == (FetchView { thread: thread as nat, stage: FetchStage::Local }),
    {
        Fetch { thread, stage: FetchStage::Local }
    }

    /// Takes one step: looks in the runner's own list, or searches the other
    /// queues. A search that is broken off after `patience` pauses is to be
    /// made again.
    pub fn step(&mut self, executor: &mut Executor, rng: &mut SmallRng, patience: u64) -> (step:
        FetchStep)
        requires
            old(executor).wf(),
            old(self)@.thread < old(executor)@.lists.len(),
            old(self)@.is_searching(),
        ensures
            final(executor).wf(),
            fetch_steps(old(self)@, patience, old(executor)@, step, final(self)@, final(executor)@),
    {
        if self.stage == FetchStage::Local {
            match executor.take_local(self.thread) {
                Some(task) => {
                    self.stage = FetchStage::Over;
                    FetchStep::Run(task, true)
                },
                None => {
                    self.stage = FetchStage::Stealing;
                    FetchStep::Continue
                },
            }
        } else {
            match executor.try_steal_task(self.thread, rng, patience) {
                StealAttempt::Found(task) => {
                    self.stage = FetchStage::Over;
                    FetchStep::Run(task, false)
                },
                StealAttempt::Nothing => {
                    if self.stage == FetchStage::Stealing {
                        self.stage = FetchStage::Preparing;
                        FetchStep::PreparePark
                    } else {
                        self.stage = FetchStage::Parking;
                        FetchStep::Park
                    }
                },
                StealAttempt::Impatient => FetchStep::Continue,
            }
        }
    }

    /// Goes on once the announcement that the runner will park was made.
    pub fn park_prepared(&mut self)
        requires
            old(self)@.stage == FetchStage::Preparing,
        ensures
            final(self)@ == old(self)@.at(FetchStage::StealingAgain),
    {
        self.stage = FetchStage::StealingAgain;
    }

    /// Ends the search of a runner that was woken from its sleep.
    pub fn parked(&mut self)
        requires
            old(self)@.stage == FetchStage::Parking,
        ensures
            final(self)@ == old(self)@.at(FetchStage::Over),
    {
        self.stage = FetchStage::Over;
    }
}

/// A runner parks only after a search that followed its announcement, and only
/// where there was nothing left to run: both global queues and the queue of
/// every thread were empty.
pub proof fn law_parks_only_when_nothing_is_left(
    fetch: FetchView,
    patience: u64,
    before: ExecutorView,
    fetch_after: FetchView,
    after: ExecutorView,
)
    requires
        fetch.is_searching(),
        fetch_steps(fetch, patience, before, FetchStep::Park, fetch_after, after),
    ensures
        fetch.stage == FetchStage::StealingAgain,
        after == before,
        before.high.len() == 0,
        before.low.len() == 0,
        threads_are_empty(before),
{
}

/// A runner that has a task of its own runs that task and steals nothing.
pub proof fn law_own_tasks_come_first(
    fetch: FetchView,
    patience: u64,
    before: ExecutorView,
    step: FetchStep,
    fetch_after: FetchView,
    after: ExecutorView,
)
    requires
        fetch.stage == FetchStage::Local,
        before.local_task(fetch.thread as int) is Some,
        fetch_steps(fetch, patience, before, step, fetch_after, after),
    ensures
        step == FetchStep::Run(before.local_task(fetch.thread as int)->0, true),
        after.high == before.high,
        after.low == before.low,
{
}

/// A runner that goes on to run a task takes that one task from those that
/// wait, and as long as it runs none it takes none.
pub proof fn law_fetching_removes_only_the_task(
    fetch: FetchView,
    patience: u64,
    before: ExecutorView,
    step: FetchStep,
    fetch_after: FetchView,
    after: ExecutorView,
)
    requires
        before.wf(),
        fetch.thread < before.lists.len(),
        fetch.is_searching(),
        fetch_steps(fetch, patience, before, step, fetch_after, after),
    ensures
        match step {
            FetchStep::Run(task, _) => waiting(after).insert(task) == waiting(before),
            _ => after == before,
        },
{
    if fetch.stage == FetchStage::Local {
        law_local_take_removes_the_task(before, fetch.thread as int);
    } else {
        let attempt = choose|attempt: StealAttempt|
            (fetch_after, step) == fetch.stole(attempt) && #[trigger] steals(
                before,
                fetch.thread as int,
                patience,
                attempt,
                after,
            );
        law_stealing_removes_only_the_task(before, fetch.thread, patience, attempt, after);
    }
}

/// A poll in progress: what is to be credited for it, and what to undo after it.
pub struct PollInProgress<A> {
    metrics: Option<u64>,
    attribution: Option<A>,
    occupancy: bool,
    guard: AttributionGuard<A>,
}

impl<A> PollInProgress<A> {
    /// The number of the metrics of the task being polled.
    pub closed spec fn metrics(&self) -> Option<u64> {
        self.metrics
    }

    /// Who is credited for the poll.
    pub closed spec fn attribution(&self) -> Option<A> {
        self.attribution
    }

    /// Whether a poll session is open.
    pub closed spec fn occupancy(&self) -> bool {
        self.occupancy
    }

    /// The attribution to go back to.
    pub closed spec fn previous(&self) -> Option<A> {
        self.guard.previous()
    }
}

/// Prepares a measured poll of a task at `now`: anything that the task spawns
/// inherits its attribution, and the node it is credited to counts as occupied.
pub fn begin_poll<A: TaskAttribution>(
    task: &TaskMetadata<A>,
    context: &mut ThreadContext<A>,
    now: u64,
    sink: &mut A::Sink,
) -> (poll: PollInProgress<A>)
    requires
        task.attribution matches Some(a) ==> a.can_time(*old(sink)),
    ensures
        poll.metrics() == task.metrics,
        poll.attribution() == task.attribution,
        poll.previous() == old(context).attribution,
        *final(context) == (ThreadContext { attribution: task.attribution, ..*old(context) }),
        match task.attribution {
            Some(a) => a.opens(*old(sink), now, poll.occupancy(), *final(sink)) && a.can_time(
                *final(sink),
            ),
            None => !poll.occupancy() && *final(sink) == *old(sink),
        },
{
    let attribution: Option<A> = task.attribution;
    let mut occupancy: bool = false;
    if let Some(a) = attribution {
        occupancy = a.poll_session(now, sink);
    }
    let guard = scoped_task_attribution(context, attribution);
    PollInProgress { metrics: task.metrics, attribution, occupancy, guard }
}

/// What was measured of a poll.
#[derive(Clone, Copy, Debug, PartialEq, Eq, Structural)]
pub struct PollMeasurement {
    /// Wall time of the poll.
    pub elapsed_ns: u64,
    /// The thread CPU clock before the poll, where it is on.
    pub cpu_before: Option<u64>,
    /// The thread CPU clock after the poll, where it is on.
    pub cpu_after: Option<u64>,
    /// Whether the task came from the runner's own list.
    pub local: bool,
}

/// The record of a measured poll.
pub open spec fn poll_record(measured: PollMeasurement, attributed: bool) -> PollRecord {
    PollRecord {
        elapsed_ns: measured.elapsed_ns,
        cpu_ns: match (measured.cpu_before, measured.cpu_after) {
            (Some(before), Some(after)) => gained(after, before),
            _ => 0u64,
        },
        local: measured.local,
        attributed,
    }
}

/// Accounts for a poll that ended at `now`, per thread and per task, and undoes
/// what [`begin_poll`] did.
pub fn end_poll<A: TaskAttribution>(
    poll: PollInProgress<A>,
    measured: PollMeasurement,
    counters: &mut WorkerStateCounters,
    table: &mut TaskMetricsTable,
    context: &mut ThreadContext<A>,
    now: u64,
    sink: &mut A::Sink,
)
    requires
        old(table).wf(),
        poll.attribution() matches Some(a) ==> a.can_time(*old(sink)),
    ensures
        final(table).wf(),
        final(table).room() == old(table).room(),
        poll.attribution() matches Some(a) ==> a.can_time(*final(sink)),
        ({
            let record = poll_record(measured, poll.attribution() is Some);
            &&& final(counters)@ == after_poll(old(counters)@, record)
            &&& final(table)@ == match poll.metrics() {
                Some(id) => if old(table)@.contains_key(id) {
                    old(table)@.insert(id, old(table)@[id].polled(record))
                } else {
                    old(table)@
                },
                None => old(table)@,
            }
        }),
        *final(context) == (ThreadContext { attribution: poll.previous(), ..*old(context) }),
        match poll.attribution() {
            Some(a) => if poll.occupancy() {
                a.closes(*old(sink), now, *final(sink))
            } else {
                *final(sink) == *old(sink)
            },
            None => *final(sink) == *old(sink),
        },
{
    let record = PollRecord {
        elapsed_ns: measured.elapsed_ns,
        cpu_ns: poll_cpu(measured.cpu_before, measured.cpu_after),
        local: measured.local,
        attributed: poll.attribution.is_some(),
    };
    counters.record_poll(record);
    if let Some(id) = poll.metrics {
        table.record_poll(id, record);
    }
    poll.guard.restore(context);
    if let Some(a) = poll.attribution {
        if poll.occupancy {
            a.end_poll_session(now, sink);
        }
    }
}

/// Whether a poll is to be measured on the thread CPU clock too.
pub fn measures_cpu(settings: TrackingSettings) -> (measures: bool)
    ensures
        measures == (settings.task_metrics && settings.poll_cpu_time),
{
    settings.task_metrics && settings.poll_cpu_time
}

/// A poll leaves the thread as it found it, and while it lasts the thread has
/// the attribution of the task.
pub proof fn law_poll_runs_under_the_tasks_attribution<A: TaskAttribution>(
    task: &TaskMetadata<A>,
    context: &mut ThreadContext<A>,
    start: u64,
    sink: &mut A::Sink,
    poll: PollInProgress<A>,
    measured: PollMeasurement,
    counters: &mut WorkerStateCounters,
    table: &mut TaskMetricsTable,
    later: &mut ThreadContext<A>,
    end: u64,
    later_sink: &mut A::Sink,
)
    requires
        call_ensures(begin_poll::<A>, (task, context, start, sink), poll),
        *old(later) == *final(context),
        call_ensures(
            end_poll::<A>,
            (poll, measured, counters, table, later, end, later_sink),
            (),
        ),
    ensures
        final(context).attribution == task.attribution,
        final(context).thread_id == old(context).thread_id,
        *final(later) == *old(context),
{
}

/// A poll is counted once for the worker and once for the task, if it is
/// measured: its time, the CPU that the thread's clock advanced by, whether it
/// was stolen, and as unattributed where nobody claims the task.
pub proof fn law_poll_is_counted_for_worker_and_task<A: TaskAttribution>(
    poll: PollInProgress<A>,
    measured: PollMeasurement,
    counters: &mut WorkerStateCounters,
    table: &mut TaskMetricsTable,
    context: &mut ThreadContext<A>,
    now: u64,
    sink: &mut A::Sink,
    id: u64,
)
    requires
        call_ensures(
            end_poll::<A>,
            (poll, measured, counters, table, context, now, sink),
            (),
        ),
        old(counters)@.poll_ns + measured.elapsed_ns <= u64::MAX,
        old(counters)@.unattributed_poll_ns + measured.elapsed_ns <= u64::MAX,
        old(table)@.contains_key(id),
        old(table)@[id].total_polls < u64::MAX,
        old(table)@[id].total_stolen_polls < u64::MAX,
        old(table)@[id].total_poll_time_ns + measured.elapsed_ns <= u64::MAX,
    ensures
        final(counters)@.poll_ns == old(counters)@.poll_ns + measured.elapsed_ns,
        final(counters)@.unattributed_poll_ns - old(counters)@.unattributed_poll_ns == (
        if poll.attribution() is Some {
            0
        } else {
            measured.elapsed_ns as int
        }),
        final(counters)@.overhead_ns == old(counters)@.overhead_ns,
        final(counters)@.parked_ns == old(counters)@.parked_ns,
        measured.cpu_before matches Some(b) ==> measured.cpu_after matches Some(a) ==> b <= a
            ==> old(counters)@.poll_cpu_ns + (a - b) <= u64::MAX ==> final(counters)@.poll_cpu_ns
            == old(counters)@.poll_cpu_ns + (a - b),
        measured.cpu_before is None || measured.cpu_after is None ==> final(counters)@.poll_cpu_ns
            == old(counters)@.poll_cpu_ns,
        final(table)@.dom() == old(table)@.dom(),
        poll.metrics() != Some(id) ==> final(table)@[id] == old(table)@[id],
        poll.metrics() == Some(id) ==> {
            let before = old(table)@[id];
            let after = final(table)@[id];
            &&& after.total_polls == before.total_polls + 1
            &&& after.total_stolen_polls - before.total_stolen_polls == (if measured.local {
                0int
            } else {
                1
            })
            &&& after.total_poll_time_ns == before.total_poll_time_ns + measured.elapsed_ns
            &&& after.max_poll_time_ns >= measured.elapsed_ns
            &&& after.max_poll_time_ns >= before.max_poll_time_ns
            &&& after.max_poll_time_ns == before.max_poll_time_ns || after.max_poll_time_ns
                == measured.elapsed_ns
            &&& after.done == before.done
        },
{
    assert(final(table)@.dom() =~= old(table)@.dom());
}

/// What a poll counts for is the task that it polls.
pub proof fn law_poll_belongs_to_its_task<A: TaskAttribution>(
    task: &TaskMetadata<A>,
    context: &mut ThreadContext<A>,
    now: u64,
    sink: &mut A::Sink,
    poll: PollInProgress<A>,
)
    requires
        call_ensures(begin_poll::<A>, (task, context, now, sink), poll),
    ensures
        poll.metrics() == task.metrics,
        poll.attribution() == task.attribution,
        task.attribution is None ==> *final(sink) == *old(sink),
        task.attribution matches Some(a) ==> a.opens(
            *old(sink),
            now,
            poll.occupancy(),
            *final(sink),
        ),
{
}

/// A runner looks for a task only as the thread that it is, and asks for an
/// identity first where it has none.
pub proof fn law_runner_needs_an_identity<A>(context: &ThreadContext<A>, turn: Turn)
    requires
        call_ensures(begin_turn::<A>, (context,), turn),
    ensures
        context.thread_id matches Some(thread) ==> turn == Turn::Fetch(thread),
        context.thread_id is None ==> turn == Turn::AcquireIdentity,
{
}

/// A runner searches its own list first, and after it announced that it will
/// park it searches once more.
pub proof fn law_runner_searches_again_after_announcing(
    thread: usize,
    fresh: Fetch,
    fetch: &mut Fetch,
    waking: &mut Fetch,
)
    requires
        call_ensures(Fetch::new, (thread,), fresh),
        call_ensures(Fetch::park_prepared, (fetch,), ()),
        call_ensures(Fetch::parked, (waking,), ()),
    ensures
        fresh@.thread == thread,
        fresh@.stage == FetchStage::Local,
        final(fetch)@.thread == old(fetch)@.thread,
        final(fetch)@.stage == FetchStage::StealingAgain,
        final(waking)@.thread == old(waking)@.thread,
        final(waking)@.stage == FetchStage::Over,
{
}

/// The CPU clock is read only where polls are measured and it is asked for.
pub proof fn law_cpu_is_measured_where_asked(settings: TrackingSettings, measures: bool)
    requires
        call_ensures(measures_cpu, (settings,), measures),
    ensures
        measures <==> settings.task_metrics && settings.poll_cpu_time,
{
}

} // verus!
