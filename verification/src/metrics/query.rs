//! Time belonging to a query as a whole.

use crate::executor::worker_state::WorkerStateTimes;
use vstd::prelude::*;

#[allow(unused_imports)]
use crate::executor::worker_state::gained;

verus! {

/// Time belonging to the query as a whole rather than to any one node.
///
/// Executing a graph alternates two strictly exclusive halves on a single driver
/// thread: updating every node's state, then running a phase. Node metrics
/// cover what happens inside those halves; this covers the halves themselves,
/// so the segments reconstruct the query's wall time and a residual means there
/// is driver work nobody brackets.
///
/// Every duration here is wall time on one thread, unlike a node's poll time,
/// which sums over threads. The two cannot be added without converting to a
/// common unit first.
#[derive(Clone, Copy, Debug, PartialEq, Eq, Structural)]
pub struct QueryMetrics {
    /// Wall time of the whole execution.
    pub wall_time_ns: u64,
    /// Executor threads this query could use, for turning wall into a budget.
    pub num_threads: u32,
    /// Number of phases run.
    pub num_phases: u64,
    /// Wall spent updating all states, node updates and bookkeeping alike.
    pub state_update_time_ns: u64,
    /// Process CPU consumed while the driver was updating node states.
    ///
    /// Bracketed once around the whole loop, the same interval as
    /// `state_update_time_ns`, so the two are comparable.
    ///
    /// This is overlap, not attribution: two unrelated things run during a
    /// state update -- work a node fans out and detached tasks that outlive a
    /// phase. Crediting it to the node being updated would be wrong. Zero
    /// without a platform CPU clock.
    pub state_update_cpu_ns: u64,
    /// Wall spent building physical pipes and spawning a phase's tasks.
    pub phase_setup_time_ns: u64,
    /// Wall spent waiting for a phase's tasks to finish.
    pub phase_wait_time_ns: u64,
    /// Wall spent awaiting tasks that outlive a subphase or the query.
    pub detached_wait_time_ns: u64,
    /// Wall spent collecting results from in-memory nodes.
    pub output_time_ns: u64,
    /// How the executor's threads spent the query, summed over threads.
    ///
    /// Polling, looking for work, or asleep -- a worker is always in exactly
    /// one, so these sum to the thread time budget and any shortfall is work no
    /// counter sees. Exact only when the query had the executor to itself; a
    /// second concurrent query lands in the same totals.
    pub worker_states: WorkerStateTimes,
}

impl Default for QueryMetrics {
    fn default() -> (metrics: Self)
        ensures
            metrics == QueryMetrics::zero(),
    {
        QueryMetrics {
            wall_time_ns: 0,
            num_threads: 0,
            num_phases: 0,
            state_update_time_ns: 0,
            state_update_cpu_ns: 0,
            phase_setup_time_ns: 0,
            phase_wait_time_ns: 0,
            detached_wait_time_ns: 0,
            output_time_ns: 0,
            worker_states: WorkerStateTimes::default(),
        }
    }
}

impl QueryMetrics {
    /// The metrics of a query that has not run.
    pub open spec fn zero() -> QueryMetrics {
        QueryMetrics {
            wall_time_ns: 0,
            num_threads: 0,
            num_phases: 0,
            state_update_time_ns: 0,
            state_update_cpu_ns: 0,
            phase_setup_time_ns: 0,
            phase_wait_time_ns: 0,
            detached_wait_time_ns: 0,
            output_time_ns: 0,
            worker_states: WorkerStateTimes::zero(),
        }
    }

    /// The sum of the segments.
    pub open spec fn accounted(self) -> int {
        self.state_update_time_ns + self.phase_setup_time_ns + self.phase_wait_time_ns
            + self.detached_wait_time_ns + self.output_time_ns
    }

    /// The thread time that fits in the wall time.
    pub open spec fn budget(self) -> int {
        self.wall_time_ns * self.num_threads
    }

    /// The segments that should add up to the wall time.
    pub fn accounted_time_ns(&self) -> (accounted: u64)
        requires
            self.accounted() <= u64::MAX,
        ensures
            accounted == self.accounted(),
    {
        self.state_update_time_ns + self.phase_setup_time_ns + self.phase_wait_time_ns
            + self.detached_wait_time_ns + self.output_time_ns
    }

    /// Wall time that no segment claims.
    ///
    /// Should be near zero. A large value means driver work is unbracketed.
    pub fn unaccounted_time_ns(&self) -> (unaccounted: u64)
        requires
            self.accounted() <= u64::MAX,
        ensures
            unaccounted == gained(self.wall_time_ns, self.accounted() as u64),
    {
        self.wall_time_ns.saturating_sub(self.accounted_time_ns())
    }

    /// Thread-time the machine sat idle while the driver updated node states.
    ///
    /// State updates are single-threaded on the driver, so their wall costs
    /// every other thread -- but not entirely, since detached tasks and node
    /// fan-out do run through them. This is the part that was genuinely idle.
    pub fn state_update_idle_ns(&self) -> (idle: u64)
        requires
            self.state_update_time_ns * self.num_threads <= u64::MAX,
        ensures
            idle == gained(
                (self.state_update_time_ns * self.num_threads) as u64,
                self.state_update_cpu_ns,
            ),
    {
        (self.state_update_time_ns * self.num_threads as u64).saturating_sub(
            self.state_update_cpu_ns,
        )
    }

    /// Thread-time the executor did not report as polling, overhead or parked.
    ///
    /// Near zero means the worker accounting is complete. A large value means
    /// threads outside the executor are doing the work -- rayon pool threads,
    /// or blocking I/O threads.
    pub fn unaccounted_thread_time_ns(&self) -> (unaccounted: u64)
        requires
            self.budget() <= u64::MAX,
            self.worker_states.total() <= u64::MAX,
        ensures
            unaccounted == gained(self.budget() as u64, self.worker_states.total() as u64),
    {
        self.thread_time_budget_ns().saturating_sub(self.worker_states.total_ns())
    }

    /// Total thread-time the query could have used.
    ///
    /// The denominator for what share of the machine the query occupied.
    pub fn thread_time_budget_ns(&self) -> (budget: u64)
        requires
            self.budget() <= u64::MAX,
        ensures
            budget == self.budget(),
    {
        self.wall_time_ns * self.num_threads as u64
    }
}

/// The segments reconstruct the wall time: with what no segment claims they add
/// up to it, unless the clocks disagree and the segments add up to more.
pub proof fn law_segments_reconstruct_wall(query: QueryMetrics)
    requires
        query.accounted() <= u64::MAX,
    ensures
        query.accounted() <= query.wall_time_ns ==> query.accounted() + gained(
            query.wall_time_ns,
            query.accounted() as u64,
        ) == query.wall_time_ns,
        query.accounted() > query.wall_time_ns ==> gained(
            query.wall_time_ns,
            query.accounted() as u64,
        ) == 0,
{
}

/// The workers' states and what they leave unreported add up to the budget,
/// unless they report more than that.
pub proof fn law_worker_states_partition_budget(query: QueryMetrics)
    requires
        query.budget() <= u64::MAX,
        query.worker_states.total() <= query.budget(),
    ensures
        query.worker_states.total() + gained(
            query.budget() as u64,
            query.worker_states.total() as u64,
        ) == query.budget(),
{
}

/// The segments are the five halves of a phase: updating states, setting up,
/// waiting, waiting for what is detached, and collecting results. What they
/// leave of the wall time is unaccounted for, and nothing where they exceed it.
pub proof fn law_wall_time_is_five_segments_and_a_rest(
    query: &QueryMetrics,
    accounted: u64,
    unaccounted: u64,
)
    requires
        call_ensures(QueryMetrics::accounted_time_ns, (query,), accounted),
        call_ensures(QueryMetrics::unaccounted_time_ns, (query,), unaccounted),
    ensures
        accounted == query.state_update_time_ns + query.phase_setup_time_ns
            + query.phase_wait_time_ns + query.detached_wait_time_ns + query.output_time_ns,
        accounted <= query.wall_time_ns ==> accounted + unaccounted == query.wall_time_ns,
        accounted > query.wall_time_ns ==> unaccounted == 0,
{
}

/// The budget is the wall time of every thread. What the workers do not report
/// of it as polling, looking for work or sleeping is unaccounted for.
pub proof fn law_budget_is_the_states_and_a_rest(
    query: &QueryMetrics,
    budget: u64,
    unaccounted: u64,
)
    requires
        call_ensures(QueryMetrics::thread_time_budget_ns, (query,), budget),
        call_ensures(QueryMetrics::unaccounted_thread_time_ns, (query,), unaccounted),
        query.worker_states.poll_ns + query.worker_states.overhead_ns
            + query.worker_states.parked_ns <= u64::MAX,
    ensures
        budget == query.wall_time_ns * query.num_threads,
        ({
            let reported = query.worker_states.poll_ns + query.worker_states.overhead_ns
                + query.worker_states.parked_ns;
            &&& reported <= budget ==> reported + unaccounted == budget
            &&& reported > budget ==> unaccounted == 0
        }),
{
}

/// While states are updated every thread is idle but for the CPU that the
/// process used meanwhile.
pub proof fn law_state_updates_idle_the_rest(query: &QueryMetrics, idle: u64)
    requires
        call_ensures(QueryMetrics::state_update_idle_ns, (query,), idle),
        query.state_update_time_ns * query.num_threads <= u64::MAX,
    ensures
        query.state_update_cpu_ns <= query.state_update_time_ns * query.num_threads ==> idle
            + query.state_update_cpu_ns == query.state_update_time_ns * query.num_threads,
        query.state_update_cpu_ns > query.state_update_time_ns * query.num_threads ==> idle == 0,
{
}

} // verus!
