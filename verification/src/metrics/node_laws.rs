//! How the metrics of one node add up.

use crate::executor::task::TaskMetrics;
use crate::io_metrics::IOMetrics;
use crate::metrics::node::{InProgressTask, NodeMetrics, PipeMetrics, TaskCounters};
use vstd::prelude::*;

#[allow(unused_imports)]
use crate::metrics::node::{NodeCounters, NodeMetricsView};

verus! {

/// What is sent through a pipe is added to what the node sent: morsels and rows
/// add up, and the largest morsel is the largest of all that the node ever sent.
/// Nothing else of the node changes.
pub proof fn law_sent_adds_up(node: &mut NodeMetrics, pipe: &PipeMetrics)
    requires
        call_ensures(NodeMetrics::add_send_metrics, (node, pipe), ()),
        old(node).morsels_sent + pipe.morsels_sent <= u64::MAX,
        old(node).rows_sent + pipe.rows_sent <= u64::MAX,
    ensures
        final(node).morsels_sent == old(node).morsels_sent + pipe.morsels_sent,
        final(node).rows_sent == old(node).rows_sent + pipe.rows_sent,
        final(node).largest_morsel_sent >= old(node).largest_morsel_sent,
        final(node).largest_morsel_sent >= pipe.largest_morsel_sent,
        final(node).largest_morsel_sent == old(node).largest_morsel_sent || final(node).largest_morsel_sent == pipe.largest_morsel_sent,
        final(node).counters() == (NodeCounters {
            morsels_sent: final(node).morsels_sent,
            rows_sent: final(node).rows_sent,
            largest_morsel_sent: final(node).largest_morsel_sent,
            ..old(node).counters()
        }),
        final(node).custom == old(node).custom,
{
    assert(final(node).counters().morsels_sent == final(node).morsels_sent);
    assert(final(node).counters().rows_sent == final(node).rows_sent);
    assert(final(node).counters().largest_morsel_sent == final(node).largest_morsel_sent);
}

/// What is received through a pipe is added to what the node received, in the
/// same way.
pub proof fn law_received_adds_up(node: &mut NodeMetrics, pipe: &PipeMetrics)
    requires
        call_ensures(NodeMetrics::add_recv_metrics, (node, pipe), ()),
        old(node).morsels_received + pipe.morsels_received <= u64::MAX,
        old(node).rows_received + pipe.rows_received <= u64::MAX,
    ensures
        final(node).morsels_received == old(node).morsels_received + pipe.morsels_received,
        final(node).rows_received == old(node).rows_received + pipe.rows_received,
        final(node).largest_morsel_received >= old(node).largest_morsel_received,
        final(node).largest_morsel_received >= pipe.largest_morsel_received,
        final(node).largest_morsel_received == old(node).largest_morsel_received || final(node).largest_morsel_received == pipe.largest_morsel_received,
        final(node).counters() == (NodeCounters {
            morsels_received: final(node).morsels_received,
            rows_received: final(node).rows_received,
            largest_morsel_received: final(node).largest_morsel_received,
            ..old(node).counters()
        }),
        final(node).custom == old(node).custom,
{
    assert(final(node).counters().morsels_received == final(node).morsels_received);
    assert(final(node).counters().rows_received == final(node).rows_received);
    assert(final(node).counters().largest_morsel_received == final(node).largest_morsel_received);
}

/// Folding a task in adds what it did since it was last folded in, and takes
/// note of how far it was read. The longest poll is the longest of all, and a
/// task counts as running until it is done.
pub proof fn law_task_adds_what_is_new(
    node: &mut NodeMetrics,
    task: &mut InProgressTask,
    m: &TaskMetrics,
)
    requires
        call_ensures(NodeMetrics::add_task, (node, task, m), ()),
        old(node).counters().fits_task(*m, old(task).applied),
    ensures
        final(node).total_polls - old(node).total_polls == m.total_polls - old(task).applied.polls,
        final(node).total_stolen_polls - old(node).total_stolen_polls == m.total_stolen_polls
            - old(task).applied.stolen_polls,
        final(node).total_poll_time_ns - old(node).total_poll_time_ns == m.total_poll_time_ns
            - old(task).applied.poll_time_ns,
        final(node).total_poll_cpu_time_ns - old(node).total_poll_cpu_time_ns
            == m.total_poll_cpu_time_ns - old(task).applied.poll_cpu_ns,
        final(node).max_poll_time_ns >= old(node).max_poll_time_ns,
        final(node).max_poll_time_ns >= m.max_poll_time_ns,
        final(node).max_poll_time_ns == old(node).max_poll_time_ns || final(node).max_poll_time_ns
            == m.max_poll_time_ns,
        final(node).num_running_tasks - old(node).num_running_tasks == (if m.done {
            0int
        } else {
            1
        }),
        final(task).applied.polls == m.total_polls,
        final(task).applied.stolen_polls == m.total_stolen_polls,
        final(task).applied.poll_time_ns == m.total_poll_time_ns,
        final(task).applied.poll_cpu_ns == m.total_poll_cpu_time_ns,
        final(task).metrics == old(task).metrics,
        final(task).seen_done == old(task).seen_done,
        final(node).counters() == (NodeCounters {
            total_polls: final(node).total_polls,
            total_stolen_polls: final(node).total_stolen_polls,
            total_poll_time_ns: final(node).total_poll_time_ns,
            total_poll_cpu_time_ns: final(node).total_poll_cpu_time_ns,
            max_poll_time_ns: final(node).max_poll_time_ns,
            num_running_tasks: final(node).num_running_tasks,
            ..old(node).counters()
        }),
        final(node).custom == old(node).custom,
{
    let after = final(node).counters();
    assert(after.total_polls == final(node).total_polls);
    assert(after.total_stolen_polls == final(node).total_stolen_polls);
    assert(after.total_poll_time_ns == final(node).total_poll_time_ns);
    assert(after.total_poll_cpu_time_ns == final(node).total_poll_cpu_time_ns);
    assert(after.max_poll_time_ns == final(node).max_poll_time_ns);
    assert(after.num_running_tasks == final(node).num_running_tasks);
}

/// A task can be folded in wherever it did not undo anything and the sums do not
/// overflow.
pub proof fn law_task_fits_where_sums_do(
    counters: NodeCounters,
    m: TaskMetrics,
    applied: TaskCounters,
)
    requires
        applied.polls <= m.total_polls,
        applied.stolen_polls <= m.total_stolen_polls,
        applied.poll_time_ns <= m.total_poll_time_ns,
        applied.poll_cpu_ns <= m.total_poll_cpu_time_ns,
        counters.total_polls + m.total_polls <= u64::MAX,
        counters.total_stolen_polls + m.total_stolen_polls <= u64::MAX,
        counters.total_poll_time_ns + m.total_poll_time_ns <= u64::MAX,
        counters.total_poll_cpu_time_ns + m.total_poll_cpu_time_ns <= u64::MAX,
        counters.num_running_tasks < u32::MAX,
    ensures
        counters.fits_task(m, applied),
{
}

/// Of a new task nothing was folded in yet, so that its first reading counts in
/// full.
pub proof fn law_new_task_counts_in_full(metrics: u64, task: InProgressTask)
    requires
        call_ensures(InProgressTask::new, (metrics,), task),
    ensures
        task.metrics == metrics,
        task.applied.polls == 0,
        task.applied.stolen_polls == 0,
        task.applied.poll_time_ns == 0,
        task.applied.poll_cpu_ns == 0,
        !task.seen_done,
{
}

/// The input and output of a node are what its counters say, whatever was read
/// of them before.
pub proof fn law_io_is_what_its_counters_say(node: &mut NodeMetrics, io: &IOMetrics, now: u64)
    requires
        call_ensures(NodeMetrics::read_io, (node, io, now), ()),
    ensures
        final(node).io_total_active_ns == io.io_timer.reading(now),
        final(node).io_total_bytes_requested == io.bytes_requested,
        final(node).io_total_bytes_received == io.bytes_received,
        final(node).io_total_bytes_sent == io.bytes_sent,
        final(node).counters() == (NodeCounters {
            io_total_active_ns: final(node).io_total_active_ns,
            io_total_bytes_requested: final(node).io_total_bytes_requested,
            io_total_bytes_received: final(node).io_total_bytes_received,
            io_total_bytes_sent: final(node).io_total_bytes_sent,
            ..old(node).counters()
        }),
        final(node).custom == old(node).custom,
{
    let after = final(node).counters();
    assert(after.io_total_active_ns == final(node).io_total_active_ns);
    assert(after.io_total_bytes_requested == final(node).io_total_bytes_requested);
    assert(after.io_total_bytes_received == final(node).io_total_bytes_received);
    assert(after.io_total_bytes_sent == final(node).io_total_bytes_sent);
}

/// A state update is counted when it ends: one more update, its whole time, and
/// the longest of all. While it lasts the node says so, and afterwards whether
/// it is done.
pub proof fn law_state_update_is_counted_when_it_ends(
    node: &mut NodeMetrics,
    ending: &mut NodeMetrics,
    time_ns: u64,
    is_done: bool,
)
    requires
        call_ensures(NodeMetrics::start_state_update, (node,), ()),
        *old(ending) == *final(node),
        call_ensures(NodeMetrics::stop_state_update, (ending, time_ns, is_done), ()),
        old(node).total_state_updates < u64::MAX,
        old(node).total_state_update_time_ns + time_ns <= u64::MAX,
    ensures
        final(node).state_update_in_progress,
        final(node).counters() == (NodeCounters {
            state_update_in_progress: true,
            ..old(node).counters()
        }),
        !final(ending).state_update_in_progress,
        final(ending).done == is_done,
        final(ending).total_state_updates == old(node).total_state_updates + 1,
        final(ending).total_state_update_time_ns == old(node).total_state_update_time_ns + time_ns,
        final(ending).max_state_update_time_ns >= old(node).max_state_update_time_ns,
        final(ending).max_state_update_time_ns >= time_ns,
        final(ending).max_state_update_time_ns == old(node).max_state_update_time_ns || final(ending).max_state_update_time_ns == time_ns,
        final(ending).counters() == (NodeCounters {
            total_state_updates: final(ending).total_state_updates,
            total_state_update_time_ns: final(ending).total_state_update_time_ns,
            max_state_update_time_ns: final(ending).max_state_update_time_ns,
            state_update_in_progress: false,
            done: is_done,
            ..old(node).counters()
        }),
        final(ending).custom == old(node).custom,
{
    let between = final(node).counters();
    assert(between.state_update_in_progress == final(node).state_update_in_progress);
    assert(between.total_state_updates == old(node).total_state_updates);
    let after = final(ending).counters();
    assert(after.total_state_updates == final(ending).total_state_updates);
    assert(after.total_state_update_time_ns == final(ending).total_state_update_time_ns);
    assert(after.max_state_update_time_ns == final(ending).max_state_update_time_ns);
    assert(after.state_update_in_progress == final(ending).state_update_in_progress);
    assert(after.done == final(ending).done);
}

/// A node that has done nothing has nothing but zeros, is not done and has no
/// custom metrics.
pub proof fn law_new_node_is_zero(node: NodeMetrics)
    requires
        call_ensures(<NodeMetrics as Default>::default, (), node),
    ensures
        node.total_polls == 0,
        node.total_stolen_polls == 0,
        node.total_poll_time_ns == 0,
        node.max_poll_time_ns == 0,
        node.poll_occupancy_ns == 0,
        node.total_poll_cpu_time_ns == 0,
        node.total_state_updates == 0,
        node.total_state_update_time_ns == 0,
        node.max_state_update_time_ns == 0,
        node.morsels_sent == 0,
        node.rows_sent == 0,
        node.largest_morsel_sent == 0,
        node.morsels_received == 0,
        node.rows_received == 0,
        node.largest_morsel_received == 0,
        node.io_total_active_ns == 0,
        node.io_total_bytes_requested == 0,
        node.io_total_bytes_received == 0,
        node.io_total_bytes_sent == 0,
        !node.state_update_in_progress,
        node.num_running_tasks == 0,
        !node.done,
        node.custom@.len() == 0,
        node@ == NodeMetricsView::zero(),
{
    let counters = node@.counters;
    assert(counters.total_polls == node.total_polls);
    assert(counters == NodeCounters::zero());
    assert(node@.custom.len() == node.custom@.len());
}

} // verus!
