//! What holds of a graph's metrics over several flushes.

use crate::executor::task::TaskMetrics;
use crate::io_metrics::IOMetrics;
use crate::keys::{admits, distinct_slots, entered, is_older, is_slot_order, rivals, slot_of, version_of};
use crate::metrics::custom_laws::law_snapshot_is_repeatable;
use crate::metrics::graph::{admits_all, displaced, fold_tasks, kept_tasks, node_or_zero, not_running, pipe_all_fits, pipe_fits, pipes_fit, tasks_fit, updated, with_custom, with_io, with_occupancy, with_pipe, with_pipe_all, with_pipes, with_receiver, with_tasks, GraphMetricsView, LogicalPipe};
use crate::metrics::node::{InProgressTask, NodeCounters, NodeMetricsView, PipeMetrics, TaskCounters};
use vstd::prelude::*;

verus! {

/// A task that is read many times is counted once: two flushes add what it did
/// from the first to the last of them, whatever it had done in between.
pub proof fn law_task_is_counted_once(
    counters: NodeCounters,
    task: InProgressTask,
    first: TaskMetrics,
    second: TaskMetrics,
)
    requires
        counters.fits_task(first, task.applied),
        counters.with_task(first, task.applied).fits_task(second, task.flushed(first).applied),
    ensures
        ({
            let after = counters.with_task(first, task.applied).with_task(
                second,
                task.flushed(first).applied,
            );
            &&& after.total_polls == counters.total_polls + second.total_polls - task.applied.polls
            &&& after.total_stolen_polls == counters.total_stolen_polls + second.total_stolen_polls
                - task.applied.stolen_polls
            &&& after.total_poll_time_ns == counters.total_poll_time_ns + second.total_poll_time_ns
                - task.applied.poll_time_ns
            &&& after.total_poll_cpu_time_ns == counters.total_poll_cpu_time_ns
                + second.total_poll_cpu_time_ns - task.applied.poll_cpu_ns
        }),
{
}

/// A flush keeps exactly the tasks that no earlier flush has seen done, in
/// order, with what it read of each.
pub proof fn law_flush_keeps_what_it_has_not_seen_done(
    tasks: Seq<InProgressTask>,
    table: Map<u64, TaskMetrics>,
)
    ensures
        kept_tasks(tasks, table) == tasks.filter(
            |task: InProgressTask| !task.seen_done,
        ).map_values(|task: InProgressTask| task.flushed(table[task.metrics])),
    decreases tasks.len(),
{
    reveal(Seq::filter);
    let unseen = |task: InProgressTask| !task.seen_done;
    let read = |task: InProgressTask| task.flushed(table[task.metrics]);
    if tasks.len() > 0 {
        law_flush_keeps_what_it_has_not_seen_done(tasks.drop_last(), table);
    }
    assert(kept_tasks(tasks, table) =~= tasks.filter(unseen).map_values(read));
}

proof fn lemma_kept_contains(tasks: Seq<InProgressTask>, table: Map<u64, TaskMetrics>, i: int)
    requires
        0 <= i < tasks.len(),
        !tasks[i].seen_done,
    ensures
        kept_tasks(tasks, table).contains(tasks[i].flushed(table[tasks[i].metrics])),
    decreases tasks.len(),
{
    let kept = kept_tasks(tasks, table);
    let rest = kept_tasks(tasks.drop_last(), table);
    let task = tasks[i].flushed(table[tasks[i].metrics]);
    if i == tasks.len() - 1 {
        assert(kept.last() == task);
    } else {
        lemma_kept_contains(tasks.drop_last(), table, i);
        let j = rest.index_of(task);
        assert(kept[j] == task);
    }
}

proof fn lemma_kept_from(tasks: Seq<InProgressTask>, table: Map<u64, TaskMetrics>, j: int)
    requires
        0 <= j < kept_tasks(tasks, table).len(),
    ensures
        exists|i: int|
            0 <= i < tasks.len() && !(#[trigger] tasks[i]).seen_done && kept_tasks(tasks, table)[j]
                == tasks[i].flushed(table[tasks[i].metrics]),
    decreases tasks.len(),
{
    let rest = kept_tasks(tasks.drop_last(), table);
    if j < rest.len() {
        lemma_kept_from(tasks.drop_last(), table, j);
        let i = choose|i: int|
            0 <= i < tasks.drop_last().len() && !(#[trigger] tasks.drop_last()[i]).seen_done
                && rest[j] == tasks.drop_last()[i].flushed(table[tasks.drop_last()[i].metrics]);
        assert(tasks[i] == tasks.drop_last()[i]);
    } else {
        assert(!tasks[tasks.len() - 1].seen_done);
    }
}

/// A task that is done is read once more: the first flush that sees it done
/// keeps it, so that its last poll is not lost, and the next one lets it go.
pub proof fn law_done_task_is_read_once_more(
    tasks: Seq<InProgressTask>,
    first: Map<u64, TaskMetrics>,
    second: Map<u64, TaskMetrics>,
    i: int,
)
    requires
        forall|a: int, b: int|
            0 <= a < b < tasks.len() ==> (#[trigger] tasks[a]).metrics != (
            #[trigger] tasks[b]).metrics,
        0 <= i < tasks.len(),
        !tasks[i].seen_done,
        first[tasks[i].metrics].done,
    ensures
        kept_tasks(tasks, first).contains(tasks[i].flushed(first[tasks[i].metrics])),
        forall|j: int|
            0 <= j < kept_tasks(kept_tasks(tasks, first), second).len() ==> (
            #[trigger] kept_tasks(kept_tasks(tasks, first), second)[j]).metrics != tasks[i].metrics,
{
    lemma_kept_contains(tasks, first, i);
    let kept = kept_tasks(tasks, first);
    assert forall|j: int| 0 <= j < kept_tasks(kept, second).len() implies (
    #[trigger] kept_tasks(kept, second)[j]).metrics != tasks[i].metrics by {
        lemma_kept_from(kept, second, j);
        let k = choose|k: int|
            0 <= k < kept.len() && !(#[trigger] kept[k]).seen_done && kept_tasks(kept, second)[j]
                == kept[k].flushed(second[kept[k].metrics]);
        lemma_kept_from(tasks, first, k);
        let a = choose|a: int|
            0 <= a < tasks.len() && !(#[trigger] tasks[a]).seen_done && kept[k]
                == tasks[a].flushed(first[tasks[a].metrics]);
        if a < i {
            assert(tasks[a].metrics != tasks[i].metrics);
        } else if i < a {
            assert(tasks[i].metrics != tasks[a].metrics);
        }
    }
}

/// A task that is still running is never let go.
pub proof fn law_running_task_is_kept(
    tasks: Seq<InProgressTask>,
    table: Map<u64, TaskMetrics>,
    i: int,
)
    requires
        0 <= i < tasks.len(),
        !tasks[i].seen_done,
        !table[tasks[i].metrics].done,
    ensures
        kept_tasks(tasks, table).contains(tasks[i].flushed(table[tasks[i].metrics])),
        !tasks[i].flushed(table[tasks[i].metrics]).seen_done,
{
    lemma_kept_contains(tasks, table, i);
}

/// The sums of a node's counters that tasks add to.
pub open spec fn same_sums(a: NodeCounters, b: NodeCounters) -> bool {
    &&& a.total_polls == b.total_polls
    &&& a.total_stolen_polls == b.total_stolen_polls
    &&& a.total_poll_time_ns == b.total_poll_time_ns
    &&& a.total_poll_cpu_time_ns == b.total_poll_cpu_time_ns
    &&& a.max_poll_time_ns == b.max_poll_time_ns
}

spec fn up_to_date(task: InProgressTask, table: Map<u64, TaskMetrics>) -> bool {
    task.applied == TaskCounters::of(table[task.metrics])
}

proof fn lemma_kept(
    counters: NodeCounters,
    tasks: Seq<InProgressTask>,
    table: Map<u64, TaskMetrics>,
)
    ensures
        forall|i: int|
            0 <= i < kept_tasks(tasks, table).len() ==> up_to_date(
                #[trigger] kept_tasks(tasks, table)[i],
                table,
            ) && table[kept_tasks(tasks, table)[i].metrics].max_poll_time_ns <= fold_tasks(
                counters,
                tasks,
                table,
            ).max_poll_time_ns,
    decreases tasks.len(),
{
    if tasks.len() > 0 {
        let rest = tasks.drop_last();
        lemma_kept(counters, rest, table);
        let kept = kept_tasks(tasks, table);
        let most = fold_tasks(counters, tasks, table).max_poll_time_ns;
        assert(fold_tasks(counters, rest, table).max_poll_time_ns <= most);
        assert forall|i: int| 0 <= i < kept.len() implies up_to_date(#[trigger] kept[i], table)
            && table[kept[i].metrics].max_poll_time_ns <= most by {
            if i < kept_tasks(rest, table).len() {
                assert(kept[i] == kept_tasks(rest, table)[i]);
            } else {
                assert(kept[i] == tasks.last().flushed(table[tasks.last().metrics]));
            }
        }
    }
}

proof fn lemma_nothing_new(
    counters: NodeCounters,
    tasks: Seq<InProgressTask>,
    table: Map<u64, TaskMetrics>,
)
    requires
        forall|i: int|
            0 <= i < tasks.len() ==> up_to_date(#[trigger] tasks[i], table)
                && table[tasks[i].metrics].max_poll_time_ns <= counters.max_poll_time_ns,
    ensures
        same_sums(fold_tasks(counters, tasks, table), counters),
    decreases tasks.len(),
{
    if tasks.len() > 0 {
        let rest = tasks.drop_last();
        assert forall|i: int| 0 <= i < rest.len() implies up_to_date(#[trigger] rest[i], table)
            && table[rest[i].metrics].max_poll_time_ns <= counters.max_poll_time_ns by {
            assert(up_to_date(tasks[i], table));
        }
        lemma_nothing_new(counters, rest, table);
        assert(up_to_date(tasks[tasks.len() - 1], table));
    }
}

/// A flush with nothing new adds nothing: collecting the same tasks again leaves
/// the sums as they are.
pub proof fn law_flush_adds_nothing_twice(
    counters: NodeCounters,
    tasks: Seq<InProgressTask>,
    table: Map<u64, TaskMetrics>,
)
    ensures
        ({
            let first = fold_tasks(not_running(counters), tasks, table);
            let second = fold_tasks(not_running(first), kept_tasks(tasks, table), table);
            same_sums(second, first)
        }),
{
    let first = fold_tasks(not_running(counters), tasks, table);
    lemma_kept(not_running(counters), tasks, table);
    lemma_nothing_new(not_running(first), kept_tasks(tasks, table), table);
}

/// What a pipe carried is collected once: afterwards nothing is left to collect.
pub proof fn law_pipes_are_collected_once(
    graph: GraphMetricsView,
    keys: Seq<u64>,
    pipes: Map<u64, LogicalPipe>,
    table: Map<u64, PipeMetrics>,
    key: u64,
)
    requires
        graph.pipes.contains_key(key),
    ensures
        graph.pipes_collected(keys, pipes, table).pipes.contains_key(key),
        graph.pipes_collected(keys, pipes, table).pipes[key].len() == 0,
{
}

/// Input and output are cumulative: reading them again changes nothing.
pub proof fn law_io_is_read_not_added(
    counters: NodeCounters,
    io: IOMetrics,
    now: u64,
)
    ensures
        counters.with_io(io, now).with_io(io, now) == counters.with_io(io, now),
{
}

/// How many of the tasks are not done.
pub open spec fn running(tasks: Seq<InProgressTask>, table: Map<u64, TaskMetrics>) -> nat
    decreases tasks.len(),
{
    if tasks.len() == 0 {
        0
    } else {
        running(tasks.drop_last(), table) + if table[tasks.last().metrics].done {
            0nat
        } else {
            1
        }
    }
}

proof fn lemma_running_counted(
    counters: NodeCounters,
    tasks: Seq<InProgressTask>,
    table: Map<u64, TaskMetrics>,
)
    requires
        tasks_fit(counters, tasks, table),
    ensures
        fold_tasks(counters, tasks, table).num_running_tasks == counters.num_running_tasks + running(
            tasks,
            table,
        ),
    decreases tasks.len(),
{
    if tasks.len() > 0 {
        lemma_running_counted(counters, tasks.drop_last(), table);
    }
}

proof fn lemma_running_kept(tasks: Seq<InProgressTask>, table: Map<u64, TaskMetrics>)
    requires
        forall|i: int|
            0 <= i < tasks.len() && (#[trigger] tasks[i]).seen_done ==> table[tasks[i].metrics].done,
    ensures
        running(kept_tasks(tasks, table), table) == running(tasks, table),
    decreases tasks.len(),
{
    if tasks.len() > 0 {
        let rest = tasks.drop_last();
        assert forall|i: int|
            0 <= i < rest.len() && (
            #[trigger] rest[i]).seen_done implies table[rest[i].metrics].done by {
            assert(tasks[i].seen_done);
        }
        lemma_running_kept(rest, table);
        assert(tasks[tasks.len() - 1] == tasks.last());
        if !tasks.last().seen_done {
            assert(kept_tasks(tasks, table).drop_last() =~= kept_tasks(rest, table));
        }
    }
}

proof fn lemma_only_running(
    counters: NodeCounters,
    tasks: Seq<InProgressTask>,
    table: Map<u64, TaskMetrics>,
)
    requires
        forall|i: int|
            0 <= i < tasks.len() ==> up_to_date(#[trigger] tasks[i], table)
                && table[tasks[i].metrics].max_poll_time_ns <= counters.max_poll_time_ns,
        counters.num_running_tasks + running(tasks, table) <= u32::MAX,
    ensures
        fold_tasks(counters, tasks, table) == (NodeCounters {
            num_running_tasks: (counters.num_running_tasks + running(tasks, table)) as u32,
            ..counters
        }),
    decreases tasks.len(),
{
    if tasks.len() > 0 {
        let rest = tasks.drop_last();
        assert forall|i: int| 0 <= i < rest.len() implies up_to_date(#[trigger] rest[i], table)
            && table[rest[i].metrics].max_poll_time_ns <= counters.max_poll_time_ns by {
            assert(up_to_date(tasks[i], table));
        }
        lemma_only_running(counters, rest, table);
        assert(up_to_date(tasks[tasks.len() - 1], table));
    }
}

/// The metrics of a node but for what its pipes carried.
spec fn but_pipes(node: NodeMetricsView) -> NodeMetricsView {
    NodeMetricsView {
        counters: NodeCounters {
            morsels_sent: 0,
            rows_sent: 0,
            largest_morsel_sent: 0,
            morsels_received: 0,
            rows_received: 0,
            largest_morsel_received: 0,
            ..node.counters
        },
        ..node
    }
}

proof fn lemma_pipe_keeps(
    nodes: Map<u64, NodeMetricsView>,
    pipe: LogicalPipe,
    metrics: PipeMetrics,
    key: u64,
)
    requires
        nodes.contains_key(key),
        !rivals(pipe.receiver, key),
        !rivals(pipe.sender, key),
    ensures
        with_pipe(nodes, pipe, metrics).contains_key(key),
        but_pipes(with_pipe(nodes, pipe, metrics)[key]) == but_pipes(nodes[key]),
{
    let received = with_receiver(nodes, pipe, metrics);
    assert(received.contains_key(key));
    if key == pipe.receiver {
        assert(received[key] == (NodeMetricsView {
            counters: nodes[key].counters.with_received(metrics),
            ..nodes[key]
        }));
    } else {
        assert(received[key] == nodes[key]);
    }
    assert(but_pipes(received[key]) == but_pipes(nodes[key]));
    let sent = with_pipe(nodes, pipe, metrics);
    if key == pipe.sender {
        assert(sent[key] == (NodeMetricsView {
            counters: received[key].counters.with_sent(metrics),
            ..received[key]
        }));
    } else {
        assert(sent[key] == received[key]);
    }
    assert(but_pipes(sent[key]) == but_pipes(received[key]));
}

proof fn lemma_pipe_all_keeps(
    nodes: Map<u64, NodeMetricsView>,
    pipe: LogicalPipe,
    numbers: Seq<u64>,
    table: Map<u64, PipeMetrics>,
    key: u64,
)
    requires
        nodes.contains_key(key),
        numbers.len() > 0 ==> !rivals(pipe.receiver, key) && !rivals(pipe.sender, key),
    ensures
        with_pipe_all(nodes, pipe, numbers, table).contains_key(key),
        but_pipes(with_pipe_all(nodes, pipe, numbers, table)[key]) == but_pipes(nodes[key]),
    decreases numbers.len(),
{
    if numbers.len() > 0 {
        lemma_pipe_all_keeps(nodes, pipe, numbers.drop_last(), table, key);
        lemma_pipe_keeps(
            with_pipe_all(nodes, pipe, numbers.drop_last(), table),
            pipe,
            table[numbers.last()],
            key,
        );
    }
}

proof fn lemma_pipes_keep(
    nodes: Map<u64, NodeMetricsView>,
    keys: Seq<u64>,
    pending: Map<u64, Seq<u64>>,
    pipes: Map<u64, LogicalPipe>,
    table: Map<u64, PipeMetrics>,
    key: u64,
)
    requires
        nodes.contains_key(key),
        forall|i: int|
            0 <= i < keys.len() && pending[#[trigger] keys[i]].len() > 0 ==> !rivals(
                pipes[keys[i]].receiver,
                key,
            ) && !rivals(pipes[keys[i]].sender, key),
    ensures
        with_pipes(nodes, keys, pending, pipes, table).contains_key(key),
        but_pipes(with_pipes(nodes, keys, pending, pipes, table)[key]) == but_pipes(nodes[key]),
    decreases keys.len(),
{
    if keys.len() > 0 {
        let rest = keys.drop_last();
        assert forall|i: int|
            0 <= i < rest.len() && pending[#[trigger] rest[i]].len() > 0 implies !rivals(
            pipes[rest[i]].receiver,
            key,
        ) && !rivals(pipes[rest[i]].sender, key) by {
            assert(pending[keys[i]].len() > 0);
        }
        lemma_pipes_keep(nodes, rest, pending, pipes, table, key);
        assert(keys[keys.len() - 1] == keys.last());
        lemma_pipe_all_keeps(
            with_pipes(nodes, rest, pending, pipes, table),
            pipes[keys.last()],
            pending[keys.last()],
            table,
            key,
        );
    }
}

proof fn lemma_no_pipes(
    nodes: Map<u64, NodeMetricsView>,
    keys: Seq<u64>,
    pending: Map<u64, Seq<u64>>,
    pipes: Map<u64, LogicalPipe>,
    table: Map<u64, PipeMetrics>,
)
    requires
        forall|i: int| 0 <= i < keys.len() ==> pending[#[trigger] keys[i]].len() == 0,
    ensures
        with_pipes(nodes, keys, pending, pipes, table) == nodes,
    decreases keys.len(),
{
    if keys.len() > 0 {
        let rest = keys.drop_last();
        assert forall|i: int| 0 <= i < rest.len() implies pending[#[trigger] rest[i]].len() == 0 by {
            assert(pending[keys[i]].len() == 0);
        }
        lemma_no_pipes(nodes, rest, pending, pipes, table);
        assert(pending[keys[keys.len() - 1]].len() == 0);
    }
}

/// Whether a flush of the graph collects anything for the node `key`.
pub open spec fn collects(graph: GraphMetricsView, pipes: Map<u64, LogicalPipe>, key: u64) -> bool {
    ||| graph.tasks.contains_key(key)
    ||| graph.occupancy.contains_key(key)
    ||| graph.io.contains_key(key)
    ||| graph.custom.contains_key(key)
    ||| exists|p: u64| #[trigger]
        graph.pipes.contains_key(p) && graph.pipes[p].len() > 0 && (pipes[p].receiver == key
            || pipes[p].sender == key)
}

/// Whether a flush of the graph reads anything of the node `key` itself, not
/// only of its pipes.
pub open spec fn reads(graph: GraphMetricsView, key: u64) -> bool {
    graph.tasks.contains_key(key) || graph.occupancy.contains_key(key) || graph.io.contains_key(
        key,
    ) || graph.custom.contains_key(key)
}

/// The nodes that a flush collects anything for.
pub open spec fn collected(graph: GraphMetricsView, pipes: Map<u64, LogicalPipe>) -> Set<u64> {
    Set::new(|key: u64| collects(graph, pipes, key))
}

/// Whether the key `a` is an older version of its slot than `b`.
#[verifier::opaque]
pub open spec fn precedes(a: u64, b: u64) -> bool {
    slot_of(a) == slot_of(b) && is_older(version_of(a), version_of(b))
}

/// The versions of each slot are in order. Versions wrap around, so three of
/// them can each be older than the next and the last older than the first; but
/// not where all lie within half of their range.
#[verifier::opaque]
pub open spec fn in_order(keys: Set<u64>) -> bool {
    forall|a: u64, b: u64, c: u64| #[trigger]
        keys.contains(a) && #[trigger] keys.contains(b) && #[trigger] keys.contains(c) && precedes(
            a,
            b,
        ) && precedes(b, c) ==> precedes(a, c)
}

/// No other version of a node's slot is collected while the node is read.
spec fn slots_used_once(graph: GraphMetricsView, pipes: Map<u64, LogicalPipe>) -> bool {
    forall|a: u64, b: u64| #[trigger]
        reads(graph, a) && #[trigger] collects(graph, pipes, b) ==> !rivals(a, b)
}

/// No session of the nodes' timers is open.
pub open spec fn is_quiet(graph: GraphMetricsView, io: Map<u64, IOMetrics>) -> bool {
    &&& forall|key: u64| #[trigger]
        graph.occupancy.contains_key(key) ==> graph.occupancy[key].open() == 0
    &&& forall|key: u64| #[trigger]
        graph.io.contains_key(key) ==> io[graph.io[key]].io_timer.open() == 0
}

/// A task that was seen done is still done.
pub open spec fn done_stays_done(graph: GraphMetricsView, tasks: Map<u64, TaskMetrics>) -> bool {
    forall|key: u64, i: int|
        graph.tasks.contains_key(key) && 0 <= i < graph.tasks[key].len() && (
        #[trigger] graph.tasks[key][i]).seen_done ==> tasks[graph.tasks[key][i].metrics].done
}

proof fn lemma_update_in_vain(
    nodes: Map<u64, NodeMetricsView>,
    keys: Set<u64>,
    change: spec_fn(u64, NodeMetricsView) -> NodeMetricsView,
)
    requires
        distinct_slots(nodes.dom()),
        forall|key: u64| #[trigger]
            keys.contains(key) ==> nodes.contains_key(key) && change(key, nodes[key]) == nodes[key],
    ensures
        updated(nodes, keys, change) == nodes,
{
    assert forall|key: u64| nodes.contains_key(key) implies !displaced(keys, key) by {
        assert forall|other: u64| #[trigger] keys.contains(other) implies !rivals(other, key) by {
            assert(nodes.dom().contains(other) && nodes.dom().contains(key));
        }
    }
    assert(updated(nodes, keys, change) =~= nodes);
}

/// What a flush leaves of each part of a node's metrics.
proof fn lemma_flushed_node(
    graph: GraphMetricsView,
    tasks: Map<u64, TaskMetrics>,
    io: Map<u64, IOMetrics>,
    now: u64,
    keys: Seq<u64>,
    pipes: Map<u64, LogicalPipe>,
    table: Map<u64, PipeMetrics>,
    key: u64,
)
    requires
        is_slot_order(graph.pipes.dom(), keys),
        slots_used_once(graph, pipes),
        reads(graph, key),
    ensures
        ({
            let nodes = graph.nodes_collected(tasks, io, now).pipes_collected(
                keys,
                pipes,
                table,
            ).nodes;
            let folded = fold_tasks(
                not_running(node_or_zero(graph.nodes, key).counters),
                graph.tasks[key],
                tasks,
            );
            let timer = graph.occupancy[key];
            let counters = nodes[key].counters;
            &&& nodes.contains_key(key)
            &&& graph.tasks.contains_key(key) ==> counters.num_running_tasks
                == folded.num_running_tasks && counters.max_poll_time_ns == folded.max_poll_time_ns
            &&& graph.occupancy.contains_key(key) ==> counters.poll_occupancy_ns == timer.reading(
                now,
            )
            &&& graph.io.contains_key(key) ==> counters == counters.with_io(io[graph.io[key]], now)
            &&& graph.custom.contains_key(key) ==> nodes[key].custom == graph.custom[key].snapshot()
        }),
{
    let first = graph.tasks_collected(tasks);
    let second = first.occupancy_read(now);
    let third = second.io_read(io, now);
    let fourth = third.custom_read();
    assert(reads(graph, key));
    assert forall|other: u64| #[trigger] graph.tasks.dom().contains(other) implies !rivals(
        other,
        key,
    ) by {
        assert(collects(graph, pipes, other));
    }
    assert forall|other: u64| #[trigger] graph.occupancy.dom().contains(other) implies !rivals(
        other,
        key,
    ) by {
        assert(collects(graph, pipes, other));
    }
    assert forall|other: u64| #[trigger] graph.io.dom().contains(other) implies !rivals(
        other,
        key,
    ) by {
        assert(collects(graph, pipes, other));
    }
    assert forall|other: u64| #[trigger] graph.custom.dom().contains(other) implies !rivals(
        other,
        key,
    ) by {
        assert(collects(graph, pipes, other));
    }
    assert(!displaced(graph.tasks.dom(), key));
    assert(!displaced(graph.occupancy.dom(), key));
    assert(!displaced(graph.io.dom(), key));
    assert(!displaced(graph.custom.dom(), key));
    assert forall|i: int|
        0 <= i < keys.len() && fourth.pipes[#[trigger] keys[i]].len() > 0 implies !rivals(
        pipes[keys[i]].receiver,
        key,
    ) && !rivals(pipes[keys[i]].sender, key) by {
        let p = keys[i];
        assert(keys.contains(p));
        assert(graph.pipes.dom().contains(p));
        assert(graph.pipes.contains_key(p) && graph.pipes[p].len() > 0);
        assert(collects(graph, pipes, pipes[p].receiver));
        assert(collects(graph, pipes, pipes[p].sender));
    }
    lemma_pipes_keep(fourth.nodes, keys, fourth.pipes, pipes, table, key);
    let nodes = with_pipes(fourth.nodes, keys, fourth.pipes, pipes, table);
    assert(but_pipes(nodes[key]) == but_pipes(fourth.nodes[key]));
    let n = nodes[key];
    let d = fourth.nodes[key];
    assert(n.custom == d.custom);
    assert(but_pipes(n).counters.num_running_tasks == d.counters.num_running_tasks);
    assert(but_pipes(n).counters.max_poll_time_ns == d.counters.max_poll_time_ns);
    assert(but_pipes(n).counters.poll_occupancy_ns == d.counters.poll_occupancy_ns);
    assert(but_pipes(n).counters.io_total_active_ns == d.counters.io_total_active_ns);
    assert(but_pipes(n).counters.io_total_bytes_requested == d.counters.io_total_bytes_requested);
    assert(but_pipes(n).counters.io_total_bytes_received == d.counters.io_total_bytes_received);
    assert(but_pipes(n).counters.io_total_bytes_sent == d.counters.io_total_bytes_sent);
}

proof fn lemma_newer(a: u64, b: u64)
    requires
        rivals(a, b),
        !is_older(version_of(a), version_of(b)),
    ensures
        precedes(b, a),
{
    reveal(precedes);
    let x = version_of(a);
    let y = version_of(b);
    assert(x != y);
    if x > y {
        vstd::arithmetic::div_mod::lemma_small_mod((x - y) as nat, 0x1_0000_0000);
        vstd::arithmetic::div_mod::lemma_fundamental_div_mod_converse(
            y - x,
            0x1_0000_0000,
            -1,
            0x1_0000_0000 + y - x,
        );
    } else {
        vstd::arithmetic::div_mod::lemma_small_mod((y - x) as nat, 0x1_0000_0000);
        vstd::arithmetic::div_mod::lemma_fundamental_div_mod_converse(
            x - y,
            0x1_0000_0000,
            -1,
            0x1_0000_0000 + x - y,
        );
    }
}

proof fn lemma_in_order(keys: Set<u64>, a: u64, b: u64, c: u64)
    requires
        in_order(keys),
        keys.contains(a),
        keys.contains(b),
        keys.contains(c),
        precedes(a, b),
        precedes(b, c),
    ensures
        precedes(a, c),
{
    reveal(in_order);
}

proof fn lemma_precedes(a: u64, b: u64)
    requires
        precedes(a, b),
    ensures
        rivals(a, b),
        is_older(version_of(a), version_of(b)),
{
    reveal(precedes);
}

/// `b` is `a` or a newer version of its slot.
spec fn succeeds(b: u64, a: u64) -> bool {
    a == b || precedes(a, b)
}

/// A table over `known` has each of `seen`, or a newer version of it that is one
/// of them too.
#[verifier::opaque]
spec fn keeps_up(known: Set<u64>, seen: Set<u64>) -> bool {
    forall|key: u64| #[trigger] seen.contains(key) ==> has_successor(known, seen, key)
}

spec fn has_successor(known: Set<u64>, seen: Set<u64>, key: u64) -> bool {
    exists|e: u64| #[trigger] known.contains(e) && seen.contains(e) && succeeds(e, key)
}

proof fn lemma_update_keeps_up(
    nodes: Map<u64, NodeMetricsView>,
    keys: Set<u64>,
    change: spec_fn(u64, NodeMetricsView) -> NodeMetricsView,
    seen: Set<u64>,
    all: Set<u64>,
)
    requires
        keeps_up(nodes.dom(), seen),
        admits_all(nodes, keys),
        distinct_slots(keys),
        seen.subset_of(all),
        keys.subset_of(all),
        in_order(all),
    ensures
        keeps_up(updated(nodes, keys, change).dom(), seen.union(keys)),
{
    reveal(keeps_up);
    let after = updated(nodes, keys, change).dom();
    let more = seen.union(keys);
    assert forall|key: u64| #[trigger] more.contains(key) implies has_successor(
        after,
        more,
        key,
    ) by {
        if keys.contains(key) {
            assert(after.contains(key));
        } else {
            assert(seen.contains(key));
            assert(has_successor(nodes.dom(), seen, key));
            let e = choose|e: u64| #[trigger]
                nodes.dom().contains(e) && seen.contains(e) && succeeds(e, key);
            if after.contains(e) {
                assert(more.contains(e));
            } else {
                assert(displaced(keys, e));
                let other = choose|other: u64| #[trigger] keys.contains(other) && rivals(other, e);
                assert(admits(nodes.dom(), other));
                assert(nodes.dom().contains(e) && rivals(other, e));
                lemma_newer(other, e);
                if key != e {
                    lemma_in_order(all, key, e, other);
                }
                assert(after.contains(other) && more.contains(other));
            }
        }
    }
}

proof fn lemma_entry_keeps_up(
    nodes: Map<u64, NodeMetricsView>,
    key: u64,
    node: NodeMetricsView,
    seen: Set<u64>,
    all: Set<u64>,
)
    requires
        keeps_up(nodes.dom(), seen),
        admits(nodes.dom(), key),
        seen.subset_of(all),
        all.contains(key),
        in_order(all),
    ensures
        keeps_up(entered(nodes, key, node).dom(), seen.insert(key)),
        is_newest(seen, key),
{
    reveal(keeps_up);
    reveal(is_newest);
    let after = entered(nodes, key, node).dom();
    let more = seen.insert(key);
    assert(after.contains(key));
    assert forall|k: u64| #[trigger] seen.contains(k) implies has_successor(after, more, k) && (
    slot_of(k) == slot_of(key) ==> succeeds(key, k)) by {
        assert(has_successor(nodes.dom(), seen, k));
        let e = choose|e: u64| #[trigger]
            nodes.dom().contains(e) && seen.contains(e) && succeeds(e, k);
        if k != e {
            lemma_precedes(k, e);
        }
        if slot_of(e) != slot_of(key) || e == key {
            assert(after.contains(e) && more.contains(e));
        } else {
            assert(nodes.dom().contains(e) && rivals(key, e));
            lemma_newer(key, e);
            if k != e {
                lemma_in_order(all, k, e, key);
            }
            assert(after.contains(key) && more.contains(key));
        }
    }
    assert forall|k: u64| #[trigger] more.contains(k) implies has_successor(after, more, k) by {
        if k == key {
            assert(after.contains(key) && more.contains(key));
        } else {
            assert(seen.contains(k));
        }
    }
}

/// `key` is as new as any of `seen` in its slot.
#[verifier::opaque]
spec fn is_newest(seen: Set<u64>, key: u64) -> bool {
    forall|k: u64| #[trigger] seen.contains(k) && slot_of(k) == slot_of(key) ==> succeeds(key, k)
}

proof fn lemma_ends_keep_up(
    nodes: Map<u64, NodeMetricsView>,
    pipe: LogicalPipe,
    metrics: PipeMetrics,
    seen: Set<u64>,
    all: Set<u64>,
)
    requires
        keeps_up(nodes.dom(), seen),
        pipe_fits(nodes, pipe, metrics),
        seen.subset_of(all),
        all.contains(pipe.receiver),
        all.contains(pipe.sender),
        in_order(all),
    ensures
        keeps_up(
            with_pipe(nodes, pipe, metrics).dom(),
            seen.insert(pipe.receiver).insert(pipe.sender),
        ),
        is_newest(seen, pipe.receiver),
        is_newest(seen, pipe.sender),
{
    let receiver = node_or_zero(nodes, pipe.receiver);
    lemma_entry_keeps_up(
        nodes,
        pipe.receiver,
        NodeMetricsView { counters: receiver.counters.with_received(metrics), ..receiver },
        seen,
        all,
    );
    let received = with_receiver(nodes, pipe, metrics);
    let sender = node_or_zero(received, pipe.sender);
    lemma_entry_keeps_up(
        received,
        pipe.sender,
        NodeMetricsView { counters: sender.counters.with_sent(metrics), ..sender },
        seen.insert(pipe.receiver),
        all,
    );
    assert(is_newest(seen, pipe.sender)) by {
        reveal(is_newest);
        assert forall|k: u64| #[trigger]
            seen.contains(k) && slot_of(k) == slot_of(pipe.sender) implies succeeds(
            pipe.sender,
            k,
        ) by {
            assert(seen.insert(pipe.receiver).contains(k));
        }
    }
}

proof fn lemma_pipe_keeps_up(
    nodes: Map<u64, NodeMetricsView>,
    pipe: LogicalPipe,
    numbers: Seq<u64>,
    table: Map<u64, PipeMetrics>,
    seen: Set<u64>,
    all: Set<u64>,
)
    requires
        keeps_up(nodes.dom(), seen),
        pipe_all_fits(nodes, pipe, numbers, table),
        seen.subset_of(all),
        all.contains(pipe.receiver),
        all.contains(pipe.sender),
        in_order(all),
        numbers.len() > 0,
    ensures
        keeps_up(
            with_pipe_all(nodes, pipe, numbers, table).dom(),
            seen.insert(pipe.receiver).insert(pipe.sender),
        ),
        is_newest(seen, pipe.receiver),
        is_newest(seen, pipe.sender),
    decreases numbers.len(),
{
    let rest = numbers.drop_last();
    let before = with_pipe_all(nodes, pipe, rest, table);
    let both = seen.insert(pipe.receiver).insert(pipe.sender);
    let metrics = table[numbers.last()];
    if rest.len() == 0 {
        lemma_ends_keep_up(nodes, pipe, metrics, seen, all);
    } else {
        lemma_pipe_keeps_up(nodes, pipe, rest, table, seen, all);
        lemma_ends_keep_up(before, pipe, metrics, both, all);
        assert(both.insert(pipe.receiver).insert(pipe.sender) =~= both);
    }
}

/// The ends of the pipes `keys` that carried anything.
spec fn ends_of(keys: Seq<u64>, pending: Map<u64, Seq<u64>>, pipes: Map<u64, LogicalPipe>) -> Set<
    u64,
>
    decreases keys.len(),
{
    if keys.len() == 0 {
        Set::empty()
    } else if pending[keys.last()].len() > 0 {
        ends_of(keys.drop_last(), pending, pipes).insert(pipes[keys.last()].receiver).insert(
            pipes[keys.last()].sender,
        )
    } else {
        ends_of(keys.drop_last(), pending, pipes)
    }
}

proof fn lemma_ends(keys: Seq<u64>, pending: Map<u64, Seq<u64>>, pipes: Map<u64, LogicalPipe>)
    ensures
        forall|i: int|
            0 <= i < keys.len() && pending[#[trigger] keys[i]].len() > 0 ==> ends_of(
                keys,
                pending,
                pipes,
            ).contains(pipes[keys[i]].receiver) && ends_of(keys, pending, pipes).contains(
                pipes[keys[i]].sender,
            ),
    decreases keys.len(),
{
    if keys.len() > 0 {
        let rest = keys.drop_last();
        lemma_ends(rest, pending, pipes);
        assert forall|i: int| 0 <= i < keys.len() && pending[#[trigger] keys[i]].len() > 0 implies ends_of(
            keys,
            pending,
            pipes,
        ).contains(pipes[keys[i]].receiver) && ends_of(keys, pending, pipes).contains(
            pipes[keys[i]].sender,
        ) by {
            if i < rest.len() {
                assert(rest[i] == keys[i]);
            }
        }
    }
}

proof fn lemma_pipes_keep_up(
    nodes: Map<u64, NodeMetricsView>,
    keys: Seq<u64>,
    pending: Map<u64, Seq<u64>>,
    pipes: Map<u64, LogicalPipe>,
    table: Map<u64, PipeMetrics>,
    seen: Set<u64>,
    all: Set<u64>,
)
    requires
        keeps_up(nodes.dom(), seen),
        pipes_fit(nodes, keys, pending, pipes, table),
        seen.subset_of(all),
        in_order(all),
        forall|i: int|
            0 <= i < keys.len() && pending[#[trigger] keys[i]].len() > 0 ==> all.contains(
                pipes[keys[i]].receiver,
            ) && all.contains(pipes[keys[i]].sender),
    ensures
        ends_of(keys, pending, pipes).subset_of(all),
        keeps_up(
            with_pipes(nodes, keys, pending, pipes, table).dom(),
            seen.union(ends_of(keys, pending, pipes)),
        ),
        forall|b: u64| #[trigger]
            ends_of(keys, pending, pipes).contains(b) ==> is_newest(seen, b),
    decreases keys.len(),
{
    let ends = ends_of(keys, pending, pipes);
    if keys.len() == 0 {
        assert(seen.union(ends) =~= seen);
    } else {
        let rest = keys.drop_last();
        let earlier = ends_of(rest, pending, pipes);
        assert forall|i: int| 0 <= i < rest.len() && pending[#[trigger] rest[i]].len() > 0 implies all.contains(
            pipes[rest[i]].receiver,
        ) && all.contains(pipes[rest[i]].sender) by {
            assert(keys[i] == rest[i]);
        }
        lemma_pipes_keep_up(nodes, rest, pending, pipes, table, seen, all);
        let before = with_pipes(nodes, rest, pending, pipes, table);
        let last = keys.last();
        assert(keys[keys.len() - 1] == last);
        if pending[last].len() > 0 {
            lemma_pipe_keeps_up(
                before,
                pipes[last],
                pending[last],
                table,
                seen.union(earlier),
                all,
            );
            assert(seen.union(earlier).insert(pipes[last].receiver).insert(pipes[last].sender)
                =~= seen.union(ends));
            assert forall|b: u64| #[trigger] ends.contains(b) implies is_newest(seen, b) by {
                if b != pipes[last].receiver && b != pipes[last].sender {
                    assert(earlier.contains(b));
                } else {
                    assert(is_newest(seen.union(earlier), b));
                    reveal(is_newest);
                    assert forall|k: u64| #[trigger]
                        seen.contains(k) && slot_of(k) == slot_of(b) implies succeeds(b, k) by {
                        assert(seen.union(earlier).contains(k));
                    }
                }
            }
        }
    }
}

/// Where the table takes the keys and keeps up with them, it has them all.
proof fn lemma_all_known(known: Set<u64>, seen: Set<u64>, key: u64)
    requires
        keeps_up(known, seen),
        seen.contains(key),
        admits(known, key),
    ensures
        known.contains(key),
{
    reveal(keeps_up);
    assert(has_successor(known, seen, key));
    let e = choose|e: u64| #[trigger] known.contains(e) && seen.contains(e) && succeeds(e, key);
    if e != key {
        lemma_precedes(key, e);
        assert(known.contains(e) && rivals(key, e));
    }
}

proof fn lemma_update_adds_none(
    nodes: Map<u64, NodeMetricsView>,
    keys: Set<u64>,
    change: spec_fn(u64, NodeMetricsView) -> NodeMetricsView,
)
    requires
        distinct_slots(nodes.dom()),
        keys.subset_of(nodes.dom()),
    ensures
        updated(nodes, keys, change).dom() == nodes.dom(),
{
    assert forall|key: u64| nodes.dom().contains(key) implies !displaced(keys, key) by {
        assert forall|other: u64| #[trigger] keys.contains(other) implies !rivals(other, key) by {
            assert(nodes.dom().contains(other));
        }
    }
    assert(updated(nodes, keys, change).dom() =~= nodes.dom());
}

/// Two flushes in a row find no node that was displaced.
proof fn lemma_slots_used_once(
    graph: GraphMetricsView,
    tasks: Map<u64, TaskMetrics>,
    io: Map<u64, IOMetrics>,
    pipes: Map<u64, LogicalPipe>,
    table: Map<u64, PipeMetrics>,
    now: u64,
    keys: Seq<u64>,
    later: u64,
)
    requires
        graph.wf(),
        graph.in_range(tasks, io, now, pipes, table),
        is_slot_order(graph.pipes.dom(), keys),
        ({
            let first = graph.nodes_collected(tasks, io, now).pipes_collected(keys, pipes, table);
            first.wf() && first.in_range(tasks, io, later, pipes, table)
        }),
        in_order(collected(graph, pipes)),
    ensures
        slots_used_once(graph, pipes),
{
    let all = collected(graph, pipes);
    let a = graph.tasks_collected(tasks);
    let b = a.occupancy_read(now);
    let c = b.io_read(io, now);
    let d = c.custom_read();
    let e = d.pipes_collected(keys, pipes, table);
    let seen0 = Set::<u64>::empty();
    let seen1 = seen0.union(graph.tasks.dom());
    let seen2 = seen1.union(graph.occupancy.dom());
    let seen3 = seen2.union(graph.io.dom());
    let seen4 = seen3.union(graph.custom.dom());
    assert(forall|key: u64| #[trigger] seen4.contains(key) <==> reads(graph, key));
    assert(seen4.subset_of(all));
    assert(keeps_up(graph.nodes.dom(), seen0)) by {
        reveal(keeps_up);
    }
    lemma_update_keeps_up(
        graph.nodes,
        graph.tasks.dom(),
        |key: u64, node: NodeMetricsView| with_tasks(node, graph.tasks[key], tasks),
        seen0,
        all,
    );
    lemma_update_keeps_up(
        a.nodes,
        a.occupancy.dom(),
        |key: u64, node: NodeMetricsView| with_occupancy(node, a.occupancy[key], now),
        seen1,
        all,
    );
    lemma_update_keeps_up(
        b.nodes,
        b.io.dom(),
        |key: u64, node: NodeMetricsView| with_io(node, io[b.io[key]], now),
        seen2,
        all,
    );
    lemma_update_keeps_up(
        c.nodes,
        c.custom.dom(),
        |key: u64, node: NodeMetricsView| with_custom(node, c.custom[key]),
        seen3,
        all,
    );
    let ends = ends_of(keys, d.pipes, pipes);
    assert forall|i: int| 0 <= i < keys.len() && d.pipes[#[trigger] keys[i]].len() > 0 implies all.contains(
        pipes[keys[i]].receiver,
    ) && all.contains(pipes[keys[i]].sender) by {
        assert(keys.contains(keys[i]));
        assert(graph.pipes.dom().contains(keys[i]));
        assert(graph.pipes.contains_key(keys[i]));
        assert(collects(graph, pipes, pipes[keys[i]].receiver));
        assert(collects(graph, pipes, pipes[keys[i]].sender));
    }
    assert(d.pipes == graph.pipes);
    assert(pipes_fit(d.nodes, keys, d.pipes, pipes, table));
    lemma_pipes_keep_up(d.nodes, keys, d.pipes, pipes, table, seen4, all);
    lemma_ends(keys, d.pipes, pipes);
    let seen = seen4.union(ends);
    let known = e.nodes.dom();
    assert(keeps_up(known, seen));

    assert(e.tasks.dom() =~= graph.tasks.dom());
    assert(e.custom.dom() =~= graph.custom.dom());
    assert forall|key: u64| graph.tasks.dom().contains(key) implies known.contains(key) by {
        assert(e.tasks.dom().contains(key));
        lemma_all_known(known, seen, key);
    }
    lemma_update_adds_none(
        e.nodes,
        e.tasks.dom(),
        |key: u64, node: NodeMetricsView| with_tasks(node, e.tasks[key], tasks),
    );
    let a2 = e.tasks_collected(tasks);
    assert(a2.nodes.dom() == known);
    assert forall|key: u64| graph.occupancy.dom().contains(key) implies known.contains(key) by {
        assert(a2.occupancy.dom().contains(key));
        lemma_all_known(known, seen, key);
    }
    lemma_update_adds_none(
        a2.nodes,
        a2.occupancy.dom(),
        |key: u64, node: NodeMetricsView| with_occupancy(node, a2.occupancy[key], later),
    );
    let b2 = a2.occupancy_read(later);
    assert(b2.nodes.dom() == known);
    assert forall|key: u64| graph.io.dom().contains(key) implies known.contains(key) by {
        assert(b2.io.dom().contains(key));
        lemma_all_known(known, seen, key);
    }
    lemma_update_adds_none(
        b2.nodes,
        b2.io.dom(),
        |key: u64, node: NodeMetricsView| with_io(node, io[b2.io[key]], later),
    );
    let c2 = b2.io_read(io, later);
    assert(c2.nodes.dom() == known);
    assert forall|key: u64| graph.custom.dom().contains(key) implies known.contains(key) by {
        assert(c2.custom.dom().contains(key));
        lemma_all_known(known, seen, key);
    }
    assert forall|x: u64, y: u64| #[trigger]
        reads(graph, x) && #[trigger] collects(graph, pipes, y) implies !rivals(x, y) by {
        assert(seen4.contains(x) && seen.contains(x));
        assert(known.contains(x));
        if rivals(x, y) {
            if reads(graph, y) {
                assert(known.contains(y));
            } else {
                let p = choose|p: u64| #[trigger]
                    graph.pipes.contains_key(p) && graph.pipes[p].len() > 0 && (pipes[p].receiver
                        == y || pipes[p].sender == y);
                assert(graph.pipes.dom().contains(p));
                let i = keys.index_of(p);
                assert(keys[i] == p);
                assert(ends.contains(y));
                assert(succeeds(y, x)) by {
                    reveal(is_newest);
                }
                assert(seen.contains(y));
                assert(has_successor(known, seen, y)) by {
                    reveal(keeps_up);
                }
                let z = choose|z: u64| #[trigger]
                    known.contains(z) && seen.contains(z) && succeeds(z, y);
                if z != y {
                    lemma_precedes(y, z);
                }
                assert(!rivals(x, z));
                assert(z == x);
                lemma_in_order(all, x, y, x);
                lemma_precedes(x, x);
            }
        }
    }
}

/// A flush with nothing new changes no node: where nothing happened since the
/// last flush and no timer runs, a second one leaves every field of every
/// node's metrics as it was. (Versions of a slot that go round in a circle
/// would keep displacing each other.)
pub proof fn law_second_flush_changes_no_node(
    graph: GraphMetricsView,
    tasks: Map<u64, TaskMetrics>,
    io: Map<u64, IOMetrics>,
    pipes: Map<u64, LogicalPipe>,
    pipe_metrics: Map<u64, PipeMetrics>,
    now: u64,
    keys: Seq<u64>,
    later: u64,
    keys_later: Seq<u64>,
)
    requires
        graph.wf(),
        graph.in_range(tasks, io, now, pipes, pipe_metrics),
        is_slot_order(graph.pipes.dom(), keys),
        is_slot_order(graph.pipes.dom(), keys_later),
        ({
            let first = graph.nodes_collected(tasks, io, now).pipes_collected(
                keys,
                pipes,
                pipe_metrics,
            );
            first.wf() && first.in_range(tasks, io, later, pipes, pipe_metrics)
        }),
        in_order(collected(graph, pipes)),
        done_stays_done(graph, tasks),
        is_quiet(graph, io),
    ensures
        ({
            let first = graph.nodes_collected(tasks, io, now).pipes_collected(
                keys,
                pipes,
                pipe_metrics,
            );
            let second = first.nodes_collected(tasks, io, later).pipes_collected(
                keys_later,
                pipes,
                pipe_metrics,
            );
            second.nodes == first.nodes
        }),
{
    let first = graph.nodes_collected(tasks, io, now).pipes_collected(keys, pipes, pipe_metrics);
    let nodes = first.nodes;
    lemma_slots_used_once(graph, tasks, io, pipes, pipe_metrics, now, keys, later);
    assert(first.tasks.dom() =~= graph.tasks.dom());
    assert(first.custom.dom() =~= graph.custom.dom());
    let change_tasks = |key: u64, node: NodeMetricsView|
        with_tasks(node, first.tasks[key], tasks);
    assert forall|key: u64| #[trigger] first.tasks.dom().contains(key) implies nodes.contains_key(
        key,
    ) && change_tasks(key, nodes[key]) == nodes[key] by {
        lemma_flushed_node(graph, tasks, io, now, keys, pipes, pipe_metrics, key);
        let before = not_running(node_or_zero(graph.nodes, key).counters);
        let all = graph.tasks[key];
        let counters = nodes[key].counters;
        assert(graph.tasks.contains_key(key));
        assert forall|i: int|
            0 <= i < all.len() && (#[trigger] all[i]).seen_done implies tasks[all[i].metrics].done by {
            assert(graph.tasks[key][i].seen_done);
        }
        lemma_running_counted(before, all, tasks);
        lemma_running_kept(all, tasks);
        lemma_kept(before, all, tasks);
        lemma_only_running(not_running(counters), kept_tasks(all, tasks), tasks);
        assert(first.tasks[key] == kept_tasks(all, tasks));
        assert(fold_tasks(not_running(counters), kept_tasks(all, tasks), tasks) == counters);
    }
    lemma_update_in_vain(nodes, first.tasks.dom(), change_tasks);
    let a = first.tasks_collected(tasks);
    assert(a.nodes == nodes);
    let change_occupancy = |key: u64, node: NodeMetricsView|
        with_occupancy(node, a.occupancy[key], later);
    assert forall|key: u64| #[trigger] a.occupancy.dom().contains(key) implies nodes.contains_key(
        key,
    ) && change_occupancy(key, nodes[key]) == nodes[key] by {
        lemma_flushed_node(graph, tasks, io, now, keys, pipes, pipe_metrics, key);
        assert(graph.occupancy.contains_key(key));
        graph.occupancy[key].law_idle_timer_stands_still(now, later);
    }
    lemma_update_in_vain(nodes, a.occupancy.dom(), change_occupancy);
    let b = a.occupancy_read(later);
    assert(b.nodes == nodes);
    let change_io = |key: u64, node: NodeMetricsView|
        with_io(node, io[b.io[key]], later);
    assert forall|key: u64| #[trigger] b.io.dom().contains(key) implies nodes.contains_key(key)
        && change_io(key, nodes[key]) == nodes[key] by {
        lemma_flushed_node(graph, tasks, io, now, keys, pipes, pipe_metrics, key);
        assert(graph.io.contains_key(key));
        io[graph.io[key]].io_timer.law_idle_timer_stands_still(now, later);
    }
    lemma_update_in_vain(nodes, b.io.dom(), change_io);
    let c = b.io_read(io, later);
    assert(c.nodes == nodes);
    let change_custom = |key: u64, node: NodeMetricsView|
        with_custom(node, c.custom[key]);
    assert forall|key: u64| #[trigger] c.custom.dom().contains(key) implies nodes.contains_key(key)
        && change_custom(key, nodes[key]) == nodes[key] by {
        lemma_flushed_node(graph, tasks, io, now, keys, pipes, pipe_metrics, key);
        assert(graph.custom.contains_key(key));
        let custom = graph.custom[key];
        assert(c.custom[key] == custom.compact());
        assert forall|m: int| 0 <= m < custom.metrics.len() implies (
        #[trigger] custom.compact().snapshot()[m]) == custom.snapshot()[m] by {
            law_snapshot_is_repeatable(custom.metrics[m]);
        }
        assert(custom.compact().snapshot() =~= custom.snapshot());
    }
    lemma_update_in_vain(nodes, c.custom.dom(), change_custom);
    let d = c.custom_read();
    assert(d.nodes == nodes);
    assert forall|i: int| 0 <= i < keys_later.len() implies d.pipes[#[trigger] keys_later[i]].len()
        == 0 by {
        assert(keys_later.contains(keys_later[i]));
        assert(graph.pipes.dom().contains(keys_later[i]));
    }
    lemma_no_pipes(nodes, keys_later, d.pipes, pipes, pipe_metrics);
}

} // verus!
