//! What a flush makes of everything that was collected: nothing is lost, and
//! nothing is counted twice.

use crate::executor::task::{TaskMetrics, TaskMetricsTable};
use crate::io_metrics::IOMetricsTable;
use crate::metrics::graph::{GraphMetrics, LogicalPipe, LogicalPipes, PipeMetricsTable};
use crate::metrics::node::{InProgressTask, NodeCounters, PipeMetrics};
use vstd::prelude::*;

#[allow(unused_imports)]
use crate::io_metrics::IOMetrics;
#[allow(unused_imports)]
use crate::keys::{is_slot_order, lemma_slot_order_unique, rivals, slot_of};
#[allow(unused_imports)]
use crate::metrics::graph::{displaced, fold_tasks, node_or_zero, not_running, pipe_all_fits, pipe_fits, pipes_fit, tasks_fit, updated, with_custom, with_io, with_occupancy, with_pipe, with_pipe_all, with_pipes, with_receiver, with_tasks, GraphMetricsView};
#[allow(unused_imports)]
use crate::metrics::graph_laws::{collects, law_flush_keeps_what_it_has_not_seen_done};
#[allow(unused_imports)]
use crate::metrics::node::{NodeMetricsView, TaskCounters};

verus! {

/// What each of the tasks did since it was last read, added up.
pub open spec fn sum_of_tasks(
    tasks: Seq<InProgressTask>,
    table: Map<u64, TaskMetrics>,
    counter: spec_fn(TaskMetrics) -> u64,
    read_before: spec_fn(InProgressTask) -> u64,
) -> int
    decreases tasks.len(),
{
    if tasks.len() == 0 {
        0
    } else {
        sum_of_tasks(tasks.drop_last(), table, counter, read_before) + counter(
            table[tasks.last().metrics],
        ) - read_before(tasks.last())
    }
}

/// How many of the tasks are not done.
pub open spec fn number_not_done(tasks: Seq<InProgressTask>, table: Map<u64, TaskMetrics>) -> int
    decreases tasks.len(),
{
    if tasks.len() == 0 {
        0
    } else {
        number_not_done(tasks.drop_last(), table) + if table[tasks.last().metrics].done {
            0int
        } else {
            1
        }
    }
}

/// A counter of what pipes carried, added up.
pub open spec fn sum_of_pipes(
    carried: Seq<PipeMetrics>,
    counter: spec_fn(PipeMetrics) -> u64,
) -> int
    decreases carried.len(),
{
    if carried.len() == 0 {
        0
    } else {
        sum_of_pipes(carried.drop_last(), counter) + counter(carried.last())
    }
}

/// `largest` is the largest of `first` and of a counter of what pipes carried.
pub open spec fn is_largest(
    largest: u64,
    first: u64,
    carried: Seq<PipeMetrics>,
    counter: spec_fn(PipeMetrics) -> u64,
) -> bool {
    &&& largest >= first
    &&& forall|i: int| 0 <= i < carried.len() ==> largest >= counter(#[trigger] carried[i])
    &&& largest == first || exists|i: int|
        0 <= i < carried.len() && largest == counter(#[trigger] carried[i])
}

/// What was collected of the pipes `keys` that have the node at one end.
pub open spec fn carried_by(
    keys: Seq<u64>,
    pending: Map<u64, Seq<u64>>,
    pipes: Map<u64, LogicalPipe>,
    table: Map<u64, PipeMetrics>,
    ends_at: spec_fn(LogicalPipe) -> bool,
) -> Seq<PipeMetrics>
    decreases keys.len(),
{
    if keys.len() == 0 {
        Seq::empty()
    } else {
        carried_by(keys.drop_last(), pending, pipes, table, ends_at) + if ends_at(
            pipes[keys.last()],
        ) {
            pending[keys.last()].map_values(|number: u64| table[number])
        } else {
            Seq::empty()
        }
    }
}

/// What a node sent and received through pipes.
spec fn after_carrying(
    before: NodeMetricsView,
    received: Seq<PipeMetrics>,
    sent: Seq<PipeMetrics>,
    after: NodeMetricsView,
) -> bool {
    let b = before.counters;
    let a = after.counters;
    &&& a.morsels_received == b.morsels_received + sum_of_pipes(
        received,
        |p: PipeMetrics| p.morsels_received,
    )
    &&& a.rows_received == b.rows_received + sum_of_pipes(
        received,
        |p: PipeMetrics| p.rows_received,
    )
    &&& is_largest(
        a.largest_morsel_received,
        b.largest_morsel_received,
        received,
        |p: PipeMetrics| p.largest_morsel_received,
    )
    &&& a.morsels_sent == b.morsels_sent + sum_of_pipes(sent, |p: PipeMetrics| p.morsels_sent)
    &&& a.rows_sent == b.rows_sent + sum_of_pipes(sent, |p: PipeMetrics| p.rows_sent)
    &&& is_largest(
        a.largest_morsel_sent,
        b.largest_morsel_sent,
        sent,
        |p: PipeMetrics| p.largest_morsel_sent,
    )
    &&& after == (NodeMetricsView {
        counters: NodeCounters {
            morsels_received: a.morsels_received,
            rows_received: a.rows_received,
            largest_morsel_received: a.largest_morsel_received,
            morsels_sent: a.morsels_sent,
            rows_sent: a.rows_sent,
            largest_morsel_sent: a.largest_morsel_sent,
            ..b
        },
        ..before
    })
}

proof fn lemma_sum_push(
    carried: Seq<PipeMetrics>,
    one: PipeMetrics,
    counter: spec_fn(PipeMetrics) -> u64,
)
    ensures
        sum_of_pipes(carried.push(one), counter) == sum_of_pipes(carried, counter) + counter(one),
{
    assert(carried.push(one).drop_last() =~= carried);
}

proof fn lemma_largest_push(
    before: u64,
    first: u64,
    carried: Seq<PipeMetrics>,
    one: PipeMetrics,
    counter: spec_fn(PipeMetrics) -> u64,
    after: u64,
)
    requires
        is_largest(before, first, carried, counter),
        after >= before,
        after >= counter(one),
        after == before || after == counter(one),
    ensures
        is_largest(after, first, carried.push(one), counter),
{
    let more = carried.push(one);
    assert forall|i: int| 0 <= i < more.len() implies after >= counter(#[trigger] more[i]) by {
        if i < carried.len() {
            assert(before >= counter(carried[i]));
        }
    }
    if after != first {
        if after == counter(one) {
            assert(after == counter(more[carried.len() as int]));
        } else {
            let i = choose|i: int| 0 <= i < carried.len() && before == counter(#[trigger] carried[i]);
            assert(after == counter(more[i]));
        }
    }
}

/// One more metrics of a pipe, at whichever of its ends the node is.
proof fn lemma_one_more(
    nodes: Map<u64, NodeMetricsView>,
    pipe: LogicalPipe,
    metrics: PipeMetrics,
    key: u64,
    before: NodeMetricsView,
    received: Seq<PipeMetrics>,
    sent: Seq<PipeMetrics>,
)
    requires
        pipe_fits(nodes, pipe, metrics),
        !rivals(pipe.receiver, key),
        !rivals(pipe.sender, key),
        after_carrying(before, received, sent, node_or_zero(nodes, key)),
    ensures
        after_carrying(
            before,
            if pipe.receiver == key {
                received.push(metrics)
            } else {
                received
            },
            if pipe.sender == key {
                sent.push(metrics)
            } else {
                sent
            },
            node_or_zero(with_pipe(nodes, pipe, metrics), key),
        ),
        nodes.contains_key(key) || pipe.receiver == key || pipe.sender == key <==> with_pipe(
            nodes,
            pipe,
            metrics,
        ).contains_key(key),
{
    let n0 = node_or_zero(nodes, key);
    let middle = with_receiver(nodes, pipe, metrics);
    let n1 = node_or_zero(middle, key);
    let n2 = node_or_zero(with_pipe(nodes, pipe, metrics), key);
    let more_received = if pipe.receiver == key {
        received.push(metrics)
    } else {
        received
    };
    if pipe.receiver == key {
        assert(n1 == (NodeMetricsView {
            counters: n0.counters.with_received(metrics),
            ..n0
        }));
        lemma_sum_push(received, metrics, |p: PipeMetrics| p.morsels_received);
        lemma_sum_push(received, metrics, |p: PipeMetrics| p.rows_received);
        lemma_largest_push(
            n0.counters.largest_morsel_received,
            before.counters.largest_morsel_received,
            received,
            metrics,
            |p: PipeMetrics| p.largest_morsel_received,
            n1.counters.largest_morsel_received,
        );
    } else {
        assert(middle.contains_key(key) == nodes.contains_key(key));
        assert(n1 == n0);
    }
    assert(after_carrying(before, more_received, sent, n1));
    if pipe.sender == key {
        assert(n2 == (NodeMetricsView { counters: n1.counters.with_sent(metrics), ..n1 }));
        lemma_sum_push(sent, metrics, |p: PipeMetrics| p.morsels_sent);
        lemma_sum_push(sent, metrics, |p: PipeMetrics| p.rows_sent);
        lemma_largest_push(
            n1.counters.largest_morsel_sent,
            before.counters.largest_morsel_sent,
            sent,
            metrics,
            |p: PipeMetrics| p.largest_morsel_sent,
            n2.counters.largest_morsel_sent,
        );
    } else {
        assert(n2 == n1);
    }
}

spec fn joined(carried: Seq<PipeMetrics>, here: bool, more: Seq<PipeMetrics>) -> Seq<PipeMetrics> {
    carried + if here {
        more
    } else {
        Seq::empty()
    }
}

proof fn lemma_pipe_carried(
    nodes: Map<u64, NodeMetricsView>,
    pipe: LogicalPipe,
    numbers: Seq<u64>,
    table: Map<u64, PipeMetrics>,
    key: u64,
    before: NodeMetricsView,
    received: Seq<PipeMetrics>,
    sent: Seq<PipeMetrics>,
)
    requires
        pipe_all_fits(nodes, pipe, numbers, table),
        numbers.len() > 0 ==> !rivals(pipe.receiver, key) && !rivals(pipe.sender, key),
        after_carrying(before, received, sent, node_or_zero(nodes, key)),
    ensures
        ({
            let more = numbers.map_values(|number: u64| table[number]);
            after_carrying(
                before,
                joined(received, pipe.receiver == key, more),
                joined(sent, pipe.sender == key, more),
                node_or_zero(with_pipe_all(nodes, pipe, numbers, table), key),
            )
        }),
        nodes.contains_key(key) || numbers.len() > 0 && (pipe.receiver == key || pipe.sender
            == key) <==> with_pipe_all(nodes, pipe, numbers, table).contains_key(key),
    decreases numbers.len(),
{
    let look = |number: u64| table[number];
    let more = numbers.map_values(look);
    if numbers.len() == 0 {
        assert(joined(received, pipe.receiver == key, more) =~= received);
        assert(joined(sent, pipe.sender == key, more) =~= sent);
    } else {
        let rest = numbers.drop_last();
        let fewer = rest.map_values(look);
        lemma_pipe_carried(nodes, pipe, rest, table, key, before, received, sent);
        let one = table[numbers.last()];
        lemma_one_more(
            with_pipe_all(nodes, pipe, rest, table),
            pipe,
            one,
            key,
            before,
            joined(received, pipe.receiver == key, fewer),
            joined(sent, pipe.sender == key, fewer),
        );
        assert(more =~= fewer.push(one));
        if pipe.receiver == key {
            assert(joined(received, true, fewer).push(one) =~= joined(received, true, more));
        } else {
            assert(joined(received, false, fewer) =~= joined(received, false, more));
        }
        if pipe.sender == key {
            assert(joined(sent, true, fewer).push(one) =~= joined(sent, true, more));
        } else {
            assert(joined(sent, false, fewer) =~= joined(sent, false, more));
        }
    }
}

proof fn lemma_pipes_carried(
    nodes: Map<u64, NodeMetricsView>,
    keys: Seq<u64>,
    pending: Map<u64, Seq<u64>>,
    pipes: Map<u64, LogicalPipe>,
    table: Map<u64, PipeMetrics>,
    key: u64,
)
    requires
        pipes_fit(nodes, keys, pending, pipes, table),
        forall|i: int|
            0 <= i < keys.len() && pending[#[trigger] keys[i]].len() > 0 ==> !rivals(
                pipes[keys[i]].receiver,
                key,
            ) && !rivals(pipes[keys[i]].sender, key),
    ensures
        after_carrying(
            node_or_zero(nodes, key),
            carried_by(keys, pending, pipes, table, |p: LogicalPipe| p.receiver == key),
            carried_by(keys, pending, pipes, table, |p: LogicalPipe| p.sender == key),
            node_or_zero(with_pipes(nodes, keys, pending, pipes, table), key),
        ),
        nodes.contains_key(key) || (exists|i: int|
            0 <= i < keys.len() && pending[#[trigger] keys[i]].len() > 0 && (
            pipes[keys[i]].receiver == key || pipes[keys[i]].sender == key)) <==> with_pipes(
            nodes,
            keys,
            pending,
            pipes,
            table,
        ).contains_key(key),
    decreases keys.len(),
{
    let before = node_or_zero(nodes, key);
    let at_receiver = |p: LogicalPipe| p.receiver == key;
    let at_sender = |p: LogicalPipe| p.sender == key;
    if keys.len() > 0 {
        let rest = keys.drop_last();
        let last = keys.last();
        assert forall|i: int|
            0 <= i < rest.len() && pending[#[trigger] rest[i]].len() > 0 implies !rivals(
            pipes[rest[i]].receiver,
            key,
        ) && !rivals(pipes[rest[i]].sender, key) by {
            assert(keys[i] == rest[i]);
        }
        lemma_pipes_carried(nodes, rest, pending, pipes, table, key);
        assert(keys[keys.len() - 1] == last);
        let received = carried_by(rest, pending, pipes, table, at_receiver);
        let sent = carried_by(rest, pending, pipes, table, at_sender);
        lemma_pipe_carried(
            with_pipes(nodes, rest, pending, pipes, table),
            pipes[last],
            pending[last],
            table,
            key,
            before,
            received,
            sent,
        );
        let more = pending[last].map_values(|number: u64| table[number]);
        assert(joined(received, pipes[last].receiver == key, more) =~= carried_by(
            keys,
            pending,
            pipes,
            table,
            at_receiver,
        ));
        assert(joined(sent, pipes[last].sender == key, more) =~= carried_by(
            keys,
            pending,
            pipes,
            table,
            at_sender,
        ));
        if exists|i: int|
            0 <= i < rest.len() && pending[#[trigger] rest[i]].len() > 0 && (
            pipes[rest[i]].receiver == key || pipes[rest[i]].sender == key) {
            let i = choose|i: int|
                0 <= i < rest.len() && pending[#[trigger] rest[i]].len() > 0 && (
                pipes[rest[i]].receiver == key || pipes[rest[i]].sender == key);
            assert(keys[i] == rest[i]);
        }
        if exists|i: int|
            0 <= i < keys.len() && pending[#[trigger] keys[i]].len() > 0 && (
            pipes[keys[i]].receiver == key || pipes[keys[i]].sender == key) {
            let i = choose|i: int|
                0 <= i < keys.len() && pending[#[trigger] keys[i]].len() > 0 && (
                pipes[keys[i]].receiver == key || pipes[keys[i]].sender == key);
            if i < rest.len() {
                assert(keys[i] == rest[i]);
            }
        }
    }
}

/// What a node's tasks add to it.
spec fn after_tasks(
    before: NodeCounters,
    tasks: Seq<InProgressTask>,
    table: Map<u64, TaskMetrics>,
    after: NodeCounters,
) -> bool {
    &&& after.total_polls == before.total_polls + sum_of_tasks(
        tasks,
        table,
        |m: TaskMetrics| m.total_polls,
        |t: InProgressTask| t.applied.polls,
    )
    &&& after.total_stolen_polls == before.total_stolen_polls + sum_of_tasks(
        tasks,
        table,
        |m: TaskMetrics| m.total_stolen_polls,
        |t: InProgressTask| t.applied.stolen_polls,
    )
    &&& after.total_poll_time_ns == before.total_poll_time_ns + sum_of_tasks(
        tasks,
        table,
        |m: TaskMetrics| m.total_poll_time_ns,
        |t: InProgressTask| t.applied.poll_time_ns,
    )
    &&& after.total_poll_cpu_time_ns == before.total_poll_cpu_time_ns + sum_of_tasks(
        tasks,
        table,
        |m: TaskMetrics| m.total_poll_cpu_time_ns,
        |t: InProgressTask| t.applied.poll_cpu_ns,
    )
    &&& after.max_poll_time_ns >= before.max_poll_time_ns
    &&& forall|i: int|
        0 <= i < tasks.len() ==> after.max_poll_time_ns >= table[(
        #[trigger] tasks[i]).metrics].max_poll_time_ns
    &&& after.max_poll_time_ns == before.max_poll_time_ns || exists|i: int|
        0 <= i < tasks.len() && after.max_poll_time_ns == table[(
        #[trigger] tasks[i]).metrics].max_poll_time_ns
    &&& after == (NodeCounters {
        total_polls: after.total_polls,
        total_stolen_polls: after.total_stolen_polls,
        total_poll_time_ns: after.total_poll_time_ns,
        total_poll_cpu_time_ns: after.total_poll_cpu_time_ns,
        max_poll_time_ns: after.max_poll_time_ns,
        num_running_tasks: after.num_running_tasks,
        ..before
    })
}

proof fn lemma_tasks_folded(
    before: NodeCounters,
    tasks: Seq<InProgressTask>,
    table: Map<u64, TaskMetrics>,
)
    requires
        tasks_fit(before, tasks, table),
    ensures
        after_tasks(before, tasks, table, fold_tasks(before, tasks, table)),
        fold_tasks(before, tasks, table).num_running_tasks == before.num_running_tasks
            + number_not_done(tasks, table),
    decreases tasks.len(),
{
    if tasks.len() > 0 {
        let rest = tasks.drop_last();
        let last = tasks.len() - 1;
        lemma_tasks_folded(before, rest, table);
        let middle = fold_tasks(before, rest, table);
        let after = fold_tasks(before, tasks, table);
        let m = table[tasks[last].metrics];
        assert(after == middle.with_task(m, tasks[last].applied));
        assert forall|i: int| 0 <= i < tasks.len() implies after.max_poll_time_ns >= table[(
        #[trigger] tasks[i]).metrics].max_poll_time_ns by {
            if i < last {
                assert(rest[i] == tasks[i]);
                assert(middle.max_poll_time_ns >= table[rest[i].metrics].max_poll_time_ns);
            }
        }
        if after.max_poll_time_ns != before.max_poll_time_ns {
            if after.max_poll_time_ns == m.max_poll_time_ns {
                assert(after.max_poll_time_ns == table[tasks[last].metrics].max_poll_time_ns);
            } else {
                let i = choose|i: int|
                    0 <= i < rest.len() && middle.max_poll_time_ns == table[(
                    #[trigger] rest[i]).metrics].max_poll_time_ns;
                assert(tasks[i] == rest[i]);
                assert(after.max_poll_time_ns == table[tasks[i].metrics].max_poll_time_ns);
            }
        }
    }
}

proof fn lemma_updated_at(
    nodes: Map<u64, NodeMetricsView>,
    keys: Set<u64>,
    change: spec_fn(u64, NodeMetricsView) -> NodeMetricsView,
    key: u64,
)
    requires
        forall|other: u64| #[trigger] keys.contains(other) ==> !rivals(other, key),
    ensures
        node_or_zero(updated(nodes, keys, change), key) == (if keys.contains(key) {
            change(key, node_or_zero(nodes, key))
        } else {
            node_or_zero(nodes, key)
        }),
        updated(nodes, keys, change).contains_key(key) == (keys.contains(key)
            || nodes.contains_key(key)),
{
    assert(!displaced(keys, key));
}

/// The node before its pipes are collected.
proof fn lemma_node_collected(
    graph: GraphMetricsView,
    tasks: Map<u64, TaskMetrics>,
    io: Map<u64, IOMetrics>,
    now: u64,
    key: u64,
)
    requires
        forall|other: u64| #[trigger] graph.tasks.contains_key(other) ==> !rivals(other, key),
        forall|other: u64| #[trigger] graph.occupancy.contains_key(other) ==> !rivals(other, key),
        forall|other: u64| #[trigger] graph.io.contains_key(other) ==> !rivals(other, key),
        forall|other: u64| #[trigger] graph.custom.contains_key(other) ==> !rivals(other, key),
    ensures
        ({
            let n0 = node_or_zero(graph.nodes, key);
            let n1 = if graph.tasks.contains_key(key) {
                with_tasks(n0, graph.tasks[key], tasks)
            } else {
                n0
            };
            let n2 = if graph.occupancy.contains_key(key) {
                with_occupancy(n1, graph.occupancy[key], now)
            } else {
                n1
            };
            let n3 = if graph.io.contains_key(key) {
                with_io(n2, io[graph.io[key]], now)
            } else {
                n2
            };
            let n4 = if graph.custom.contains_key(key) {
                with_custom(n3, graph.custom[key])
            } else {
                n3
            };
            node_or_zero(graph.nodes_collected(tasks, io, now).nodes, key) == n4
        }),
        graph.nodes_collected(tasks, io, now).nodes.contains_key(key) == (graph.nodes.contains_key(
            key,
        ) || graph.tasks.contains_key(key) || graph.occupancy.contains_key(key)
            || graph.io.contains_key(key) || graph.custom.contains_key(key)),
{
    let a = graph.tasks_collected(tasks);
    let b = a.occupancy_read(now);
    let c = b.io_read(io, now);
    lemma_updated_at(
        graph.nodes,
        graph.tasks.dom(),
        |key: u64, node: NodeMetricsView| with_tasks(node, graph.tasks[key], tasks),
        key,
    );
    lemma_updated_at(
        a.nodes,
        a.occupancy.dom(),
        |key: u64, node: NodeMetricsView| with_occupancy(node, a.occupancy[key], now),
        key,
    );
    lemma_updated_at(
        b.nodes,
        b.io.dom(),
        |key: u64, node: NodeMetricsView| with_io(node, io[b.io[key]], now),
        key,
    );
    lemma_updated_at(
        c.nodes,
        c.custom.dom(),
        |key: u64, node: NodeMetricsView| with_custom(node, c.custom[key]),
        key,
    );
}

/// A flush adds to a node exactly what was collected for it since the last one:
/// what its tasks did, what its pipes carried at its end, and the present
/// reading of its occupancy, its input and output, and its custom metrics. What
/// nothing was collected of stays as it was. (This is said of a node whose slot
/// is not used for another one in the same flush.)
pub proof fn law_flush_adds_up_what_was_collected(
    graph: &mut GraphMetrics,
    pipes: &LogicalPipes,
    tasks: &TaskMetricsTable,
    io: &IOMetricsTable,
    pipe_metrics: &PipeMetricsTable,
    now: u64,
    key: u64,
    keys: Seq<u64>,
    was: NodeMetricsView,
)
    requires
        call_ensures(GraphMetrics::flush, (graph, pipes, tasks, io, pipe_metrics, now), ()),
        old(graph)@.in_range(tasks@, io@, now, pipes@, pipe_metrics@),
        is_slot_order(old(graph)@.pipes.dom(), keys),
        forall|other: u64| #[trigger]
            collects(old(graph)@, pipes@, other) && other % 0x1_0000_0000 == key % 0x1_0000_0000
                ==> other == key,
        was == (if old(graph)@.nodes.contains_key(key) {
            old(graph)@.nodes[key]
        } else {
            NodeMetricsView::zero()
        }),
    ensures
        final(graph)@.nodes.contains_key(key) <==> old(graph)@.nodes.contains_key(key) || collects(
            old(graph)@,
            pipes@,
            key,
        ),
        final(graph)@.nodes.contains_key(key) ==> {
            let is = final(graph)@.nodes[key];
            let sent = carried_by(
                keys,
                old(graph)@.pipes,
                pipes@,
                pipe_metrics@,
                |p: LogicalPipe| p.sender == key,
            );
            let received = carried_by(
                keys,
                old(graph)@.pipes,
                pipes@,
                pipe_metrics@,
                |p: LogicalPipe| p.receiver == key,
            );
            &&& is.counters.morsels_sent == was.counters.morsels_sent + sum_of_pipes(
                sent,
                |p: PipeMetrics| p.morsels_sent,
            )
            &&& is.counters.rows_sent == was.counters.rows_sent + sum_of_pipes(
                sent,
                |p: PipeMetrics| p.rows_sent,
            )
            &&& is.counters.largest_morsel_sent >= was.counters.largest_morsel_sent
            &&& forall|i: int|
                0 <= i < sent.len() ==> is.counters.largest_morsel_sent >= (
                #[trigger] sent[i]).largest_morsel_sent
            &&& is.counters.largest_morsel_sent == was.counters.largest_morsel_sent || exists|
                i: int,
            |
                0 <= i < sent.len() && is.counters.largest_morsel_sent == (
                #[trigger] sent[i]).largest_morsel_sent
            &&& is.counters.morsels_received == was.counters.morsels_received + sum_of_pipes(
                received,
                |p: PipeMetrics| p.morsels_received,
            )
            &&& is.counters.rows_received == was.counters.rows_received + sum_of_pipes(
                received,
                |p: PipeMetrics| p.rows_received,
            )
            &&& is.counters.largest_morsel_received >= was.counters.largest_morsel_received
            &&& forall|i: int|
                0 <= i < received.len() ==> is.counters.largest_morsel_received >= (
                #[trigger] received[i]).largest_morsel_received
            &&& is.counters.largest_morsel_received == was.counters.largest_morsel_received
                || exists|i: int|
                0 <= i < received.len() && is.counters.largest_morsel_received == (
                #[trigger] received[i]).largest_morsel_received
            &&& if old(graph)@.tasks.contains_key(key) {
                let collected = old(graph)@.tasks[key];
                &&& is.counters.total_polls == was.counters.total_polls + sum_of_tasks(
                    collected,
                    tasks@,
                    |m: TaskMetrics| m.total_polls,
                    |t: InProgressTask| t.applied.polls,
                )
                &&& is.counters.total_stolen_polls == was.counters.total_stolen_polls
                    + sum_of_tasks(
                    collected,
                    tasks@,
                    |m: TaskMetrics| m.total_stolen_polls,
                    |t: InProgressTask| t.applied.stolen_polls,
                )
                &&& is.counters.total_poll_time_ns == was.counters.total_poll_time_ns
                    + sum_of_tasks(
                    collected,
                    tasks@,
                    |m: TaskMetrics| m.total_poll_time_ns,
                    |t: InProgressTask| t.applied.poll_time_ns,
                )
                &&& is.counters.total_poll_cpu_time_ns == was.counters.total_poll_cpu_time_ns
                    + sum_of_tasks(
                    collected,
                    tasks@,
                    |m: TaskMetrics| m.total_poll_cpu_time_ns,
                    |t: InProgressTask| t.applied.poll_cpu_ns,
                )
                &&& is.counters.max_poll_time_ns >= was.counters.max_poll_time_ns
                &&& forall|i: int|
                    0 <= i < collected.len() ==> is.counters.max_poll_time_ns >= tasks@[(
                    #[trigger] collected[i]).metrics].max_poll_time_ns
                &&& is.counters.max_poll_time_ns == was.counters.max_poll_time_ns || exists|i: int|
                    0 <= i < collected.len() && is.counters.max_poll_time_ns == tasks@[(
                    #[trigger] collected[i]).metrics].max_poll_time_ns
                &&& is.counters.num_running_tasks == number_not_done(collected, tasks@)
            } else {
                &&& is.counters.total_polls == was.counters.total_polls
                &&& is.counters.total_stolen_polls == was.counters.total_stolen_polls
                &&& is.counters.total_poll_time_ns == was.counters.total_poll_time_ns
                &&& is.counters.total_poll_cpu_time_ns == was.counters.total_poll_cpu_time_ns
                &&& is.counters.max_poll_time_ns == was.counters.max_poll_time_ns
                &&& is.counters.num_running_tasks == was.counters.num_running_tasks
            }
            &&& is.counters.poll_occupancy_ns == (if old(graph)@.occupancy.contains_key(key) {
                old(graph)@.occupancy[key].reading(now)
            } else {
                was.counters.poll_occupancy_ns
            })
            &&& if old(graph)@.io.contains_key(key) {
                let counted = io@[old(graph)@.io[key]];
                &&& is.counters.io_total_active_ns == counted.io_timer.reading(now)
                &&& is.counters.io_total_bytes_requested == counted.bytes_requested
                &&& is.counters.io_total_bytes_received == counted.bytes_received
                &&& is.counters.io_total_bytes_sent == counted.bytes_sent
            } else {
                &&& is.counters.io_total_active_ns == was.counters.io_total_active_ns
                &&& is.counters.io_total_bytes_requested == was.counters.io_total_bytes_requested
                &&& is.counters.io_total_bytes_received == was.counters.io_total_bytes_received
                &&& is.counters.io_total_bytes_sent == was.counters.io_total_bytes_sent
            }
            &&& is.custom == (if old(graph)@.custom.contains_key(key) {
                old(graph)@.custom[key].snapshot()
            } else {
                was.custom
            })
            &&& is.counters.total_state_updates == was.counters.total_state_updates
            &&& is.counters.total_state_update_time_ns == was.counters.total_state_update_time_ns
            &&& is.counters.max_state_update_time_ns == was.counters.max_state_update_time_ns
            &&& is.counters.state_update_in_progress == was.counters.state_update_in_progress
            &&& is.counters.done == was.counters.done
        },
{
    let before = old(graph)@;
    let used = choose|used: Seq<u64>|
        is_slot_order(before.pipes.dom(), used) && final(graph)@ == #[trigger] before.nodes_collected(
            tasks@,
            io@,
            now,
        ).pipes_collected(used, pipes@, pipe_metrics@);
    lemma_slot_order_unique(before.pipes.dom(), keys, used);
    let middle = before.nodes_collected(tasks@, io@, now);
    assert forall|other: u64| collects(before, pipes@, other) implies !rivals(other, key) by {
        assert(slot_of(other) == other % 0x1_0000_0000 && slot_of(key) == key % 0x1_0000_0000);
    }
    assert forall|other: u64| #[trigger] before.tasks.contains_key(other) implies !rivals(
        other,
        key,
    ) by {
        assert(collects(before, pipes@, other));
    }
    assert forall|other: u64| #[trigger] before.occupancy.contains_key(other) implies !rivals(
        other,
        key,
    ) by {
        assert(collects(before, pipes@, other));
    }
    assert forall|other: u64| #[trigger] before.io.contains_key(other) implies !rivals(
        other,
        key,
    ) by {
        assert(collects(before, pipes@, other));
    }
    assert forall|other: u64| #[trigger] before.custom.contains_key(other) implies !rivals(
        other,
        key,
    ) by {
        assert(collects(before, pipes@, other));
    }
    lemma_node_collected(before, tasks@, io@, now, key);
    assert(middle.pipes == before.pipes);
    assert forall|i: int|
        0 <= i < keys.len() && before.pipes[#[trigger] keys[i]].len() > 0 implies !rivals(
        pipes@[keys[i]].receiver,
        key,
    ) && !rivals(pipes@[keys[i]].sender, key) by {
        assert(keys.contains(keys[i]));
        assert(before.pipes.dom().contains(keys[i]));
        assert(before.pipes.contains_key(keys[i]));
        assert(collects(before, pipes@, pipes@[keys[i]].receiver));
        assert(collects(before, pipes@, pipes@[keys[i]].sender));
    }
    assert(pipes_fit(middle.nodes, keys, middle.pipes, pipes@, pipe_metrics@));
    lemma_pipes_carried(middle.nodes, keys, before.pipes, pipes@, pipe_metrics@, key);
    if before.tasks.contains_key(key) {
        lemma_tasks_folded(not_running(was.counters), before.tasks[key], tasks@);
    }
    if exists|p: u64| #[trigger]
        before.pipes.contains_key(p) && before.pipes[p].len() > 0 && (pipes@[p].receiver == key
            || pipes@[p].sender == key) {
        let p = choose|p: u64| #[trigger]
            before.pipes.contains_key(p) && before.pipes[p].len() > 0 && (pipes@[p].receiver == key
                || pipes@[p].sender == key);
        assert(before.pipes.dom().contains(p));
        let i = keys.index_of(p);
        assert(keys[i] == p);
    }
    if exists|i: int|
        0 <= i < keys.len() && before.pipes[#[trigger] keys[i]].len() > 0 && (
        pipes@[keys[i]].receiver == key || pipes@[keys[i]].sender == key) {
        let i = choose|i: int|
            0 <= i < keys.len() && before.pipes[#[trigger] keys[i]].len() > 0 && (
            pipes@[keys[i]].receiver == key || pipes@[keys[i]].sender == key);
        assert(keys.contains(keys[i]));
        assert(before.pipes.dom().contains(keys[i]));
        assert(before.pipes.contains_key(keys[i]));
    }
}

/// A flush forgets nothing that it still needs: every task that it had not seen
/// done before stays, with how far it was read now, and no other. What pipes
/// carried is collected for good. Timers, input and output, and the query's own
/// metrics stay as they are.
pub proof fn law_flush_keeps_what_is_in_progress(
    graph: &mut GraphMetrics,
    pipes: &LogicalPipes,
    tasks: &TaskMetricsTable,
    io: &IOMetricsTable,
    pipe_metrics: &PipeMetricsTable,
    now: u64,
    key: u64,
)
    requires
        call_ensures(GraphMetrics::flush, (graph, pipes, tasks, io, pipe_metrics, now), ()),
    ensures
        final(graph)@.query == old(graph)@.query,
        final(graph)@.io == old(graph)@.io,
        final(graph)@.occupancy == old(graph)@.occupancy,
        final(graph)@.tasks.dom() == old(graph)@.tasks.dom(),
        final(graph)@.custom.dom() == old(graph)@.custom.dom(),
        final(graph)@.pipes.dom() == old(graph)@.pipes.dom(),
        old(graph)@.pipes.contains_key(key) ==> final(graph)@.pipes[key].len() == 0,
        old(graph)@.tasks.contains_key(key) ==> final(graph)@.tasks[key] == old(graph)@.tasks[key].filter(|t: InProgressTask| !t.seen_done).map_values(
            |t: InProgressTask|
                InProgressTask {
                    metrics: t.metrics,
                    applied: TaskCounters {
                        polls: tasks@[t.metrics].total_polls,
                        stolen_polls: tasks@[t.metrics].total_stolen_polls,
                        poll_time_ns: tasks@[t.metrics].total_poll_time_ns,
                        poll_cpu_ns: tasks@[t.metrics].total_poll_cpu_time_ns,
                    },
                    seen_done: tasks@[t.metrics].done,
                },
        ),
{
    let before = old(graph)@;
    assert(final(graph)@.tasks.dom() =~= before.tasks.dom());
    assert(final(graph)@.custom.dom() =~= before.custom.dom());
    assert(final(graph)@.pipes.dom() =~= before.pipes.dom());
    if before.tasks.contains_key(key) {
        law_flush_keeps_what_it_has_not_seen_done(before.tasks[key], tasks@);
        let unseen = before.tasks[key].filter(|t: InProgressTask| !t.seen_done);
        assert(final(graph)@.tasks[key] =~= unseen.map_values(
            |t: InProgressTask|
                InProgressTask {
                    metrics: t.metrics,
                    applied: TaskCounters {
                        polls: tasks@[t.metrics].total_polls,
                        stolen_polls: tasks@[t.metrics].total_stolen_polls,
                        poll_time_ns: tasks@[t.metrics].total_poll_time_ns,
                        poll_cpu_ns: tasks@[t.metrics].total_poll_cpu_time_ns,
                    },
                    seen_done: tasks@[t.metrics].done,
                },
        ));
    }
}

} // verus!
