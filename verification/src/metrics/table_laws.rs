//! What the tables of a graph's metrics know of a node after it was entered.

use crate::executor::task::TaskMetricsTable;
use crate::io_metrics::IOMetricsTable;
use crate::keys;
use crate::live_timer::LiveTimer;
use crate::metrics::custom::{CustomMetrics, MetricUnit};
use crate::metrics::graph::{Collected, GraphMetrics, LogicalPipe, LogicalPipes, PipeMetricsTable};
use crate::metrics::kind::Sum;
use crate::metrics::node::NodeMetrics;
use crate::metrics::query::QueryMetrics;
use crate::metrics::registry::{GraphTable, NodeAttribution, NodeMetricsRegistry};
use vstd::prelude::*;

#[allow(unused_imports)]
use crate::keys::is_slot_order;
#[allow(unused_imports)]
use crate::metrics::custom::{AggMode, MetricSpecView, MetricStateView};
#[allow(unused_imports)]
use crate::metrics::graph::{lemma_tasks_fit_prefix, no_custom, node_or_zero, not_running, pipes_fit, GraphMetricsView};
#[allow(unused_imports)]
use crate::metrics::node::NodeCounters;
#[allow(unused_imports)]
use crate::metrics::registry::{graph_views, graphs_wf};

verus! {

/// `after` has an entry under `key`, and what `before` has of all other slots.
/// Another version of the key's slot is gone.
pub open spec fn enters<V>(before: Map<u64, V>, key: u64, after: Map<u64, V>) -> bool {
    &&& after.contains_key(key)
    &&& forall|other: u64|
        other as int % 0x1_0000_0000 != key as int % 0x1_0000_0000 ==> {
            &&& #[trigger] after.contains_key(other) == before.contains_key(other)
            &&& before.contains_key(other) ==> after[other] == before[other]
        }
    &&& forall|other: u64|
        other != key && other as int % 0x1_0000_0000 == key as int % 0x1_0000_0000
            ==> !#[trigger] after.contains_key(other)
}

/// A task is collected for its node from now on: it comes after the tasks that
/// the node has, and nothing of it was counted yet.
pub proof fn law_added_task_is_collected(graph: &mut GraphMetrics, key: u64, metrics: u64)
    requires
        call_ensures(GraphMetrics::add_task, (graph, key, metrics), ()),
    ensures
        enters(old(graph)@.tasks, key, final(graph)@.tasks),
        ({
            let tasks = final(graph)@.tasks[key];
            let n = tasks.len() - 1;
            &&& tasks.len() > 0
            &&& tasks[n].metrics == metrics
            &&& !tasks[n].seen_done
            &&& tasks[n].applied.polls == 0
            &&& tasks[n].applied.stolen_polls == 0
            &&& tasks[n].applied.poll_time_ns == 0
            &&& tasks[n].applied.poll_cpu_ns == 0
            &&& old(graph)@.tasks.contains_key(key) ==> tasks.take(n) == old(graph)@.tasks[key]
            &&& !old(graph)@.tasks.contains_key(key) ==> n == 0
        }),
        final(graph)@ == (GraphMetricsView { tasks: final(graph)@.tasks, ..old(graph)@ }),
{
    let tasks = final(graph)@.tasks[key];
    if old(graph)@.tasks.contains_key(key) {
        assert(tasks.take(tasks.len() - 1) =~= old(graph)@.tasks[key]);
    }
}

/// The metrics of a pipe are collected at the next flush, after those that the
/// pipe has already.
pub proof fn law_added_pipe_is_collected(graph: &mut GraphMetrics, key: u64, metrics: u64)
    requires
        call_ensures(GraphMetrics::add_pipe, (graph, key, metrics), ()),
    ensures
        enters(old(graph)@.pipes, key, final(graph)@.pipes),
        ({
            let numbers = final(graph)@.pipes[key];
            let n = numbers.len() - 1;
            &&& numbers.len() > 0
            &&& numbers[n] == metrics
            &&& old(graph)@.pipes.contains_key(key) ==> numbers.take(n) == old(graph)@.pipes[key]
            &&& !old(graph)@.pipes.contains_key(key) ==> n == 0
        }),
        final(graph)@ == (GraphMetricsView { pipes: final(graph)@.pipes, ..old(graph)@ }),
{
    let numbers = final(graph)@.pipes[key];
    if old(graph)@.pipes.contains_key(key) {
        assert(numbers.take(numbers.len() - 1) =~= old(graph)@.pipes[key]);
    }
}

/// The occupancy of a node is counted from its first use on: a timer that it has
/// goes on, and a node without one gets a new one.
pub proof fn law_occupancy_goes_on(graph: &mut GraphMetrics, key: u64, timer: LiveTimer)
    requires
        call_ensures(GraphMetrics::track_occupancy, (graph, key), ()),
        call_ensures(LiveTimer::new, (), timer),
    ensures
        enters(old(graph)@.occupancy, key, final(graph)@.occupancy),
        old(graph)@.occupancy.contains_key(key) ==> final(graph)@.occupancy[key] == old(graph)@.occupancy[key],
        !old(graph)@.occupancy.contains_key(key) ==> final(graph)@.occupancy[key] == timer,
        final(graph)@ == (GraphMetricsView { occupancy: final(graph)@.occupancy, ..old(graph)@ }),
{
}

/// A node's input and output are known by the number that was registered.
pub proof fn law_registered_io_is_found(
    graph: &mut GraphMetrics,
    key: u64,
    number: u64,
    later: &GraphMetrics,
    found: Option<u64>,
)
    requires
        call_ensures(GraphMetrics::register_io_metrics, (graph, key, number), ()),
        call_ensures(GraphMetrics::io_metrics, (later, key), found),
        *later == *final(graph),
    ensures
        found == Some(number),
        enters(old(graph)@.io, key, final(graph)@.io),
        final(graph)@ == (GraphMetricsView { io: final(graph)@.io, ..old(graph)@ }),
{
}

/// A node registers its input and output in its graph, if that is collected and
/// still there, and nowhere else.
pub proof fn law_node_registers_its_io(
    registry: &NodeMetricsRegistry,
    graphs: &mut GraphTable,
    number: u64,
)
    requires
        call_ensures(NodeMetricsRegistry::register_io_metrics, (registry, graphs, number), ()),
    ensures
        forall|g: u64| #[trigger]
            graph_views(*old(graphs)).contains_key(g) && registry.graph_metrics != Some(g)
                ==> graph_views(*final(graphs))[g] == graph_views(*old(graphs))[g],
        registry.graph_metrics is Some && graph_views(*old(graphs)).contains_key(
            registry.graph_metrics->0,
        ) ==> {
            let before = graph_views(*old(graphs))[registry.graph_metrics->0];
            let after = graph_views(*final(graphs))[registry.graph_metrics->0];
            &&& enters(before.io, registry.graph_key, after.io)
            &&& after.io[registry.graph_key] == number
            &&& after == (GraphMetricsView { io: after.io, ..before })
        },
        graph_views(*final(graphs)).dom() == graph_views(*old(graphs)).dom(),
{
    assert(graph_views(*final(graphs)).dom() =~= graph_views(*old(graphs)).dom());
}

/// The custom metrics of a node that were put back are those that are taken
/// next, and a node that has none has none to take.
pub proof fn law_custom_metrics_are_taken_as_put(
    graph: &mut GraphMetrics,
    key: u64,
    custom: CustomMetrics,
    later: &mut GraphMetrics,
    taken: CustomMetrics,
    first: &mut GraphMetrics,
    fresh: CustomMetrics,
)
    requires
        call_ensures(GraphMetrics::put_custom_metrics, (graph, key, custom), ()),
        call_ensures(GraphMetrics::take_custom_metrics, (later, key), taken),
        *old(later) == *final(graph),
        call_ensures(GraphMetrics::take_custom_metrics, (first, key), fresh),
        !old(first)@.custom.contains_key(key),
    ensures
        taken@ == custom@,
        fresh@.metrics.len() == 0,
        final(graph)@ == (GraphMetricsView { custom: final(graph)@.custom, ..old(graph)@ }),
        final(graph)@.custom.remove(key) == old(graph)@.custom.remove(key),
        enters(old(later)@.custom, key, final(later)@.custom),
        final(later)@.custom[key].metrics.len() == 0,
        final(later)@ == (GraphMetricsView { custom: final(later)@.custom, ..old(later)@ }),
{
    assert(final(graph)@.custom.remove(key) =~= old(graph)@.custom.remove(key));
}

/// The state of a node is being updated from the start of the update to its end,
/// and its end counts the update and its time. All other counters stay.
pub proof fn law_state_update_runs_from_start_to_end(
    graph: &mut GraphMetrics,
    key: u64,
    later: &mut GraphMetrics,
    time_ns: u64,
    is_done: bool,
    zero: NodeMetrics,
)
    requires
        call_ensures(GraphMetrics::start_state_update, (graph, key), ()),
        call_ensures(GraphMetrics::stop_state_update, (later, key, time_ns, is_done), ()),
        *old(later) == *final(graph),
        call_ensures(<NodeMetrics as Default>::default, (), zero),
        ({
            let before = if old(graph)@.nodes.contains_key(key) {
                old(graph)@.nodes[key]
            } else {
                zero@
            };
            &&& before.counters.total_state_updates < u64::MAX
            &&& before.counters.total_state_update_time_ns + time_ns <= u64::MAX
        }),
    ensures
        ({
            let before = if old(graph)@.nodes.contains_key(key) {
                old(graph)@.nodes[key]
            } else {
                zero@
            };
            let between = final(graph)@.nodes[key];
            let after = final(later)@.nodes[key];
            &&& between.counters.state_update_in_progress
            &&& between.counters == (NodeCounters {
                state_update_in_progress: true,
                ..before.counters
            })
            &&& between.custom == before.custom
            &&& !after.counters.state_update_in_progress
            &&& after.counters.total_state_updates == before.counters.total_state_updates + 1
            &&& after.counters.total_state_update_time_ns
                == before.counters.total_state_update_time_ns + time_ns
            &&& after.counters.max_state_update_time_ns >= before.counters.max_state_update_time_ns
            &&& after.counters.max_state_update_time_ns >= time_ns
            &&& after.counters.max_state_update_time_ns == time_ns
                || after.counters.max_state_update_time_ns
                == before.counters.max_state_update_time_ns
            &&& after.counters == (NodeCounters {
                state_update_in_progress: false,
                total_state_updates: after.counters.total_state_updates,
                total_state_update_time_ns: after.counters.total_state_update_time_ns,
                max_state_update_time_ns: after.counters.max_state_update_time_ns,
                done: after.counters.done,
                ..before.counters
            })
            &&& after.counters.done <==> is_done
            &&& after.custom == before.custom
        }),
        enters(old(graph)@.nodes, key, final(graph)@.nodes),
        enters(old(graph)@.nodes, key, final(later)@.nodes),
        final(later)@ == (GraphMetricsView { nodes: final(later)@.nodes, ..old(graph)@ }),
{
}

/// Each table takes a key by its own entries, and no other's.
pub proof fn law_table_takes_by_its_own_keys(
    graph: &GraphMetrics,
    key: u64,
    nodes: Vec<u64>,
    io: Vec<u64>,
    custom: Vec<u64>,
    tasks: Vec<u64>,
    occupancy: Vec<u64>,
    pipes: Vec<u64>,
    table: Collected,
    taken: bool,
    expected: bool,
)
    requires
        call_ensures(GraphMetrics::takes, (graph, table, key), taken),
        nodes@.to_set() == graph@.nodes.dom(),
        io@.to_set() == graph@.io.dom(),
        custom@.to_set() == graph@.custom.dom(),
        tasks@.to_set() == graph@.tasks.dom(),
        occupancy@.to_set() == graph@.occupancy.dom(),
        pipes@.to_set() == graph@.pipes.dom(),
        table is Nodes ==> call_ensures(keys::takes, (&nodes, key), expected),
        table is Io ==> call_ensures(keys::takes, (&io, key), expected),
        table is Custom ==> call_ensures(keys::takes, (&custom, key), expected),
        table is Tasks ==> call_ensures(keys::takes, (&tasks, key), expected),
        table is Occupancy ==> call_ensures(keys::takes, (&occupancy, key), expected),
        table is Pipes ==> call_ensures(keys::takes, (&pipes, key), expected),
    ensures
        taken == expected,
{
}

/// Tasks can be credited to a node whose key is one, unless its graph is there
/// and does not take the key.
pub proof fn law_node_can_be_credited_where_its_key_is_taken(
    attribution: &NodeAttribution,
    graphs: &GraphTable,
    creditable: bool,
    is: bool,
    graph: &GraphMetrics,
    taken: bool,
)
    requires
        graphs_wf(*graphs),
        call_ensures(NodeAttribution::is_creditable, (attribution, graphs), creditable),
        call_ensures(keys::is_key_number, (attribution.key,), is),
        graphs@.contains_key(attribution.graph) ==> *graph == graphs@[attribution.graph],
        call_ensures(GraphMetrics::takes, (graph, Collected::Tasks, attribution.key), taken),
    ensures
        creditable <==> is && (!graphs@.contains_key(attribution.graph) || taken),
{
}

/// The nodes are listed in the order of their slots, each once, with the metrics
/// that the table has of it.
pub proof fn law_nodes_are_listed_by_slot(
    graph: &GraphMetrics,
    nodes: Vec<(u64, &NodeMetrics)>,
    key: u64,
)
    requires
        call_ensures(GraphMetrics::iter, (graph,), nodes),
    ensures
        forall|i: int, j: int|
            0 <= i < j < nodes@.len() ==> (#[trigger] nodes@[i]).0 as int % 0x1_0000_0000 < (
            #[trigger] nodes@[j]).0 as int % 0x1_0000_0000,
        graph@.nodes.contains_key(key) <==> exists|i: int|
            0 <= i < nodes@.len() && (#[trigger] nodes@[i]).0 == key,
        forall|i: int|
            0 <= i < nodes@.len() ==> (#[trigger] nodes@[i]).1@ == graph@.nodes[nodes@[i].0],
{
    let keys = nodes@.map_values(|entry: (u64, &NodeMetrics)| entry.0);
    assert forall|i: int, j: int| 0 <= i < j < nodes@.len() implies (
    #[trigger] nodes@[i]).0 as int % 0x1_0000_0000 < (#[trigger] nodes@[j]).0 as int
        % 0x1_0000_0000 by {
        assert(keys[i] == nodes@[i].0 && keys[j] == nodes@[j].0);
    }
    if graph@.nodes.contains_key(key) {
        assert(graph@.nodes.dom().contains(key));
        let i = keys.index_of(key);
        assert(nodes@[i].0 == key);
    }
    if exists|i: int| 0 <= i < nodes@.len() && (#[trigger] nodes@[i]).0 == key {
        let i = choose|i: int| 0 <= i < nodes@.len() && (#[trigger] nodes@[i]).0 == key;
        assert(keys[i] == key);
        assert(keys.contains(key));
        assert(graph@.nodes.dom().contains(key));
    }
}

/// A new graph knows nothing of any node or pipe, and its query has spent no time.
pub proof fn law_new_graph_knows_nothing(graph: GraphMetrics, query: QueryMetrics, key: u64)
    requires
        call_ensures(GraphMetrics::new, (), graph),
        call_ensures(<QueryMetrics as Default>::default, (), query),
    ensures
        !graph@.nodes.contains_key(key),
        !graph@.io.contains_key(key),
        !graph@.custom.contains_key(key),
        !graph@.tasks.contains_key(key),
        !graph@.occupancy.contains_key(key),
        !graph@.pipes.contains_key(key),
        graph@.query == query,
        query.wall_time_ns == 0,
        query.num_threads == 0,
        query.num_phases == 0,
        query.state_update_time_ns == 0,
        query.state_update_cpu_ns == 0,
        query.phase_setup_time_ns == 0,
        query.phase_wait_time_ns == 0,
        query.detached_wait_time_ns == 0,
        query.output_time_ns == 0,
        query.worker_states.poll_ns == 0,
        query.worker_states.overhead_ns == 0,
        query.worker_states.parked_ns == 0,
        query.worker_states.poll_cpu_ns == 0,
        query.worker_states.unattributed_poll_ns == 0,
{
}

/// A pipe is found under the key it got, and the pipes before it stay.
pub proof fn law_inserted_pipe_is_found(
    pipes: &mut LogicalPipes,
    pipe: LogicalPipe,
    key: u64,
    later: &LogicalPipes,
    found: Option<LogicalPipe>,
    other: u64,
    before: Option<LogicalPipe>,
    after: Option<LogicalPipe>,
)
    requires
        call_ensures(LogicalPipes::insert, (pipes, pipe), key),
        *later == *final(pipes),
        call_ensures(LogicalPipes::get, (later, key), found),
        call_ensures(LogicalPipes::get, (&*old(pipes), other), before),
        call_ensures(LogicalPipes::get, (later, other), after),
    ensures
        found == Some(pipe),
        other == key ==> before is None,
        other != key ==> after == before,
{
}

/// One of the metrics has the key, and another unit, or is not a sum.
pub open spec fn is_there_otherwise(
    metrics: Seq<MetricStateView>,
    key: Seq<char>,
    unit: MetricUnit,
) -> bool {
    exists|i: int|
        0 <= i < metrics.len() && (#[trigger] metrics[i]).spec.key == key && (
        metrics[i].spec.unit != unit || metrics[i].spec.agg != AggMode::Sum)
}

/// A sum conflicts with what its node registered under the same key exactly
/// where the unit differs or that is no sum, if the node is collected.
pub proof fn law_conflicts_are_of_the_nodes_own_metrics(
    registry: &NodeMetricsRegistry,
    graphs: &GraphTable,
    key: &str,
    unit: MetricUnit,
    differently: bool,
)
    requires
        call_ensures(
            NodeMetricsRegistry::is_registered_differently::<Sum>,
            (registry, graphs, key, unit),
            differently,
        ),
    ensures
        differently <==> {
            &&& registry.graph_metrics is Some
            &&& graph_views(*graphs).contains_key(registry.graph_metrics->0)
            &&& graph_views(*graphs)[registry.graph_metrics->0].custom.contains_key(
                registry.graph_key,
            )
            &&& is_there_otherwise(
                graph_views(*graphs)[registry.graph_metrics->0].custom[registry.graph_key].metrics,
                key@,
                unit,
            )
        },
{
    let spec = MetricSpecView { key: key@, unit, agg: AggMode::Sum };
    let views = graph_views(*graphs);
    if registry.graph_metrics is Some && views.contains_key(registry.graph_metrics->0) {
        let table = views[registry.graph_metrics->0].custom;
        if table.contains_key(registry.graph_key) {
            let custom = table[registry.graph_key];
            if is_there_otherwise(custom.metrics, key@, unit) {
                let i = choose|i: int|
                    0 <= i < custom.metrics.len() && (#[trigger] custom.metrics[i]).spec.key == key@
                        && (custom.metrics[i].spec.unit != unit || custom.metrics[i].spec.agg
                        != AggMode::Sum);
                assert(custom.is_at(spec.key, i) && custom.metrics[i].spec != spec);
            }
            if custom.conflicts(spec) {
                let i = choose|i: int| #[trigger]
                    custom.is_at(spec.key, i) && custom.metrics[i].spec != spec;
                assert(custom.metrics[i].spec.key == key@);
            }
        } else {
            assert(!no_custom().conflicts(spec));
        }
    }
}

/// A graph that collects nothing can always be flushed, and one with a task whose
/// metrics are unknown cannot.
pub proof fn law_flush_needs_what_it_collects(
    graph: &GraphMetrics,
    pipes: &LogicalPipes,
    tasks: &TaskMetricsTable,
    io: &IOMetricsTable,
    pipe_metrics: &PipeMetricsTable,
    now: u64,
    can: bool,
    key: u64,
    i: int,
)
    requires
        call_ensures(
            GraphMetrics::can_flush,
            (graph, pipes, tasks, io, pipe_metrics, now),
            can,
        ),
    ensures
        graph@.tasks.dom().is_empty() && graph@.occupancy.dom().is_empty()
            && graph@.io.dom().is_empty() && graph@.custom.dom().is_empty()
            && graph@.pipes.dom().is_empty() ==> can,
        graph@.tasks.contains_key(key) && 0 <= i < graph@.tasks[key].len()
            && !tasks@.contains_key(graph@.tasks[key][i].metrics) ==> !can,
        graph@.io.contains_key(key) && !io@.contains_key(graph@.io[key]) ==> !can,
{
    let first = graph@.tasks_collected(tasks@);
    let second = first.occupancy_read(now);
    let third = second.io_read(io@, now);
    let fourth = third.custom_read();
    if graph@.tasks.dom().is_empty() && graph@.occupancy.dom().is_empty()
        && graph@.io.dom().is_empty() && graph@.custom.dom().is_empty()
        && graph@.pipes.dom().is_empty() {
        assert forall|k: u64| !graph@.tasks.contains_key(k) && !graph@.occupancy.contains_key(k)
            && !graph@.io.contains_key(k) && !graph@.custom.contains_key(k)
            && !graph@.pipes.contains_key(k) by {
            assert(!graph@.tasks.dom().contains(k));
            assert(!graph@.occupancy.dom().contains(k));
            assert(!graph@.io.dom().contains(k));
            assert(!graph@.custom.dom().contains(k));
            assert(!graph@.pipes.dom().contains(k));
        }
        assert forall|keys: Seq<u64>|
            is_slot_order(fourth.pipes.dom(), keys) implies #[trigger] pipes_fit(
            fourth.nodes,
            keys,
            fourth.pipes,
            pipes@,
            pipe_metrics@,
        ) by {
            if keys.len() > 0 {
                assert(keys.contains(keys[0]));
                assert(fourth.pipes.dom().contains(keys[0]));
            }
        }
        assert(can);
    }
    if graph@.tasks.contains_key(key) && 0 <= i < graph@.tasks[key].len()
        && !tasks@.contains_key(graph@.tasks[key][i].metrics) && can {
        lemma_tasks_fit_prefix(
            not_running(node_or_zero(graph@.nodes, key).counters),
            graph@.tasks[key],
            tasks@,
            i + 1,
        );
        assert(graph@.tasks[key].take(i + 1).last() == graph@.tasks[key][i]);
    }
    if graph@.io.contains_key(key) && can {
        assert(second.io.contains_key(key));
    }
}

} // verus!
