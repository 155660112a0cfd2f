//! How nodes register their metrics, and how tasks report to them.

use crate::executor::attribution::{scoped_task_attribution, AttributionGuard, TaskAttribution, ThreadContext};
use crate::keys::is_key_number;
use crate::metrics::custom::{CustomMetrics, LiveCell, MetricSpec, MetricUnit};
use crate::metrics::graph::{Collected, GraphMetrics};
use crate::metrics::kind::{Gauge, Max, MetricKind, Sum};
use crate::numbered::Numbered;
use vstd::prelude::*;

#[allow(unused_imports)]
use crate::keys::{admits, entered, is_key, lemma_entered, lemma_known_key, without_rivals};
#[allow(unused_imports)]
use crate::live_timer::LiveTimer;
#[allow(unused_imports)]
use crate::metrics::custom::{larger, AggMode, CustomMetricsView, MetricSpecView};
#[allow(unused_imports)]
use crate::metrics::graph::{get_or, no_custom, GraphMetricsView};
#[allow(unused_imports)]
use crate::metrics::node::InProgressTask;

verus! {

/// The graphs whose metrics are being collected, by their numbers. A graph that
/// is gone is no longer in the table.
pub type GraphTable = Numbered<GraphMetrics>;

/// The graphs' metrics.
pub open spec fn graph_views(graphs: GraphTable) -> Map<u64, GraphMetricsView> {
    graphs@.map_values(|graph: GraphMetrics| graph@)
}

/// The invariant of the table and of every graph in it.
pub open spec fn graphs_wf(graphs: GraphTable) -> bool {
    graphs.wf() && forall|number: u64| #[trigger]
        graphs@.contains_key(number) ==> graphs@[number].wf()
}

/// Credits a node with every task spawned on its behalf, however deeply.
///
/// The executor is process-wide, so this carries the graph as well as the node:
/// a key alone would not say which query it belongs to. The graph may be gone,
/// so a task outliving its query stops reporting.
#[derive(Clone, Copy, Debug, PartialEq, Eq, Structural)]
pub struct NodeAttribution {
    pub graph: u64,
    pub key: u64,
}

impl TaskAttribution for NodeAttribution {
    type Sink = GraphTable;

    open spec fn can_credit(self, sink: GraphTable) -> bool {
        &&& graphs_wf(sink)
        &&& is_key(self.key)
        &&& graph_views(sink).contains_key(self.graph) ==> admits(
            graph_views(sink)[self.graph].tasks.dom(),
            self.key,
        )
    }

    open spec fn credits(self, before: GraphTable, metrics: u64, after: GraphTable) -> bool {
        after.room() == before.room() && graph_views(after) == (if graph_views(
            before,
        ).contains_key(self.graph) {
            let graph = graph_views(before)[self.graph];
            graph_views(before).insert(
                self.graph,
                GraphMetricsView {
                    tasks: entered(
                        graph.tasks,
                        self.key,
                        get_or(graph.tasks, self.key, Seq::empty()).push(
                            InProgressTask::fresh(metrics),
                        ),
                    ),
                    ..graph
                },
            )
        } else {
            graph_views(before)
        })
    }

    fn task_spawned(&self, metrics: u64, sink: &mut GraphTable) {
        let ghost before = graph_views(*sink);
        let ghost was = *sink;
        match sink.remove(self.graph) {
            Some(graph) => {
                let mut graph: GraphMetrics = graph;
                assert(was@.contains_key(self.graph));
                proof {
                    graph.lemma_wf();
                }
                graph.add_task(self.key, metrics);
                let ghost added = graph@;
                sink.put(self.graph, graph);
                proof {
                    assert(graph_views(*sink) =~= before.insert(self.graph, added));
                    assert(graphs_wf(*sink));
                    lemma_entered(
                        before[self.graph].tasks,
                        self.key,
                        added.tasks[self.key],
                    );
                }
            },
            None => {
                assert(sink@ =~= was@);
                assert(graph_views(*sink) =~= before);
            },
        }
    }

    open spec fn can_time(self, sink: GraphTable) -> bool {
        graphs_wf(sink) && is_key(self.key)
    }

    open spec fn opens(self, before: GraphTable, now: u64, opened: bool, after: GraphTable) -> bool {
        let views = graph_views(before);
        &&& opened == (views.contains_key(self.graph)
            && views[self.graph].occupancy.contains_key(self.key)
            && views[self.graph].occupancy[self.key].open() < u64::MAX)
        &&& graphs_wf(after)
        &&& after.room() == before.room()
        &&& graph_views(after) == (if opened {
            views.insert(
                self.graph,
                GraphMetricsView {
                    occupancy: views[self.graph].occupancy.insert(
                        self.key,
                        views[self.graph].occupancy[self.key].started(now),
                    ),
                    ..views[self.graph]
                },
            )
        } else {
            views
        })
    }

    fn poll_session(&self, now: u64, sink: &mut GraphTable) -> (opened: bool) {
        let ghost before = graph_views(*sink);
        let ghost was = *sink;
        let mut opened: bool = false;
        match sink.remove(self.graph) {
            Some(graph) => {
                let mut graph: GraphMetrics = graph;
                assert(was@.contains_key(self.graph));
                if graph.tracks_occupancy(self.key) {
                    let timer = graph.occupancy_mut(self.key);
                    if timer.num_open() < u64::MAX {
                        timer.start_session(now);
                        opened = true;
                    }
                }
                let ghost after = graph@;
                sink.put(self.graph, graph);
                proof {
                    assert(graph_views(*sink) =~= before.insert(self.graph, after));
                    if !opened {
                        assert(after =~= before[self.graph]);
                        assert(graph_views(*sink) =~= before);
                    }
                }
            },
            None => {
                assert(sink@ =~= was@);
                assert(graph_views(*sink) =~= before);
            },
        }
        opened
    }

    open spec fn closes(self, before: GraphTable, now: u64, after: GraphTable) -> bool {
        let views = graph_views(before);
        &&& graphs_wf(after)
        &&& after.room() == before.room()
        &&& graph_views(after) == (if views.contains_key(self.graph)
            && views[self.graph].occupancy.contains_key(self.key)
            && views[self.graph].occupancy[self.key].open() > 0 {
            views.insert(
                self.graph,
                GraphMetricsView {
                    occupancy: views[self.graph].occupancy.insert(
                        self.key,
                        views[self.graph].occupancy[self.key].ended(now),
                    ),
                    ..views[self.graph]
                },
            )
        } else {
            views
        })
    }

    fn end_poll_session(&self, now: u64, sink: &mut GraphTable) {
        let ghost before = graph_views(*sink);
        let ghost was = *sink;
        match sink.remove(self.graph) {
            Some(graph) => {
                let mut graph: GraphMetrics = graph;
                assert(was@.contains_key(self.graph));
                let mut ended: bool = false;
                if graph.tracks_occupancy(self.key) {
                    let timer = graph.occupancy_mut(self.key);
                    if timer.num_open() > 0 {
                        timer.end_session(now);
                        ended = true;
                    }
                }
                let ghost after = graph@;
                sink.put(self.graph, graph);
                proof {
                    assert(graph_views(*sink) =~= before.insert(self.graph, after));
                    if !ended {
                        assert(after =~= before[self.graph]);
                        assert(graph_views(*sink) =~= before);
                    }
                }
            },
            None => {
                assert(sink@ =~= was@);
                assert(graph_views(*sink) =~= before);
            },
        }
    }
}

impl NodeAttribution {
    /// Whether tasks can be credited to the node: its key is one, and no newer
    /// version of its slot is in use.
    pub fn is_creditable(&self, graphs: &GraphTable) -> (creditable: bool)
        requires
            graphs_wf(*graphs),
        ensures
            creditable == self.can_credit(*graphs),
    {
        if !is_key_number(self.key) {
            return false;
        }
        match graphs.get(self.graph) {
            Some(graph) => graph.takes(Collected::Tasks, self.key),
            None => true,
        }
    }
}

/// The graphs after the occupancy of a node is being tracked.
pub open spec fn occupancy_tracked(views: Map<u64, GraphMetricsView>, graph: u64, key: u64) -> Map<
    u64,
    GraphMetricsView,
> {
    if views.contains_key(graph) {
        views.insert(
            graph,
            GraphMetricsView {
                occupancy: entered(
                    views[graph].occupancy,
                    key,
                    get_or(views[graph].occupancy, key, LiveTimer::fresh()),
                ),
                ..views[graph]
            },
        )
    } else {
        views
    }
}

/// The attribution of a node, whose occupancy is tracked from its first use on.
pub fn node_attribution(graphs: &mut GraphTable, graph: u64, key: u64) -> (attribution:
    NodeAttribution)
    requires
        graphs_wf(*old(graphs)),
        is_key(key),
        graph_views(*old(graphs)).contains_key(graph) ==> admits(
            graph_views(*old(graphs))[graph].occupancy.dom(),
            key,
        ),
    ensures
        graphs_wf(*final(graphs)),
        final(graphs).room() == old(graphs).room(),
        attribution == (NodeAttribution { graph, key }),
        graph_views(*final(graphs)) == occupancy_tracked(graph_views(*old(graphs)), graph, key),
        attribution.can_credit(*old(graphs)) ==> attribution.can_credit(*final(graphs)),
{
    let ghost before = graph_views(*graphs);
    let ghost was = *graphs;
    match graphs.remove(graph) {
        Some(metrics) => {
            let mut metrics: GraphMetrics = metrics;
            assert(was@.contains_key(graph));
            metrics.track_occupancy(key);
            let ghost after = metrics@;
            graphs.put(graph, metrics);
            assert(graph_views(*graphs) =~= before.insert(graph, after));
        },
        None => {
            assert(graphs@ =~= was@);
            assert(graph_views(*graphs) =~= before);
        },
    }
    NodeAttribution { graph, key }
}

/// Credits tasks spawned while the guard lives to `key` in `graph_metrics`.
///
/// Wrap a node's spawn or state update in this and every task it starts is
/// attributed, including tasks those tasks start, and detached ones that
/// outlive the phase.
pub fn attribute_tasks_to_node(
    context: &mut ThreadContext<NodeAttribution>,
    graphs: &mut GraphTable,
    key: u64,
    graph_metrics: Option<u64>,
) -> (guard: AttributionGuard<NodeAttribution>)
    requires
        graphs_wf(*old(graphs)),
        is_key(key),
        graph_metrics matches Some(graph) ==> graph_views(*old(graphs)).contains_key(graph)
            ==> admits(graph_views(*old(graphs))[graph].occupancy.dom(), key),
    ensures
        graphs_wf(*final(graphs)),
        final(graphs).room() == old(graphs).room(),
        guard.previous() == old(context).attribution,
        *final(context) == (ThreadContext {
            attribution: match graph_metrics {
                Some(graph) => Some(NodeAttribution { graph, key }),
                None => None,
            },
            ..*old(context)
        }),
        graph_views(*final(graphs)) == match graph_metrics {
            Some(graph) => occupancy_tracked(graph_views(*old(graphs)), graph, key),
            None => graph_views(*old(graphs)),
        },
{
    let mut attribution: Option<NodeAttribution> = None;
    if let Some(graph) = graph_metrics {
        attribution = Some(node_attribution(graphs, graph, key));
    }
    scoped_task_attribution(context, attribution)
}

/// Where a node registers its metrics, if they are collected.
#[derive(Clone, Copy, Debug, PartialEq, Eq, Structural)]
pub struct NodeMetricsRegistry {
    pub graph_key: u64,
    pub graph_metrics: Option<u64>,
}

/// A metric of a node: the graph, the node, and the metric's index there.
#[derive(Clone, Copy, Debug, PartialEq, Eq, Structural)]
pub struct MetricRef {
    pub graph: u64,
    pub key: u64,
    pub metric_idx: usize,
}

/// The custom metrics of a node, if they exist.
pub open spec fn custom_of(views: Map<u64, GraphMetricsView>, graph: u64, key: u64) -> Option<
    CustomMetricsView,
> {
    if views.contains_key(graph) && views[graph].custom.contains_key(key) {
        Some(views[graph].custom[key])
    } else {
        None
    }
}

/// The graphs with the custom metrics of a node replaced.
pub open spec fn with_custom_of(
    views: Map<u64, GraphMetricsView>,
    graph: u64,
    key: u64,
    custom: CustomMetricsView,
) -> Map<u64, GraphMetricsView> {
    views.insert(
        graph,
        GraphMetricsView { custom: entered(views[graph].custom, key, custom), ..views[graph] },
    )
}

impl NodeMetricsRegistry {
    /// The graph that the node's metrics are collected in, if there is one.
    pub open spec fn target(self, views: Map<u64, GraphMetricsView>) -> Option<u64> {
        if self.graph_metrics is Some && views.contains_key(self.graph_metrics->0) {
            self.graph_metrics
        } else {
            None
        }
    }

    /// The graphs are well formed, and the node's key is one.
    pub open spec fn wf(self, graphs: GraphTable) -> bool {
        graphs_wf(graphs) && is_key(self.graph_key)
    }

    /// Whether the node's metrics are collected.
    pub fn is_some(&self) -> (some: bool)
        ensures
            some == (self.graph_metrics is Some),
    {
        self.graph_metrics.is_some()
    }

    /// Registers this node's IO metrics by their number.
    ///
    /// Nodes call this once per phase with the same number each time, so repeat
    /// calls are expected and do nothing.
    pub fn register_io_metrics(&self, graphs: &mut GraphTable, io_metrics: u64)
        requires
            self.wf(*old(graphs)),
            self.target(graph_views(*old(graphs))) matches Some(graph) ==> {
                let io = graph_views(*old(graphs))[graph].io;
                &&& admits(io.dom(), self.graph_key)
                &&& io.contains_key(self.graph_key) ==> io[self.graph_key] == io_metrics
            },
        ensures
            self.wf(*final(graphs)),
            final(graphs).room() == old(graphs).room(),
            graph_views(*final(graphs)) == match self.target(graph_views(*old(graphs))) {
                Some(graph) => graph_views(*old(graphs)).insert(
                    graph,
                    GraphMetricsView {
                        io: entered(
                            graph_views(*old(graphs))[graph].io,
                            self.graph_key,
                            io_metrics,
                        ),
                        ..graph_views(*old(graphs))[graph]
                    },
                ),
                None => graph_views(*old(graphs)),
            },
    {
        let ghost before = graph_views(*graphs);
        let ghost was = *graphs;
        if let Some(graph) = self.graph_metrics {
            match graphs.remove(graph) {
                Some(metrics) => {
                    let mut metrics: GraphMetrics = metrics;
                    assert(was@.contains_key(graph));
                    metrics.register_io_metrics(self.graph_key, io_metrics);
                    let ghost after = metrics@;
                    graphs.put(graph, metrics);
                    assert(graph_views(*graphs) =~= before.insert(graph, after));
                },
                None => {
                    assert(graphs@ =~= was@);
                    assert(graph_views(*graphs) =~= before);
                },
            }
        }
    }

    /// Whether the metric was already registered with a different unit or
    /// aggregation.
    pub fn is_registered_differently<K: MetricKind>(
        &self,
        graphs: &GraphTable,
        key: &str,
        unit: MetricUnit,
    ) -> (differently: bool)
        requires
            self.wf(*graphs),
        ensures
            differently == (match self.target(graph_views(*graphs)) {
                Some(graph) => get_or(
                    graph_views(*graphs)[graph].custom,
                    self.graph_key,
                    no_custom(),
                ).conflicts(MetricSpecView { key: key@, unit, agg: K::mode() }),
                None => false,
            }),
    {
        let spec = MetricSpec::new(key.to_owned(), unit, K::agg());
        proof {
            assert(!no_custom().conflicts(spec@));
        }
        match self.graph_metrics {
            Some(graph) => match graphs.get(graph) {
                Some(metrics) => match metrics.custom_metrics(self.graph_key) {
                    Some(custom) => custom.is_registered_differently(&spec),
                    None => false,
                },
                None => false,
            },
            None => false,
        }
    }

    /// Registers a UpDownCounter that combines by summing
    pub fn new_counter(&self, graphs: &mut GraphTable, key: &str, unit: MetricUnit) -> (metric:
        Metric<Sum>)
        requires
            self.can_register(*old(graphs), key@, unit, Sum::mode()),
        ensures
            self.wf(*final(graphs)),
            final(graphs).room() == old(graphs).room(),
            self.registers(
                graph_views(*old(graphs)),
                MetricSpecView { key: key@, unit, agg: Sum::mode() },
                metric.target(),
                graph_views(*final(graphs)),
            ),
    {
        self.register_custom_metric(graphs, key, unit)
    }

    /// Registers a counter that combines by taking the highest share
    pub fn new_max(&self, graphs: &mut GraphTable, key: &str, unit: MetricUnit) -> (metric: Metric<
        Max,
    >)
        requires
            self.can_register(*old(graphs), key@, unit, Max::mode()),
        ensures
            self.wf(*final(graphs)),
            final(graphs).room() == old(graphs).room(),
            self.registers(
                graph_views(*old(graphs)),
                MetricSpecView { key: key@, unit, agg: Max::mode() },
                metric.target(),
                graph_views(*final(graphs)),
            ),
    {
        self.register_custom_metric(graphs, key, unit)
    }

    /// Registers a gauge that combines values by taking the latest reading
    pub fn new_gauge(&self, graphs: &mut GraphTable, key: &str, unit: MetricUnit) -> (metric:
        Metric<Gauge>)
        requires
            self.can_register(*old(graphs), key@, unit, Gauge::mode()),
        ensures
            self.wf(*final(graphs)),
            final(graphs).room() == old(graphs).room(),
            self.registers(
                graph_views(*old(graphs)),
                MetricSpecView { key: key@, unit, agg: Gauge::mode() },
                metric.target(),
                graph_views(*final(graphs)),
            ),
    {
        self.register_custom_metric(graphs, key, unit)
    }

    /// Whether a metric can be registered: it was not registered differently.
    pub open spec fn can_register(
        self,
        graphs: GraphTable,
        key: Seq<char>,
        unit: MetricUnit,
        agg: AggMode,
    ) -> bool {
        &&& self.wf(graphs)
        &&& self.target(graph_views(graphs)) matches Some(graph) ==> {
            let custom = graph_views(graphs)[graph].custom;
            &&& admits(custom.dom(), self.graph_key)
            &&& !get_or(custom, self.graph_key, no_custom()).conflicts(
                MetricSpecView { key, unit, agg },
            )
        }
    }

    /// The effect of registering a metric: it joins the node's metrics as the
    /// last, unless it is already there.
    pub open spec fn registers(
        self,
        before: Map<u64, GraphMetricsView>,
        spec: MetricSpecView,
        metric: Option<MetricRef>,
        after: Map<u64, GraphMetricsView>,
    ) -> bool {
        match self.target(before) {
            Some(graph) => {
                let known = get_or(before[graph].custom, self.graph_key, no_custom());
                let custom = if known.is_registered(spec.key) {
                    known
                } else {
                    known.extended(spec)
                };
                &&& metric is Some
                &&& metric->0.graph == graph
                &&& metric->0.key == self.graph_key
                &&& custom.is_at(spec.key, metric->0.metric_idx as int)
                &&& after == with_custom_of(before, graph, self.graph_key, custom)
            },
            None => metric is None && after == before,
        }
    }

    /// Registers a metric of the given [`MetricKind`].
    pub fn register_custom_metric<K: MetricKind>(
        &self,
        graphs: &mut GraphTable,
        key: &str,
        unit: MetricUnit,
    ) -> (metric: Metric<K>)
        requires
            self.can_register(*old(graphs), key@, unit, K::mode()),
        ensures
            self.wf(*final(graphs)),
            final(graphs).room() == old(graphs).room(),
            self.registers(
                graph_views(*old(graphs)),
                MetricSpecView { key: key@, unit, agg: K::mode() },
                metric.target(),
                graph_views(*final(graphs)),
            ),
    {
        let ghost before = graph_views(*graphs);
        let ghost was = *graphs;
        let mut target: Option<MetricRef> = None;
        if let Some(graph) = self.graph_metrics {
            match graphs.remove(graph) {
                Some(metrics) => {
                    let mut metrics: GraphMetrics = metrics;
                    assert(was@.contains_key(graph));
                    let mut custom = metrics.take_custom_metrics(self.graph_key);
                    let metric_idx: usize = custom.register(
                        MetricSpec::new(key.to_owned(), unit, K::agg()),
                    );
                    metrics.put_custom_metrics(self.graph_key, custom);
                    let ghost after = metrics@;
                    graphs.put(graph, metrics);
                    proof {
                        assert(graph_views(*graphs) =~= before.insert(graph, after));
                        assert(after =~= (GraphMetricsView {
                            custom: entered(
                                before[graph].custom,
                                self.graph_key,
                                after.custom[self.graph_key],
                            ),
                            ..before[graph]
                        }));
                    }
                    target = Some(MetricRef { graph, key: self.graph_key, metric_idx });
                },
                None => {
                    assert(graphs@ =~= was@);
                    assert(graph_views(*graphs) =~= before);
                },
            }
        }
        Metric { target, kind: K::new() }
    }
}

/// A metric that tasks can report to, if it is collected.
#[derive(Clone, Copy, Debug)]
pub struct Metric<K: MetricKind> {
    target: Option<MetricRef>,
    kind: K,
}

impl<K: MetricKind> Default for Metric<K> {
    /// A metric that is not collected.
    fn default() -> (metric: Self)
        ensures
            metric.target() is None,
    {
        Metric { target: None, kind: K::new() }
    }
}

impl<K: MetricKind> Metric<K> {
    /// Where the metric is registered.
    pub closed spec fn target(self) -> Option<MetricRef> {
        self.target
    }

    /// Whether another task can take a reporter.
    pub fn has_cells_left(&self, graphs: &GraphTable) -> (left: bool)
        requires
            graphs_wf(*graphs),
        ensures
            left == (self.target() matches Some(target) ==> target.has_cells_left(
                graph_views(*graphs),
            )),
    {
        match self.target {
            None => true,
            Some(target) => is_key_number(target.key) && match graphs.get(target.graph) {
                None => true,
                Some(graph) => match graph.custom_metrics(target.key) {
                    None => true,
                    Some(custom) => custom.has_cells_left(),
                },
            },
        }
    }

    /// A reporter with a cell of its own, for one task.
    pub fn reporter(&self, graphs: &mut GraphTable) -> (reporter: MetricReporter<K>)
        requires
            graphs_wf(*old(graphs)),
            self.target() matches Some(target) ==> target.has_cells_left(graph_views(*old(graphs))),
        ensures
            graphs_wf(*final(graphs)),
            final(graphs).room() == old(graphs).room(),
            match self.target() {
                Some(target) => match target.custom(graph_views(*old(graphs))) {
                    Some(custom) => if target.metric_idx < custom.metrics.len() {
                        &&& reporter.target() == Some((target, custom.next_cell))
                        &&& graph_views(*final(graphs)) == with_custom_of(
                            graph_views(*old(graphs)),
                            target.graph,
                            target.key,
                            custom.cell_taken(target.metric_idx as int),
                        )
                    } else {
                        reporter.target() is None && graph_views(*final(graphs)) == graph_views(
                            *old(graphs),
                        )
                    },
                    None => reporter.target() is None && graph_views(*final(graphs)) == graph_views(
                        *old(graphs),
                    ),
                },
                None => reporter.target() is None && graph_views(*final(graphs)) == graph_views(
                    *old(graphs),
                ),
            },
    {
        let mut cell: Option<(MetricRef, u64)> = None;
        if let Some(target) = self.target {
            if let Some(custom) = take_custom(graphs, target) {
                let mut custom: CustomMetrics = custom;
                let ghost known = custom@;
                if target.metric_idx < custom.len() {
                    cell = Some((target, custom.new_cell(target.metric_idx)));
                }
                let ghost after = custom@;
                put_custom(graphs, target, custom);
                proof {
                    lemma_custom_back(graph_views(*old(graphs)), target, known, after);
                }
            }
        }
        MetricReporter { target: cell, kind: K::new() }
    }
}

impl MetricRef {
    /// The custom metrics that the metric is one of, if they exist.
    pub open spec fn custom(self, views: Map<u64, GraphMetricsView>) -> Option<CustomMetricsView> {
        custom_of(views, self.graph, self.key)
    }

    /// Whether there are numbers left for cells.
    pub open spec fn has_cells_left(self, views: Map<u64, GraphMetricsView>) -> bool {
        is_key(self.key) && (self.custom(views) matches Some(custom) ==> custom.next_cell
            < u64::MAX)
    }
}

/// Takes the custom metrics that a metric is one of out of their graph, leaving
/// none there.
fn take_custom(graphs: &mut GraphTable, target: MetricRef) -> (custom: Option<CustomMetrics>)
    requires
        graphs_wf(*old(graphs)),
        is_key(target.key),
    ensures
        graphs_wf(*final(graphs)),
        final(graphs).room() == old(graphs).room(),
        match target.custom(graph_views(*old(graphs))) {
            Some(known) => {
                &&& custom is Some
                &&& custom->0@ == known
                &&& known.wf()
                &&& without_rivals(graph_views(*old(graphs))[target.graph].custom, target.key)
                    == graph_views(*old(graphs))[target.graph].custom
                &&& graph_views(*final(graphs)) == with_custom_of(
                    graph_views(*old(graphs)),
                    target.graph,
                    target.key,
                    no_custom(),
                )
            },
            None => custom is None && graph_views(*final(graphs)) == graph_views(*old(graphs)),
        },
{
    let ghost before = graph_views(*graphs);
    let ghost was = *graphs;
    let mut taken: Option<CustomMetrics> = None;
    match graphs.remove(target.graph) {
        Some(metrics) => {
            let mut metrics: GraphMetrics = metrics;
            assert(was@.contains_key(target.graph));
            if metrics.custom_metrics(target.key).is_some() {
                proof {
                    metrics.lemma_wf();
                    lemma_known_key(metrics@.custom, target.key);
                }
                taken = Some(metrics.take_custom_metrics(target.key));
            }
            let ghost after = metrics@;
            graphs.put(target.graph, metrics);
            proof {
                assert(graph_views(*graphs) =~= before.insert(target.graph, after));
                if taken is None {
                    assert(graph_views(*graphs) =~= before);
                }
            }
        },
        None => {
            assert(graphs@ =~= was@);
            assert(graph_views(*graphs) =~= before);
        },
    }
    taken
}

/// Puts custom metrics back where they were taken from.
fn put_custom(graphs: &mut GraphTable, target: MetricRef, custom: CustomMetrics)
    requires
        graphs_wf(*old(graphs)),
        is_key(target.key),
        target.custom(graph_views(*old(graphs))) is Some,
        custom@.wf(),
    ensures
        graphs_wf(*final(graphs)),
        final(graphs).room() == old(graphs).room(),
        graph_views(*final(graphs)) == with_custom_of(
            graph_views(*old(graphs)),
            target.graph,
            target.key,
            custom@,
        ),
{
    let ghost before = graph_views(*graphs);
    let ghost was = *graphs;
    match graphs.remove(target.graph) {
        Some(metrics) => {
            let mut metrics: GraphMetrics = metrics;
            assert(was@.contains_key(target.graph));
            proof {
                metrics.lemma_wf();
                lemma_known_key(metrics@.custom, target.key);
            }
            metrics.put_custom_metrics(target.key, custom);
            let ghost after = metrics@;
            graphs.put(target.graph, metrics);
            assert(graph_views(*graphs) =~= before.insert(target.graph, after));
        },
        None => {},
    }
}

/// A task's share of a metric, if the metric is collected.
#[must_use]
pub struct MetricReporter<K: MetricKind> {
    target: Option<(MetricRef, u64)>,
    kind: K,
}

impl<K: MetricKind> Default for MetricReporter<K> {
    /// A reporter to a metric that is not collected.
    fn default() -> (reporter: Self)
        ensures
            reporter.target() is None,
    {
        MetricReporter { target: None, kind: K::new() }
    }
}

/// The graphs after `value` was written to the cell of a reporter.
pub open spec fn reported(
    views: Map<u64, GraphMetricsView>,
    target: Option<(MetricRef, u64)>,
    value: spec_fn(i64) -> i64,
    now: u64,
) -> Map<u64, GraphMetricsView> {
    match target {
        Some((metric, id)) => match metric.custom(views) {
            Some(custom) => match custom.cell(metric.metric_idx as int, id) {
                Some(live) => with_custom_of(
                    views,
                    metric.graph,
                    metric.key,
                    custom.written(metric.metric_idx as int, id, value(live.cell.value), now),
                ),
                None => views,
            },
            None => views,
        },
        None => views,
    }
}

impl<K: MetricKind> MetricReporter<K> {
    /// The metric and the cell that is reported to.
    pub closed spec fn target(&self) -> Option<(MetricRef, u64)> {
        self.target
    }

    /// The cell, if it exists.
    pub open spec fn cell(&self, views: Map<u64, GraphMetricsView>) -> Option<LiveCell> {
        match self.target() {
            Some((metric, id)) => match metric.custom(views) {
                Some(custom) => custom.cell(metric.metric_idx as int, id),
                None => None,
            },
            None => None,
        }
    }

    /// The key of the metric's node is one.
    pub open spec fn wf(&self) -> bool {
        self.target() matches Some(target) ==> is_key(target.0.key)
    }

    fn current(&self, graphs: &GraphTable) -> (value: Option<i64>)
        requires
            self.wf(),
            graphs_wf(*graphs),
        ensures
            value == match self.cell(graph_views(*graphs)) {
                Some(live) => Some(live.cell.value),
                None => None,
            },
    {
        if let Some((metric, id)) = self.target {
            if let Some(graph) = graphs.get(metric.graph) {
                if let Some(custom) = graph.custom_metrics(metric.key) {
                    if let Some(live) = custom.get_cell(metric.metric_idx, id) {
                        return Some(live.cell.value);
                    }
                }
            }
        }
        None
    }

    fn write(&self, graphs: &mut GraphTable, value: i64, now: u64)
        requires
            self.wf(),
            graphs_wf(*old(graphs)),
            now < u64::MAX,
        ensures
            graphs_wf(*final(graphs)),
            final(graphs).room() == old(graphs).room(),
            graph_views(*final(graphs)) == reported(
                graph_views(*old(graphs)),
                self.target(),
                |before: i64| value,
                now,
            ),
    {
        let ghost before = graph_views(*graphs);
        if let Some((metric, id)) = self.target {
            if let Some(custom) = take_custom(graphs, metric) {
                let mut custom: CustomMetrics = custom;
                let ghost known = custom@;
                custom.write_cell(metric.metric_idx, id, value, now);
                let ghost written = custom@;
                put_custom(graphs, metric, custom);
                proof {
                    lemma_custom_back(before, metric, known, written);
                }
            }
        }
    }
}

proof fn lemma_custom_back(
    views: Map<u64, GraphMetricsView>,
    metric: MetricRef,
    known: CustomMetricsView,
    written: CustomMetricsView,
)
    requires
        metric.custom(views) == Some(known),
    ensures
        with_custom_of(
            with_custom_of(views, metric.graph, metric.key, no_custom()),
            metric.graph,
            metric.key,
            written,
        ) == with_custom_of(views, metric.graph, metric.key, written),
        written == known && without_rivals(views[metric.graph].custom, metric.key)
            == views[metric.graph].custom ==> with_custom_of(
            views,
            metric.graph,
            metric.key,
            written,
        ) == views,
{
    let twice = with_custom_of(
        with_custom_of(views, metric.graph, metric.key, no_custom()),
        metric.graph,
        metric.key,
        written,
    );
    let once = with_custom_of(views, metric.graph, metric.key, written);
    assert(twice[metric.graph] =~= once[metric.graph]);
    assert(twice =~= once);
    if written == known && without_rivals(views[metric.graph].custom, metric.key)
        == views[metric.graph].custom {
        assert(once[metric.graph] =~= views[metric.graph]);
        assert(once =~= views);
    }
}

/// The sum after `delta` was added.
pub open spec fn plus(delta: i64) -> spec_fn(i64) -> i64 {
    |before: i64| before.wrapping_add(delta)
}

/// The sum after `delta` was taken away.
pub open spec fn minus(delta: i64) -> spec_fn(i64) -> i64 {
    |before: i64| before.wrapping_sub(delta)
}

/// The larger of what was there and `value`.
pub open spec fn at_least(value: i64) -> spec_fn(i64) -> i64 {
    |before: i64| larger(before as int, value as int) as i64
}

/// `value`, whatever was there.
pub open spec fn exactly(value: i64) -> spec_fn(i64) -> i64 {
    |before: i64| value
}

/// Represents an UpDownCounter
impl MetricReporter<Sum> {
    /// Adds `delta` to the task's share.
    pub fn add(&self, graphs: &mut GraphTable, delta: i64, now: u64)
        requires
            self.wf(),
            graphs_wf(*old(graphs)),
            now < u64::MAX,
        ensures
            graphs_wf(*final(graphs)),
            final(graphs).room() == old(graphs).room(),
            graph_views(*final(graphs)) == reported(
                graph_views(*old(graphs)),
                self.target(),
                plus(delta),
                now,
            ),
    {
        if let Some(value) = self.current(graphs) {
            self.write(graphs, value.wrapping_add(delta), now);
        }
    }

    /// Takes `delta` from the task's share.
    pub fn sub(&self, graphs: &mut GraphTable, delta: i64, now: u64)
        requires
            self.wf(),
            graphs_wf(*old(graphs)),
            now < u64::MAX,
        ensures
            graphs_wf(*final(graphs)),
            final(graphs).room() == old(graphs).room(),
            graph_views(*final(graphs)) == reported(
                graph_views(*old(graphs)),
                self.target(),
                minus(delta),
                now,
            ),
    {
        if let Some(value) = self.current(graphs) {
            self.write(graphs, value.wrapping_sub(delta), now);
        }
    }
}

/// Represents kinda a counter (since it can only go up)
impl MetricReporter<Max> {
    /// Raises the task's share to `value`, if it is lower.
    pub fn record(&self, graphs: &mut GraphTable, value: i64, now: u64)
        requires
            self.wf(),
            graphs_wf(*old(graphs)),
            now < u64::MAX,
        ensures
            graphs_wf(*final(graphs)),
            final(graphs).room() == old(graphs).room(),
            graph_views(*final(graphs)) == reported(
                graph_views(*old(graphs)),
                self.target(),
                at_least(value),
                now,
            ),
    {
        if let Some(before) = self.current(graphs) {
            let highest: i64 = if before >= value {
                before
            } else {
                value
            };
            self.write(graphs, highest, now);
        }
    }
}

impl MetricReporter<Gauge> {
    /// Sets the gauge.
    pub fn set(&self, graphs: &mut GraphTable, value: i64, now: u64)
        requires
            self.wf(),
            graphs_wf(*old(graphs)),
            now < u64::MAX,
        ensures
            graphs_wf(*final(graphs)),
            final(graphs).room() == old(graphs).room(),
            graph_views(*final(graphs)) == reported(
                graph_views(*old(graphs)),
                self.target(),
                exactly(value),
                now,
            ),
    {
        self.write(graphs, value, now);
    }
}

/// The graphs after the number of holders of a reporter's cell changed.
pub open spec fn held_by(
    views: Map<u64, GraphMetricsView>,
    target: Option<(MetricRef, u64)>,
    holders: spec_fn(u64) -> u64,
) -> Map<u64, GraphMetricsView> {
    match target {
        Some((metric, id)) => match metric.custom(views) {
            Some(custom) => match custom.cell(metric.metric_idx as int, id) {
                Some(live) => with_custom_of(
                    views,
                    metric.graph,
                    metric.key,
                    custom.cell_set(
                        metric.metric_idx as int,
                        LiveCell { holders: holders(live.holders), ..live },
                    ),
                ),
                None => views,
            },
            None => views,
        },
        None => views,
    }
}

/// One more.
pub open spec fn one_more() -> spec_fn(u64) -> u64 {
    |holders: u64| (holders + 1) as u64
}

/// One less, if there is any.
pub open spec fn one_less() -> spec_fn(u64) -> u64 {
    |holders: u64|
        if holders > 0 {
            (holders - 1) as u64
        } else {
            0
        }
}

impl<K: MetricKind> MetricReporter<K> {
    /// Whether the cell can take another reporter.
    pub fn can_share(&self, graphs: &GraphTable) -> (can: bool)
        requires
            self.wf(),
            graphs_wf(*graphs),
        ensures
            can == (self.cell(graph_views(*graphs)) matches Some(live) ==> live.holders < u64::MAX),
    {
        if let Some((metric, id)) = self.target {
            if let Some(graph) = graphs.get(metric.graph) {
                if let Some(custom) = graph.custom_metrics(metric.key) {
                    if let Some(live) = custom.get_cell(metric.metric_idx, id) {
                        return live.holders < u64::MAX;
                    }
                }
            }
        }
        true
    }

    /// Another reporter to the same cell, which keeps the cell alive.
    pub fn share(&self, graphs: &mut GraphTable) -> (reporter: MetricReporter<K>)
        requires
            self.wf(),
            graphs_wf(*old(graphs)),
            self.cell(graph_views(*old(graphs))) matches Some(live) ==> live.holders < u64::MAX,
        ensures
            graphs_wf(*final(graphs)),
            final(graphs).room() == old(graphs).room(),
            reporter.target() == self.target(),
            graph_views(*final(graphs)) == held_by(
                graph_views(*old(graphs)),
                self.target(),
                one_more(),
            ),
    {
        if let Some((metric, id)) = self.target {
            if let Some(custom) = take_custom(graphs, metric) {
                let mut custom: CustomMetrics = custom;
                let ghost known = custom@;
                custom.hold_cell(metric.metric_idx, id);
                let ghost after = custom@;
                put_custom(graphs, metric, custom);
                proof {
                    lemma_custom_back(graph_views(*old(graphs)), metric, known, after);
                }
            }
        }
        MetricReporter { target: self.target, kind: self.kind }
    }

    /// Ends the reporter. What it reported stays.
    pub fn end(self, graphs: &mut GraphTable)
        requires
            self.wf(),
            graphs_wf(*old(graphs)),
        ensures
            graphs_wf(*final(graphs)),
            final(graphs).room() == old(graphs).room(),
            graph_views(*final(graphs)) == held_by(
                graph_views(*old(graphs)),
                self.target(),
                one_less(),
            ),
    {
        if let Some((metric, id)) = self.target {
            if let Some(custom) = take_custom(graphs, metric) {
                let mut custom: CustomMetrics = custom;
                let ghost known = custom@;
                custom.release_cell(metric.metric_idx, id);
                let ghost after = custom@;
                put_custom(graphs, metric, custom);
                proof {
                    lemma_custom_back(graph_views(*old(graphs)), metric, known, after);
                }
            }
        }
    }
}

/// Registering the same key twice shares one metric: the second registration
/// finds the first and adds nothing.
pub proof fn law_same_key_shares_one_metric(
    registry: NodeMetricsRegistry,
    spec: MetricSpecView,
    before: Map<u64, GraphMetricsView>,
    first: Option<MetricRef>,
    between: Map<u64, GraphMetricsView>,
    second: Option<MetricRef>,
    after: Map<u64, GraphMetricsView>,
)
    requires
        registry.registers(before, spec, first, between),
        registry.registers(between, spec, second, after),
        registry.target(before) matches Some(graph) ==> between[graph].custom[registry.graph_key].wf(),
    ensures
        second == first,
        after == between,
{
    if let Some(graph) = registry.target(before) {
        let known = get_or(before[graph].custom, registry.graph_key, no_custom());
        let custom = between[graph].custom[registry.graph_key];
        let idx = first->0.metric_idx as int;
        assert(custom.is_at(spec.key, idx));
        assert(custom.is_registered(spec.key));
        let again = second->0.metric_idx as int;
        assert(custom.is_at(spec.key, again));
        if idx != again {
            assert(custom.metrics[idx].spec.key != custom.metrics[again].spec.key);
        }
        assert(after =~= between) by {
            assert(after[graph] =~= between[graph]);
        }
    }
}

} // verus!
