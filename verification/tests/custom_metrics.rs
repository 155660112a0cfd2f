use polars_engine::metrics::custom::{
    AggMode, Cell, Compacted, CustomMetric, CustomMetrics, MetricSpec, MetricUnit,
};
use polars_engine::metrics::graph::GraphMetrics;
use polars_engine::metrics::kind::{Gauge, Max, MetricKind, Sum};
use polars_engine::metrics::registry::{GraphTable, Metric, MetricReporter, NodeMetricsRegistry};
use slotmap::{DefaultKey, Key, SlotMap};

const ROWS: &str = "test.rows";
const PEAK: &str = "test.peak";
const HELD: &str = "test.held";

// Registration order, for reaching into the state directly.
const ROWS_IDX: usize = 0;
const PEAK_IDX: usize = 1;
const HELD_IDX: usize = 2;

struct Metrics {
    rows: Metric<Sum>,
    peak: Metric<Max>,
    held: Metric<Gauge>,
}

/// A node whose metrics are collected, with a clock that advances on every use.
struct Node {
    graphs: GraphTable,
    registry: NodeMetricsRegistry,
    now: u64,
}

impl Node {
    fn new() -> Node {
        let mut nodes: SlotMap<DefaultKey, ()> = SlotMap::new();
        let mut graphs = GraphTable::new();
        let graph = graphs.add(GraphMetrics::new());
        Node {
            graphs,
            registry: NodeMetricsRegistry {
                graph_key: nodes.insert(()).data().as_ffi(),
                graph_metrics: Some(graph),
            },
            now: 0,
        }
    }

    fn register(&mut self) -> Metrics {
        Metrics {
            rows: self.registry.new_counter(&mut self.graphs, ROWS, MetricUnit::Unit),
            peak: self.registry.new_max(&mut self.graphs, PEAK, MetricUnit::Bytes),
            held: self.registry.new_gauge(&mut self.graphs, HELD, MetricUnit::Bytes),
        }
    }

    fn tick(&mut self) -> u64 {
        self.now += 1;
        self.now
    }

    fn add(&mut self, reporter: &MetricReporter<Sum>, delta: i64) {
        let now = self.tick();
        reporter.add(&mut self.graphs, delta, now);
    }

    fn sub(&mut self, reporter: &MetricReporter<Sum>, delta: i64) {
        let now = self.tick();
        reporter.sub(&mut self.graphs, delta, now);
    }

    fn record(&mut self, reporter: &MetricReporter<Max>, value: i64) {
        let now = self.tick();
        reporter.record(&mut self.graphs, value, now);
    }

    fn set(&mut self, reporter: &MetricReporter<Gauge>, value: i64) {
        let now = self.tick();
        reporter.set(&mut self.graphs, value, now);
    }

    fn reporter<K: MetricKind>(&mut self, metric: &Metric<K>) -> MetricReporter<K> {
        metric.reporter(&mut self.graphs)
    }

    fn end<K: MetricKind>(&mut self, reporter: MetricReporter<K>) {
        reporter.end(&mut self.graphs);
    }

    fn with_counters<R>(&mut self, f: impl FnOnce(&mut CustomMetrics) -> R) -> R {
        let number = self.registry.graph_metrics.unwrap();
        let key = self.registry.graph_key;
        let mut graph = self.graphs.remove(number).unwrap();
        let mut custom = graph.take_custom_metrics(key);
        let result = f(&mut custom);
        graph.put_custom_metrics(key, custom);
        self.graphs.put(number, graph);
        result
    }

    fn snapshot(&mut self) -> Vec<CustomMetric> {
        self.with_counters(|custom| custom.snapshot_and_compact())
    }

    /// `None` only for a metric that never recorded.
    fn reading(&mut self, key: &str) -> Option<i64> {
        self.snapshot()
            .into_iter()
            .find(|metric| metric.key == key)
            .unwrap()
            .value
    }

    fn value(&mut self, key: &str) -> i64 {
        self.reading(key).unwrap()
    }

    fn live_cells(&mut self, metric_idx: usize) -> usize {
        self.with_counters(|custom| custom.num_live(metric_idx))
    }

    fn result(&mut self, metric_idx: usize) -> i64 {
        self.with_counters(|custom| custom.compacted(metric_idx).value)
    }
}

/// A node with the three metrics above already registered.
fn node() -> (Node, Metrics) {
    let mut node = Node::new();
    let metrics = node.register();
    (node, metrics)
}

#[test]
fn snapshot_reports_metrics_in_registration_order() {
    let (mut node, _metrics) = node();

    let keys: Vec<String> = node.snapshot().into_iter().map(|metric| metric.key).collect();

    assert_eq!(keys, [ROWS, PEAK, HELD]);
}

#[test]
fn reporters_net_out_across_tasks() {
    let (mut node, metrics) = node();

    let opener = node.reporter(&metrics.rows);
    let closer = node.reporter(&metrics.rows);

    node.add(&opener, 3);
    // One task's own cell goes negative; the total is still the net.
    node.sub(&closer, 2);
    assert_eq!(node.value(ROWS), 1);

    // And it survives the negative cell being compacted.
    node.end(closer);
    assert_eq!(node.value(ROWS), 1);
    assert_eq!(node.result(ROWS_IDX), -2);
}

#[test]
fn a_gauge_reports_the_latest_set_across_tasks() {
    let (mut node, metrics) = node();

    let first = node.reporter(&metrics.held);
    let second = node.reporter(&metrics.held);

    node.set(&first, 2);
    node.set(&second, 3);
    assert_eq!(node.value(HELD), 3);

    // Registration order does not matter, only which write came last.
    node.set(&first, 10);
    assert_eq!(node.value(HELD), 10);

    // A lower value still replaces a higher one.
    node.set(&second, 1);
    assert_eq!(node.value(HELD), 1);
}

#[test]
fn a_gauge_keeps_the_latest_set_through_compaction() {
    let (mut node, metrics) = node();

    let stale = node.reporter(&metrics.held);
    let fresh = node.reporter(&metrics.held);

    node.set(&stale, 7);
    node.set(&fresh, 4);

    // Compacting the older cell must not let it override the live one.
    node.end(stale);
    assert_eq!(node.value(HELD), 4);

    // And a finished task's last value is what remains once all are gone.
    node.end(fresh);
    assert_eq!(node.value(HELD), 4);
    assert_eq!(node.live_cells(HELD_IDX), 0);

    // A task that never sets does not reset the gauge.
    let idle = node.reporter(&metrics.held);
    assert_eq!(node.value(HELD), 4);

    // A later set wins over the compacted value.
    node.set(&idle, 9);
    assert_eq!(node.value(HELD), 9);
}

#[test]
fn max_reports_the_highest_share_not_their_sum() {
    let (mut node, metrics) = node();

    let reporters: Vec<_> = (0..3).map(|_| node.reporter(&metrics.peak)).collect();
    for (reporter, peak) in reporters.iter().zip([-5, -9, -7]) {
        node.record(reporter, peak);
    }

    // Every reading is negative, so a mark seeded at `0` would be wrong.
    assert_eq!(node.value(PEAK), -5);

    // A lower reading does not pull the mark back down, and a task that
    // never records must not drag it up to `0`.
    node.record(&reporters[0], -11);
    let idle = node.reporter(&metrics.peak);
    assert_eq!(node.value(PEAK), -5);

    // Nor does compacting the cell that set it, or one recorded after.
    node.end(idle);
    for reporter in reporters {
        node.end(reporter);
    }
    assert_eq!(node.value(PEAK), -5);
    let later = node.reporter(&metrics.peak);
    node.record(&later, -8);
    node.end(later);
    assert_eq!(node.value(PEAK), -5);
}

#[test]
fn a_max_that_records_its_identity_still_reports_it() {
    let (mut node, metrics) = node();

    // Absence is tracked by timestamp, not by the `i64::MIN` seed.
    let reporter = node.reporter(&metrics.peak);
    node.record(&reporter, i64::MIN);
    node.end(reporter);
    assert_eq!(node.reading(PEAK), Some(i64::MIN));
}

#[test]
fn a_metric_with_no_readings_reports_nothing() {
    let (mut node, metrics) = node();

    assert_eq!(node.reading(ROWS), None);
    assert_eq!(node.reading(PEAK), None);
    assert_eq!(node.reading(HELD), None);

    // Taking a reporter is not a reading.
    let _idle = node.reporter(&metrics.rows);
    assert_eq!(node.reading(ROWS), None);

    // But a write that nets to zero is.
    let reporter = node.reporter(&metrics.rows);
    node.add(&reporter, 0);
    node.end(reporter);
    assert_eq!(node.reading(ROWS), Some(0));
}

#[test]
fn registering_the_same_key_twice_shares_one_counter() {
    let mut node = Node::new();

    let first = node.register();
    let reporter = node.reporter(&first.rows);
    node.add(&reporter, 4);
    node.end(reporter);
    let registered = node.with_counters(|custom| custom.len());

    let second = node.register();
    let reporter = node.reporter(&second.rows);
    node.add(&reporter, 6);
    node.end(reporter);

    // The second registration found every key and added nothing.
    assert_eq!(node.with_counters(|custom| custom.len()), registered);
    assert_eq!(node.value(ROWS), 10);
}

#[test]
#[should_panic(expected = "already registered differently")]
fn reregistering_a_metric_with_a_different_aggregation_is_rejected() {
    let mut node = Node::new();

    node.registry.new_counter(&mut node.graphs, ROWS, MetricUnit::Unit);
    if node.registry.is_registered_differently::<Max>(&node.graphs, ROWS, MetricUnit::Unit) {
        panic!("metric `{ROWS}` was already registered differently");
    }
    node.registry.new_max(&mut node.graphs, ROWS, MetricUnit::Unit);
}

#[test]
fn registering_differently_is_noticed() {
    let mut node = Node::new();
    node.registry.new_counter(&mut node.graphs, ROWS, MetricUnit::Unit);

    let registry = node.registry;
    assert!(!registry.is_registered_differently::<Sum>(&node.graphs, ROWS, MetricUnit::Unit));
    assert!(registry.is_registered_differently::<Sum>(&node.graphs, ROWS, MetricUnit::Bytes));
    assert!(registry.is_registered_differently::<Gauge>(&node.graphs, ROWS, MetricUnit::Unit));
    assert!(!registry.is_registered_differently::<Max>(&node.graphs, PEAK, MetricUnit::Unit));
}

#[test]
fn compacting_a_cell_moves_its_value_rather_than_losing_it() {
    let (mut node, metrics) = node();

    let live = node.reporter(&metrics.rows);
    let finished = node.reporter(&metrics.rows);
    node.add(&live, 7);
    node.add(&finished, 11);

    // Counted while both tasks are still running.
    assert_eq!(node.value(ROWS), 18);
    assert_eq!(node.live_cells(ROWS_IDX), 2);

    node.end(finished);
    assert_eq!(node.value(ROWS), 18);
    assert_eq!(node.live_cells(ROWS_IDX), 1);
    assert_eq!(node.result(ROWS_IDX), 11);

    // A still-running task keeps accruing after its sibling was compacted.
    node.add(&live, 1);
    assert_eq!(node.value(ROWS), 19);

    node.end(live);
    assert_eq!(node.value(ROWS), 19);
    assert_eq!(node.live_cells(ROWS_IDX), 0);
}

#[test]
fn a_clone_keeps_the_cell_it_shares_alive() {
    let (mut node, metrics) = node();

    let reporter = node.reporter(&metrics.rows);
    let clone = reporter.share(&mut node.graphs);
    node.add(&reporter, 3);

    node.end(reporter);
    assert_eq!(node.value(ROWS), 3);
    assert_eq!(node.live_cells(ROWS_IDX), 1);

    // The clone is still a writer, so the cell must not have been compacted.
    node.add(&clone, 4);
    assert_eq!(node.value(ROWS), 7);

    node.end(clone);
    assert_eq!(node.value(ROWS), 7);
    assert_eq!(node.live_cells(ROWS_IDX), 0);
}

#[test]
fn a_task_only_takes_reporters_for_the_metrics_it_writes() {
    let (mut node, metrics) = node();

    // One serial task counting rows, alongside parallel tasks tracking the
    // high-water mark. Neither allocates for the other's metric.
    let serial = node.reporter(&metrics.rows);
    let parallel: Vec<_> = (0..3).map(|_| node.reporter(&metrics.peak)).collect();

    node.add(&serial, 5);
    for (reporter, peak) in parallel.iter().zip([2, 8, 4]) {
        node.record(reporter, peak);
    }

    assert_eq!(node.live_cells(ROWS_IDX), 1);
    assert_eq!(node.live_cells(PEAK_IDX), 3);
    assert_eq!(node.value(ROWS), 5);
    assert_eq!(node.value(PEAK), 8);
}

#[test]
fn readings_between_reports_never_go_backwards() {
    const TASKS: i64 = 8;
    const PER_TASK: i64 = 200;

    let (mut node, metrics) = node();
    let mut previous = None;
    let mut running: Vec<(MetricReporter<Sum>, MetricReporter<Max>)> = Vec::new();
    for task in 0..TASKS {
        let rows = node.reporter(&metrics.rows);
        let peak = node.reporter(&metrics.peak);
        for _ in 0..PER_TASK {
            node.add(&rows, 1);
            node.record(&peak, task);
            let seen = node.reading(ROWS);
            assert!(seen >= previous);
            assert!(seen <= Some(TASKS * PER_TASK));
            previous = seen;
        }
        running.push((rows, peak));
        if task % 2 == 1 {
            let (rows, peak) = running.remove(0);
            node.end(rows);
            node.end(peak);
        }
    }
    for (rows, peak) in running {
        node.end(rows);
        node.end(peak);
    }
    assert_eq!(node.value(ROWS), TASKS * PER_TASK);
    assert_eq!(node.value(PEAK), TASKS - 1);
    assert_eq!(node.live_cells(ROWS_IDX), 0);
}

#[test]
fn nothing_is_reported_where_nothing_is_collected() {
    let mut graphs = GraphTable::new();
    let registry = NodeMetricsRegistry {
        graph_key: (1 << 32) | 1,
        graph_metrics: None,
    };
    assert!(!registry.is_some());
    let metric = registry.new_counter(&mut graphs, ROWS, MetricUnit::Unit);
    let reporter = metric.reporter(&mut graphs);
    reporter.add(&mut graphs, 1, 1);
    reporter.end(&mut graphs);
    assert!(!graphs.contains(0));
}

#[test]
fn a_graph_that_is_gone_takes_no_reports() {
    let (mut node, metrics) = node();
    let reporter = node.reporter(&metrics.rows);
    node.graphs.remove(node.registry.graph_metrics.unwrap());
    node.add(&reporter, 1);
    let late = node.reporter(&metrics.rows);
    node.add(&late, 1);
    node.end(reporter);
    node.end(late);
    assert!(!node.graphs.contains(node.registry.graph_metrics.unwrap()));
}

#[test]
fn modes_fold_from_their_identity() {
    assert_eq!(AggMode::Sum.identity(), 0);
    assert_eq!(AggMode::Max.identity(), i64::MIN);
    assert_eq!(AggMode::Latest.identity(), 0);

    let early = Cell {
        value: 5,
        timestamp: 3,
    };
    let late = Compacted {
        value: -2,
        timestamp: 9,
    };
    let sum = AggMode::Sum.fold(late, &early);
    assert_eq!((sum.value, sum.timestamp), (3, 9));
    let max = AggMode::Max.fold(late, &early);
    assert_eq!((max.value, max.timestamp), (5, 9));
    let latest = AggMode::Latest.fold(late, &early);
    assert_eq!((latest.value, latest.timestamp), (-2, 9));
    let tie = AggMode::Latest.fold(
        Compacted {
            value: 1,
            timestamp: 3,
        },
        &early,
    );
    assert_eq!((tie.value, tie.timestamp), (5, 3));
    let wraps = AggMode::Sum.fold(
        Compacted {
            value: i64::MAX,
            timestamp: 1,
        },
        &Cell {
            value: 1,
            timestamp: 1,
        },
    );
    assert_eq!(wraps.value, i64::MIN);
}

#[test]
fn a_value_is_there_once_it_was_written() {
    assert_eq!(Compacted::new(7).value(), None);
    let written = Compacted {
        value: 7,
        timestamp: 1,
    };
    assert_eq!(written.value(), Some(7));

    let mut cell = Cell::new(4);
    assert_eq!(cell.timestamp, 0);
    cell.stamp_now(0);
    assert_eq!(cell.timestamp, 1);
    assert_eq!(cell.value, 4);
}

#[test]
fn a_registered_metric_keeps_its_index() {
    let mut metrics = CustomMetrics::new();
    let spec = |key: &str| MetricSpec::new(key.to_string(), MetricUnit::Unit, AggMode::Sum);
    assert_eq!(metrics.register(spec("a")), 0);
    assert_eq!(metrics.register(spec("b")), 1);
    assert_eq!(metrics.register(spec("a")), 0);
    assert_eq!(metrics.len(), 2);
    assert_eq!(metrics.new_cell(1), 0);
    assert_eq!(metrics.new_cell(0), 1);
    metrics.write_cell(1, 0, 6, 10);
    assert_eq!(metrics.get_cell(1, 0).unwrap().cell.value, 6);
    assert!(metrics.get_cell(0, 0).is_none());
    assert_eq!(metrics.get_cell(0, 1).unwrap().holders, 1);
}

#[test]
fn a_maximum_never_goes_down() {
    let (mut node, metrics) = node();
    let peak = node.reporter(&metrics.peak);
    node.record(&peak, 5);
    assert_eq!(node.reading(PEAK), Some(5));
    node.record(&peak, 3);
    assert_eq!(node.reading(PEAK), Some(5));
    node.record(&peak, 9);
    assert_eq!(node.reading(PEAK), Some(9));
    node.end(peak);
    assert_eq!(node.reading(PEAK), Some(9));
}

#[test]
fn a_reading_tells_the_whole_history() {
    let (mut node, metrics) = node();
    let rows = node.reporter(&metrics.rows);
    let peak = node.reporter(&metrics.peak);
    let held = node.reporter(&metrics.held);
    assert_eq!(node.reading(ROWS), None);
    node.add(&rows, 9);
    node.record(&peak, -3);
    node.set(&held, 7);
    node.end(rows);
    node.end(peak);
    assert_eq!(node.reading(PEAK), Some(-3));
    let rows = node.reporter(&metrics.rows);
    let peak = node.reporter(&metrics.peak);
    let other = node.reporter(&metrics.held);
    node.sub(&rows, 20);
    node.record(&peak, -8);
    node.set(&other, 1);
    node.set(&held, 4);
    node.end(held);
    node.end(other);
    assert_eq!(node.reading(ROWS), Some(-11));
    assert_eq!(node.reading(PEAK), Some(-3));
    assert_eq!(node.reading(HELD), Some(4));
    assert_eq!(node.reading(HELD), Some(4));
}

#[test]
fn a_metric_says_whether_it_takes_more_reporters() {
    let (mut node, metrics) = node();
    assert!(metrics.rows.has_cells_left(&node.graphs));
    let rows = node.reporter(&metrics.rows);
    assert!(rows.can_share(&node.graphs));
}

#[test]
fn a_default_metric_is_not_collected() {
    let mut graphs = GraphTable::new();
    let metric: Metric<Sum> = Metric::default();
    let reporter = metric.reporter(&mut graphs);
    reporter.add(&mut graphs, 3, 1);
    reporter.end(&mut graphs);

    // It reports to nothing, also where something is collected.
    let (mut node, metrics) = node();
    let stray: MetricReporter<Sum> = MetricReporter::default();
    let rows = node.reporter(&metrics.rows);
    node.add(&rows, 5);
    node.add(&stray, 90);
    assert_eq!(node.reading(ROWS), Some(5));
}
