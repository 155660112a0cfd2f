use polars_engine::executor::task::TaskMetricsTable;
use polars_engine::executor::worker_state::PollRecord;
use polars_engine::io_metrics::{IOMetrics, IOMetricsTable, OptIOMetrics};
use polars_engine::live_timer::LiveTimer;
use polars_engine::metrics::custom::{AggMode, MetricSpec, MetricUnit};
use polars_engine::metrics::graph::{Collected, GraphMetrics, LogicalPipe, LogicalPipes, PipeMetricsTable};
use polars_engine::metrics::node::PipeMetrics;
use polars_engine::metrics::registry::{GraphTable, NodeMetricsRegistry};
use slotmap::{DefaultKey, Key, SlotMap};

struct World {
    graph: GraphMetrics,
    pipes: LogicalPipes,
    tasks: TaskMetricsTable,
    io: IOMetricsTable,
    pipe_metrics: PipeMetricsTable,
}

impl World {
    fn new() -> World {
        World {
            graph: GraphMetrics::new(),
            pipes: LogicalPipes::new(),
            tasks: TaskMetricsTable::new(),
            io: IOMetricsTable::new(),
            pipe_metrics: PipeMetricsTable::new(),
        }
    }

    fn can_flush(&self) -> bool {
        self.graph
            .can_flush(&self.pipes, &self.tasks, &self.io, &self.pipe_metrics, 0)
    }

    fn flush(&mut self, now: u64) {
        assert!(self.can_flush());
        self.graph
            .flush(&self.pipes, &self.tasks, &self.io, &self.pipe_metrics, now);
    }
}

/// The keys of as many nodes.
fn nodes<const N: usize>() -> [u64; N] {
    let mut nodes: SlotMap<DefaultKey, ()> = SlotMap::new();
    std::array::from_fn(|_| nodes.insert(()).data().as_ffi())
}

fn poll(elapsed_ns: u64) -> PollRecord {
    PollRecord {
        elapsed_ns,
        cpu_ns: elapsed_ns / 2,
        local: true,
        attributed: true,
    }
}

#[test]
fn a_task_that_outlives_its_phase_is_counted_once() {
    let [node] = nodes();
    let mut w = World::new();
    let task = w.tasks.register();
    w.graph.add_task(node, task);
    w.tasks.record_poll(task, poll(10));
    w.flush(0);
    w.tasks.record_poll(task, poll(30));
    w.flush(0);
    w.flush(0);

    let counters = w.graph.get(node).unwrap();
    assert_eq!(counters.total_polls, 2);
    assert_eq!(counters.total_poll_time_ns, 40);
    assert_eq!(counters.max_poll_time_ns, 30);
    assert_eq!(counters.total_poll_cpu_time_ns, 20);
    assert_eq!(counters.total_stolen_polls, 0);
    assert_eq!(counters.num_running_tasks, 1);
}

#[test]
fn the_last_poll_of_a_task_is_not_lost() {
    let [node] = nodes();
    let mut w = World::new();
    let task = w.tasks.register();
    w.graph.add_task(node, task);

    // The task is marked done before its last poll is recorded.
    w.tasks.mark_done(task);
    w.flush(0);
    assert_eq!(w.graph.get(node).unwrap().total_polls, 0);
    assert_eq!(w.graph.get(node).unwrap().num_running_tasks, 0);
    w.tasks.record_poll(task, poll(7));
    w.flush(0);
    assert_eq!(w.graph.get(node).unwrap().total_polls, 1);

    // Now the task was let go.
    w.tasks.record_poll(task, poll(7));
    w.flush(0);
    assert_eq!(w.graph.get(node).unwrap().total_polls, 1);
}

#[test]
fn running_tasks_are_counted_anew() {
    let [node] = nodes();
    let mut w = World::new();
    let a = w.tasks.register();
    let b = w.tasks.register();
    w.graph.add_task(node, a);
    w.graph.add_task(node, b);
    w.flush(0);
    assert_eq!(w.graph.get(node).unwrap().num_running_tasks, 2);
    w.tasks.mark_done(a);
    w.flush(0);
    assert_eq!(w.graph.get(node).unwrap().num_running_tasks, 1);
}

#[test]
fn occupancy_is_read_not_added() {
    let [node] = nodes();
    let mut w = World::new();
    w.graph.track_occupancy(node);
    w.graph.occupancy_mut(node).start_session(100);
    w.graph.occupancy_mut(node).start_session(150);
    w.graph.occupancy_mut(node).end_session(180);
    w.flush(200);
    assert_eq!(w.graph.get(node).unwrap().poll_occupancy_ns, 100);
    w.graph.occupancy_mut(node).end_session(210);
    w.flush(300);
    w.flush(400);
    assert_eq!(w.graph.get(node).unwrap().poll_occupancy_ns, 110);
}

#[test]
fn input_and_output_are_read_not_added() {
    let [node] = nodes();
    let mut w = World::new();
    let number = w.io.add(IOMetrics::new());
    w.graph.register_io_metrics(node, number);
    w.graph.register_io_metrics(node, number);
    assert_eq!(w.graph.io_metrics(node), Some(number));

    let io = OptIOMetrics(Some(number));
    let session = io.begin_io_read(&mut w.io, 100, 10);
    io.end_io_read(&mut w.io, session, 100, 60);
    let session = io.start_io_session(&mut w.io, 70);
    io.end_bytes_tx(&mut w.io, session, 30, 80);
    w.flush(90);
    w.flush(95);

    let counters = w.graph.get(node).unwrap();
    assert_eq!(counters.io_total_active_ns, 60);
    assert_eq!(counters.io_total_bytes_requested, 100);
    assert_eq!(counters.io_total_bytes_received, 100);
    assert_eq!(counters.io_total_bytes_sent, 30);
}

#[test]
fn io_metrics_are_reported_only_where_they_exist() {
    let mut table = IOMetricsTable::new();
    let number = table.add(IOMetrics::new());
    for io in [OptIOMetrics(None), OptIOMetrics(Some(number + 1))] {
        assert!(io.start_io_session(&mut table, 5).is_none());
        io.add_bytes_requested(&mut table, 1);
        io.add_bytes_received(&mut table, 1);
        io.add_bytes_sent(&mut table, 1);
        io.add_decode_task(&mut table, 1);
    }
    assert_eq!(*table.get(number).unwrap(), IOMetrics::new());

    let io = OptIOMetrics(Some(number));
    io.add_decode_task(&mut table, 7);
    io.add_decode_task(&mut table, 8);
    io.add_bytes_requested(&mut table, 1);
    io.add_bytes_received(&mut table, 2);
    io.add_bytes_sent(&mut table, 3);
    let metrics = table.get(number).unwrap();
    assert_eq!(metrics.decode_task_poll_ns, 15);
    assert_eq!(metrics.bytes_requested, 1);
    assert_eq!(metrics.bytes_received, 2);
    assert_eq!(metrics.bytes_sent, 3);
}

#[test]
fn a_pipe_is_collected_at_both_ends_and_once() {
    let [sender, receiver] = nodes();
    let mut w = World::new();
    assert!(w.pipes.has_room());
    let pipe = w.pipes.insert(LogicalPipe { sender, receiver });
    assert_eq!(w.pipes.get(pipe), Some(LogicalPipe { sender, receiver }));
    for (morsels, rows, largest) in [(2, 20, 15), (1, 8, 8)] {
        let number = w.pipe_metrics.add(PipeMetrics {
            morsels_sent: morsels,
            rows_sent: rows,
            largest_morsel_sent: largest,
            morsels_received: morsels + 1,
            rows_received: rows + 1,
            largest_morsel_received: largest + 1,
        });
        w.graph.add_pipe(pipe, number);
    }
    w.flush(0);
    w.flush(0);

    let sent = w.graph.get(sender).unwrap();
    assert_eq!((sent.morsels_sent, sent.rows_sent, sent.largest_morsel_sent), (3, 28, 15));
    assert_eq!((sent.morsels_received, sent.rows_received), (0, 0));
    let received = w.graph.get(receiver).unwrap();
    assert_eq!(
        (
            received.morsels_received,
            received.rows_received,
            received.largest_morsel_received
        ),
        (5, 30, 16)
    );
    assert_eq!(received.rows_sent, 0);
}

#[test]
fn a_second_flush_with_nothing_new_changes_no_node() {
    let [a, b] = nodes();
    let mut w = World::new();
    let done = w.tasks.register();
    let running = w.tasks.register();
    w.graph.add_task(a, done);
    w.graph.add_task(a, running);
    w.tasks.record_poll(done, poll(8));
    w.tasks.record_poll(running, poll(5));
    w.tasks.mark_done(done);
    w.graph.track_occupancy(a);
    w.graph.occupancy_mut(a).start_session(10);
    w.graph.occupancy_mut(a).end_session(30);
    let io = w.io.add(IOMetrics::new());
    w.graph.register_io_metrics(b, io);
    OptIOMetrics(Some(io)).add_bytes_sent(&mut w.io, 70);
    let mut custom = w.graph.take_custom_metrics(b);
    let idx = custom.register(MetricSpec::new("held".to_string(), MetricUnit::Unit, AggMode::Latest));
    let cell = custom.new_cell(idx);
    custom.write_cell(idx, cell, 6, 1);
    custom.release_cell(idx, cell);
    w.graph.put_custom_metrics(b, custom);
    let pipe = w.pipes.insert(LogicalPipe { sender: a, receiver: b });
    let number = w.pipe_metrics.add(PipeMetrics {
        morsels_sent: 1,
        rows_sent: 2,
        largest_morsel_sent: 2,
        morsels_received: 1,
        rows_received: 2,
        largest_morsel_received: 2,
    });
    w.graph.add_pipe(pipe, number);

    w.flush(40);
    let first = [a, b].map(|key| format!("{:?}", w.graph.get(key).unwrap()));
    assert_eq!(w.graph.get(a).unwrap().num_running_tasks, 1);
    assert_eq!(w.graph.get(b).unwrap().rows_received, 2);
    for now in [50, 60] {
        w.flush(now);
        let again = [a, b].map(|key| format!("{:?}", w.graph.get(key).unwrap()));
        assert_eq!(again, first);
    }
}

#[test]
fn a_second_flush_changes_nothing_where_a_pipe_joins_two_versions_of_a_slot() {
    let receiver = (1 << 32) | 5;
    let sender = (3 << 32) | 5;
    let mut w = World::new();
    let pipe = w.pipes.insert(LogicalPipe { sender, receiver });
    let number = w.pipe_metrics.add(PipeMetrics {
        morsels_sent: 1,
        rows_sent: 2,
        largest_morsel_sent: 2,
        morsels_received: 1,
        rows_received: 2,
        largest_morsel_received: 2,
    });
    w.graph.add_pipe(pipe, number);
    for now in [1, 2] {
        w.flush(now);
        assert!(w.graph.get(receiver).is_none());
        let sent = w.graph.get(sender).unwrap();
        assert_eq!((sent.rows_sent, sent.rows_received), (2, 0));
    }
}

#[test]
fn a_copy_of_a_nodes_metrics_holds_the_same() {
    let [node] = nodes();
    let mut w = World::new();
    let task = w.tasks.register();
    w.graph.add_task(node, task);
    w.tasks.record_poll(task, poll(10));
    let mut custom = w.graph.take_custom_metrics(node);
    let idx = custom.register(MetricSpec::new("held".to_string(), MetricUnit::Unit, AggMode::Latest));
    let cell = custom.new_cell(idx);
    custom.write_cell(idx, cell, 6, 1);
    w.graph.put_custom_metrics(node, custom);
    w.flush(0);

    let metrics = w.graph.get(node).unwrap();
    let copy = metrics.clone();
    assert_eq!(format!("{copy:?}"), format!("{metrics:?}"));
    assert_eq!(copy.total_poll_time_ns, 10);
    assert_eq!(copy.custom[0].clone().value, Some(6));
    assert_eq!(copy.custom[0].key, "held");
}

#[test]
fn a_timer_without_sessions_stands_still() {
    let mut timer = LiveTimer::new();
    assert_eq!(timer.total_time_live_ns(5), 0);
    timer.start_session(10);
    assert_eq!(timer.num_open(), 1);
    timer.end_session(25);
    assert_eq!(timer.num_open(), 0);
    assert_eq!(timer.total_time_live_ns(25), 15);
    assert_eq!(timer.total_time_live_ns(1000), 15);
}

#[test]
fn what_does_not_fit_is_not_flushed() {
    let [node] = nodes();
    let mut w = World::new();
    for _ in 0..2 {
        let task = w.tasks.register();
        w.graph.add_task(node, task);
        assert!(w.can_flush());
        w.tasks.record_poll(task, poll(u64::MAX));
    }
    // One task's time alone would fit.
    assert!(!w.can_flush());

    let [sender, receiver] = nodes();
    let mut w = World::new();
    let pipe = w.pipes.insert(LogicalPipe { sender, receiver });
    let full = PipeMetrics {
        morsels_sent: 1,
        rows_sent: u64::MAX,
        largest_morsel_sent: u64::MAX,
        morsels_received: 1,
        rows_received: 1,
        largest_morsel_received: 1,
    };
    let number = w.pipe_metrics.add(full);
    w.graph.add_pipe(pipe, number);
    assert!(w.can_flush());
    w.graph.add_pipe(pipe, number);
    assert!(!w.can_flush());

    // Input and output that is gone cannot be read.
    let mut w = World::new();
    let number = w.io.add(IOMetrics::new());
    w.graph.register_io_metrics(node, number);
    assert!(w.can_flush());
    w.io.remove(number);
    assert!(!w.can_flush());
}

#[test]
fn a_node_that_is_no_longer_in_use_is_not_flushed() {
    let mut nodes: SlotMap<DefaultKey, ()> = SlotMap::new();
    let older = nodes.insert(());
    nodes.remove(older);
    let newer = nodes.insert(()).data().as_ffi();
    let older = older.data().as_ffi();
    let mut w = World::new();
    let task = w.tasks.register();
    w.graph.add_task(older, task);
    assert!(w.can_flush());
    w.graph.start_state_update(newer);
    assert!(!w.can_flush());
    assert!(w.graph.takes(Collected::Tasks, newer));
    assert!(!w.graph.takes(Collected::Nodes, older));
}

#[test]
fn state_updates_are_timed() {
    let [node] = nodes();
    let mut w = World::new();
    w.graph.start_state_update(node);
    assert!(w.graph.get(node).unwrap().state_update_in_progress);
    w.graph.stop_state_update(node, 40, false);
    w.graph.start_state_update(node);
    w.graph.stop_state_update(node, 10, true);
    let counters = w.graph.get(node).unwrap();
    assert!(!counters.state_update_in_progress);
    assert!(counters.done);
    assert_eq!(counters.total_state_updates, 2);
    assert_eq!(counters.total_state_update_time_ns, 50);
    assert_eq!(counters.max_state_update_time_ns, 40);
}

#[test]
fn custom_metrics_are_read_at_a_flush() {
    let [node] = nodes();
    let mut w = World::new();
    let mut custom = w.graph.take_custom_metrics(node);
    let idx = custom.register(MetricSpec::new("rows".to_string(), MetricUnit::Unit, AggMode::Sum));
    let cell = custom.new_cell(idx);
    custom.write_cell(idx, cell, 6, 1);
    w.graph.put_custom_metrics(node, custom);
    w.flush(0);
    let metrics = &w.graph.get(node).unwrap().custom;
    assert_eq!(metrics.len(), 1);
    assert_eq!(metrics[0].key, "rows");
    assert_eq!(metrics[0].value, Some(6));
}

#[test]
fn nodes_come_in_the_order_of_their_slots() {
    let [a, b, c] = nodes();
    let mut w = World::new();
    for node in [c, a, b] {
        w.graph.start_state_update(node);
    }
    let order: Vec<u64> = w.graph.iter().into_iter().map(|(key, _)| key).collect();
    assert_eq!(order, [a, b, c]);
    assert!(w.graph.get((1 << 32) | 77).is_none());
    w.graph.query_mut().num_phases = 4;
    assert_eq!(w.graph.query().num_phases, 4);
}

#[test]
fn a_slot_that_is_used_again_forgets_its_older_node() {
    let mut slots: SlotMap<DefaultKey, ()> = SlotMap::new();
    let first = slots.insert(());
    slots.remove(first);
    let second = slots.insert(());
    let [first, second] = [first, second].map(|key| key.data().as_ffi());

    let mut w = World::new();
    w.graph.start_state_update(first);
    let task = w.tasks.register();
    w.tasks.record_poll(task, poll(9));
    w.graph.add_task(second, task);
    w.flush(0);
    assert!(w.graph.get(first).is_none());
    assert_eq!(w.graph.get(second).unwrap().total_poll_time_ns, 9);
    assert!(!w.graph.get(second).unwrap().state_update_in_progress);
}

#[test]
fn io_metrics_are_registered_with_the_graph() {
    let [node] = nodes();
    let mut graphs = GraphTable::new();
    let graph = graphs.add(GraphMetrics::new());
    let registry = NodeMetricsRegistry {
        graph_key: node,
        graph_metrics: Some(graph),
    };
    assert!(registry.is_some());
    registry.register_io_metrics(&mut graphs, 3);
    registry.register_io_metrics(&mut graphs, 3);
    assert_eq!(graphs.get(graph).unwrap().io_metrics(node), Some(3));

    let nowhere = NodeMetricsRegistry {
        graph_metrics: None,
        ..registry
    };
    nowhere.register_io_metrics(&mut graphs, 5);
    assert_eq!(graphs.get(graph).unwrap().io_metrics(node), Some(3));
}

#[test]
fn overlapping_sessions_count_once() {
    let mut timer = LiveTimer::new();
    assert_eq!(timer.total_time_live_ns(50), 0);
    timer.start_session(10);
    timer.start_session(12);
    assert_eq!(timer.num_open(), 2);
    assert_eq!(timer.total_time_live_ns(15), 5);
    timer.end_session(20);
    timer.end_session(25);
    assert_eq!(timer.total_time_live_ns(100), 15);
    timer.start_session(100);
    timer.end_session(101);
    assert_eq!(timer.total_time_live_ns(500), 16);
}
