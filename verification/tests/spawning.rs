use polars_engine::executor::attribution::{scoped_task_attribution, TaskAttribution, ThreadContext};
use polars_engine::executor::runner::{begin_poll, end_poll, PollMeasurement};
use polars_engine::executor::scheduler::{Executor, Wake};
use polars_engine::executor::scope::TaskScope;
use polars_engine::executor::spawn::{spawn, AbortOnDropHandle, Runtime, SpawnLocation};
use polars_engine::executor::task::TaskPriority;
use polars_engine::executor::try_steal::StealAttempt;
use polars_engine::executor::worker_state::{PollRecord, WorkerStateCounters};
use polars_engine::metrics::graph::GraphMetrics;
use polars_engine::metrics::registry::{
    attribute_tasks_to_node, node_attribution, GraphTable, NodeAttribution,
};
use polars_engine::opt_spawned_future::{
    parallelize_first_to_local, parallelize_first_to_local_observed, LocalOrSpawnedFuture,
};
use rand::rngs::SmallRng;
use rand::SeedableRng;

const HERE: SpawnLocation = SpawnLocation {
    file: "spawning.rs",
    line: 12,
    column: 3,
};

/// The key of the first slot of a slot map.
const NODE: u64 = (1 << 32) | 1;

struct World {
    runtime: Runtime<NodeAttribution>,
    context: ThreadContext<NodeAttribution>,
    graphs: GraphTable,
}

fn world() -> World {
    World {
        runtime: Runtime::new(Executor::new(vec![0, 0, 0], 1)),
        context: ThreadContext::new(),
        graphs: GraphTable::new(),
    }
}

fn next(world: &mut World) -> Option<u64> {
    let mut rng = SmallRng::seed_from_u64(1);
    match world.runtime.executor.try_steal_task(0, &mut rng, 10_000) {
        StealAttempt::Found(task) => Some(task),
        StealAttempt::Nothing => None,
        StealAttempt::Impatient => panic!("the search does not end"),
    }
}

#[test]
fn a_spawned_task_is_queued_and_known() {
    let mut w = world();
    let (handle, wake) = spawn(
        &mut w.runtime,
        &w.context,
        TaskPriority::High,
        HERE,
        &mut w.graphs,
    );
    assert_eq!(wake, Wake::AnyRegion);
    assert_eq!(next(&mut w), Some(handle.id()));
    let location = handle.spawn_location(&w.runtime.tasks).unwrap();
    assert_eq!((location.file, location.line, location.column), ("spawning.rs", 12, 3));
    // Nothing is measured unless tracking is on.
    assert_eq!(handle.metrics(&w.runtime.tasks), None);

    let metadata = w.runtime.tasks.get(handle.id()).unwrap();
    assert_eq!(metadata.priority, TaskPriority::High);
    assert!(!metadata.freshly_spawned && !metadata.cancelled);
    assert!(metadata.scoped.is_none() && metadata.attribution.is_none());
}

#[test]
fn a_task_that_is_woken_again_goes_to_its_thread() {
    let mut w = world();
    let (handle, _) = spawn(
        &mut w.runtime,
        &w.context,
        TaskPriority::High,
        HERE,
        &mut w.graphs,
    );
    assert_eq!(next(&mut w), Some(handle.id()));
    w.context.become_runner(Some(2), 0);
    assert_eq!(w.runtime.schedule(&w.context, handle.id()), Wake::Nobody);
    assert_eq!(w.runtime.executor.take_local(2), Some(handle.id()));
}

#[test]
fn a_measured_task_is_credited_to_the_node_that_spawned_it() {
    let mut w = world();
    w.runtime.settings.task_metrics = true;
    let graph = w.graphs.add(GraphMetrics::new());
    let guard = attribute_tasks_to_node(&mut w.context, &mut w.graphs, NODE, Some(graph));
    let (handle, _) = spawn(
        &mut w.runtime,
        &w.context,
        TaskPriority::Low,
        HERE,
        &mut w.graphs,
    );
    guard.restore(&mut w.context);
    assert_eq!(w.context.attribution, None);

    let metrics = handle.metrics(&w.runtime.tasks).unwrap();
    let metadata = w.runtime.tasks.get(handle.id()).unwrap();
    assert_eq!(metadata.attribution, Some(NodeAttribution { graph, key: NODE }));

    // A poll is counted for the thread, the task and, while it lasts, the node.
    let mut counters = WorkerStateCounters::new();
    let poll = begin_poll(&metadata, &mut w.context, 1_000, &mut w.graphs);
    assert_eq!(w.context.attribution, metadata.attribution);
    end_poll(
        poll,
        PollMeasurement {
            elapsed_ns: 500,
            cpu_before: Some(10),
            cpu_after: Some(30),
            local: false,
        },
        &mut counters,
        &mut w.runtime.metrics,
        &mut w.context,
        1_500,
        &mut w.graphs,
    );
    assert_eq!(w.context.attribution, None);
    assert_eq!(counters.read().poll_ns, 500);
    assert_eq!(counters.read().unattributed_poll_ns, 0);
    assert_eq!(w.runtime.metrics.get(metrics).unwrap().total_stolen_polls, 1);
    assert_eq!(w.runtime.metrics.get(metrics).unwrap().total_poll_cpu_time_ns, 20);

    let graph = w.graphs.get(graph).unwrap();
    assert!(graph.tracks_occupancy(NODE));
}

#[test]
fn a_task_without_attribution_is_unattributed() {
    let mut w = world();
    w.runtime.settings.task_metrics = true;
    let (handle, _) = spawn(
        &mut w.runtime,
        &w.context,
        TaskPriority::Low,
        HERE,
        &mut w.graphs,
    );
    let metadata = w.runtime.tasks.get(handle.id()).unwrap();
    let mut counters = WorkerStateCounters::new();
    let poll = begin_poll(&metadata, &mut w.context, 0, &mut w.graphs);
    end_poll(
        poll,
        PollMeasurement {
            elapsed_ns: 5,
            cpu_before: None,
            cpu_after: None,
            local: true,
        },
        &mut counters,
        &mut w.runtime.metrics,
        &mut w.context,
        5,
        &mut w.graphs,
    );
    assert_eq!(counters.read().unattributed_poll_ns, 5);
}

#[test]
fn a_task_that_outlives_its_query_stops_reporting() {
    let mut w = world();
    w.runtime.settings.task_metrics = true;
    let graph = w.graphs.add(GraphMetrics::new());
    let attribution = node_attribution(&mut w.graphs, graph, NODE);
    w.graphs.remove(graph);

    let guard = scoped_task_attribution(&mut w.context, Some(attribution));
    let (handle, _) = spawn(
        &mut w.runtime,
        &w.context,
        TaskPriority::Low,
        HERE,
        &mut w.graphs,
    );
    guard.restore(&mut w.context);
    assert!(handle.metrics(&w.runtime.tasks).is_some());
    assert!(!attribution.poll_session(3, &mut w.graphs));
    attribution.end_poll_session(4, &mut w.graphs);
    assert!(!w.graphs.contains(graph));
}

#[test]
fn a_dropped_task_is_done() {
    let mut w = world();
    w.runtime.settings.task_metrics = true;
    let (handle, _) = spawn(
        &mut w.runtime,
        &w.context,
        TaskPriority::High,
        HERE,
        &mut w.graphs,
    );
    let metrics = handle.metrics(&w.runtime.tasks).unwrap();
    assert!(!w.runtime.metrics.get(metrics).unwrap().done);
    let scoped = w.runtime.tasks.drop_task(handle.id(), &mut w.runtime.metrics);
    assert!(scoped.is_none());
    assert!(w.runtime.metrics.get(metrics).unwrap().done);
    assert!(w.runtime.tasks.get(handle.id()).is_none());
    assert_eq!(handle.metrics(&w.runtime.tasks), None);
    assert!(handle.spawn_location(&w.runtime.tasks).is_none());

    // There is nothing left to cancel.
    assert!(!handle.cancel_handle().cancel(&mut w.runtime.tasks));
}

#[test]
fn a_task_can_be_cancelled() {
    let mut w = world();
    let (handle, _) = spawn(
        &mut w.runtime,
        &w.context,
        TaskPriority::High,
        HERE,
        &mut w.graphs,
    );
    let id = handle.id();
    assert!(handle.cancel_handle().cancel(&mut w.runtime.tasks));
    assert!(w.runtime.tasks.get(id).unwrap().cancelled);

    let (handle, _) = spawn(
        &mut w.runtime,
        &w.context,
        TaskPriority::High,
        HERE,
        &mut w.graphs,
    );
    let id = handle.id();
    let abort = AbortOnDropHandle::new(handle);
    assert_eq!(abort.join_handle().id(), id);
    assert!(!w.runtime.tasks.get(id).unwrap().cancelled);
    assert!(abort.abort(&mut w.runtime.tasks));
    assert!(w.runtime.tasks.get(id).unwrap().cancelled);
}

#[test]
fn a_scope_cancels_what_has_not_completed() {
    let mut w = world();
    let mut scope = TaskScope::new(40);
    let mut ids = Vec::new();
    for _ in 0..3 {
        assert!(scope.has_room());
        let (handle, wake) = scope.spawn_task(
            &mut w.runtime,
            &w.context,
            TaskPriority::High,
            HERE,
            &mut w.graphs,
        );
        assert_eq!(wake, Wake::AnyRegion);
        ids.push(handle.id());
    }

    // One task completes and reports so.
    let scoped = w
        .runtime
        .tasks
        .drop_task(ids[1], &mut w.runtime.metrics)
        .unwrap();
    assert_eq!(scoped.scope, 40);
    scope.task_completed(scoped.task_key);
    scope.clear_completed_tasks();

    // One is dropped without the scope having noticed yet.
    w.runtime.tasks.drop_task(ids[2], &mut w.runtime.metrics);

    let stopped = scope.destroy(&mut w.runtime.tasks);
    assert_eq!(stopped, [ids[0]]);
    assert!(w.runtime.tasks.get(ids[0]).unwrap().cancelled);
    // The end of the scope has nothing more to do.
    assert!(scope.destroy(&mut w.runtime.tasks).is_empty());
}

#[test]
fn the_first_future_stays_local() {
    let mut w = world();
    let (fanned, handed) = parallelize_first_to_local(
        &mut w.runtime,
        &w.context,
        TaskPriority::Low,
        HERE,
        &mut w.graphs,
        vec!["a", "b", "c"],
    );
    assert_eq!(fanned.len(), 3);
    assert!(matches!(fanned[0], LocalOrSpawnedFuture::Local { fut: "a" }));
    assert!(matches!(fanned[1], LocalOrSpawnedFuture::Spawned { .. }));
    let futures: Vec<&str> = handed.iter().map(|h| h.fut).collect();
    assert_eq!(futures, ["b", "c"]);
    // All are spawned up front, in order.
    assert_eq!(next(&mut w), Some(handed[0].task));
    assert_eq!(next(&mut w), Some(handed[1].task));
    assert_eq!(next(&mut w), None);
}

#[test]
fn fanned_out_tasks_are_measured_apart_from_earlier_ones() {
    let mut w = world();
    w.runtime.settings.task_metrics = true;
    let graph = w.graphs.add(GraphMetrics::new());
    let _guard = attribute_tasks_to_node(&mut w.context, &mut w.graphs, NODE, Some(graph));
    let (earlier, _) = spawn(
        &mut w.runtime,
        &w.context,
        TaskPriority::Low,
        HERE,
        &mut w.graphs,
    );
    let measured = earlier.metrics(&w.runtime.tasks).unwrap();
    w.runtime.metrics.record_poll(
        measured,
        PollRecord {
            elapsed_ns: 9,
            cpu_ns: 4,
            local: true,
            attributed: true,
        },
    );

    let (_, handed) = parallelize_first_to_local(
        &mut w.runtime,
        &w.context,
        TaskPriority::Low,
        HERE,
        &mut w.graphs,
        vec!["a", "b", "c"],
    );
    let numbers: Vec<u64> = handed
        .iter()
        .map(|h| w.runtime.tasks.get(h.task).unwrap().metrics.unwrap())
        .collect();
    assert_eq!(numbers.len(), 2);
    assert!(numbers[0] != numbers[1]);
    assert!(!numbers.contains(&measured));
    for number in numbers {
        let metrics = w.runtime.metrics.get(number).unwrap();
        assert_eq!((metrics.total_polls, metrics.total_poll_time_ns), (0, 0));
        assert!(!metrics.done);
    }
    assert_eq!(w.runtime.metrics.get(measured).unwrap().total_poll_time_ns, 9);
}

#[test]
fn a_task_that_is_not_measured_may_belong_to_a_displaced_node() {
    let mut w = world();
    let mut metrics = GraphMetrics::new();
    let newer = NODE + (2 << 32);
    metrics.add_task(newer, 0);
    let graph = w.graphs.add(metrics);
    let attribution = NodeAttribution { graph, key: NODE };
    assert!(!attribution.is_creditable(&w.graphs));
    let _guard = scoped_task_attribution(&mut w.context, Some(attribution));
    let (handle, _) = spawn(
        &mut w.runtime,
        &w.context,
        TaskPriority::Low,
        HERE,
        &mut w.graphs,
    );
    assert_eq!(handle.metrics(&w.runtime.tasks), None);
    assert_eq!(next(&mut w), Some(handle.id()));
}

#[test]
fn one_future_or_none_spawns_nothing() {
    let mut w = world();
    for futures in [vec![], vec![1]] {
        let n = futures.len();
        let (fanned, handed) = parallelize_first_to_local(
            &mut w.runtime,
            &w.context,
            TaskPriority::Low,
            HERE,
            &mut w.graphs,
            futures,
        );
        assert_eq!(fanned.len(), n);
        assert!(handed.is_empty());
    }
    assert_eq!(next(&mut w), None);
}

#[test]
fn a_spawned_future_reports_to_its_observer_once() {
    let mut w = world();
    w.runtime.settings.task_metrics = true;
    let (mut fanned, handed) = parallelize_first_to_local_observed(
        &mut w.runtime,
        &w.context,
        TaskPriority::High,
        HERE,
        &mut w.graphs,
        vec![10, 20],
        Some("observer"),
    );
    let metrics = w.runtime.tasks.get(handed[0].task).unwrap().metrics.unwrap();

    assert_eq!(fanned[0].polled(true, &w.runtime.tasks), None);
    assert_eq!(fanned[1].polled(false, &w.runtime.tasks), None);
    assert_eq!(
        fanned[1].polled(true, &w.runtime.tasks),
        Some(("observer", metrics))
    );
    assert_eq!(fanned[1].polled(true, &w.runtime.tasks), None);
}

#[test]
fn a_future_can_be_spawned_by_itself() {
    let mut w = world();
    let (future, handed) = LocalOrSpawnedFuture::<i32, u64>::spawn(
        &mut w.runtime,
        &w.context,
        TaskPriority::High,
        HERE,
        &mut w.graphs,
        5,
    );
    assert_eq!(handed.fut, 5);
    assert_eq!(handed.wake, Wake::AnyRegion);
    match future {
        LocalOrSpawnedFuture::Spawned { handle, observer } => {
            assert_eq!(handle.join_handle().id(), handed.task);
            assert_eq!(observer, None);
        },
        LocalOrSpawnedFuture::Local { .. } => panic!("not spawned"),
    }
}
