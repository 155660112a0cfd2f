use polars_engine::executor::attribution::{
    current_task_attribution, is_scheduling_polars_executor_thread, scoped_task_attribution,
    track_poll_cpu_time, track_task_metrics, with_current_attribution, ThreadContext,
    TrackingSettings,
};
use polars_engine::executor::identity::{
    block_in_place, AcquireStep, IdentityOffer, IdentityRequest, RunnerCounts,
};
use polars_engine::executor::permutation::{
    permutation_from_draws, random_permutation, thread_random_permutation, Draws,
};
use polars_engine::executor::runner::{
    begin_turn, measures_cpu, Fetch, FetchStep, PollMeasurement, Turn,
};
use polars_engine::executor::scheduler::{Executor, Wake};
use polars_engine::executor::stealing::{StealSearch, StealStep};
use polars_engine::executor::task::{TaskMetrics, TaskMetricsTable, TaskPriority};
use polars_engine::executor::try_steal::StealAttempt;
use polars_engine::executor::worker_state::{
    poll_cpu, worker_state_times, PollRecord, WorkerStateCounters, WorkerStateTimes,
};
use rand::rngs::SmallRng;
use rand::SeedableRng;

fn rng() -> SmallRng {
    SmallRng::seed_from_u64(7)
}

/// Queues a task that was scheduled before, as `thread`.
fn wake(executor: &mut Executor, thread: usize, task: u64, priority: TaskPriority) -> Wake {
    let mut fresh = false;
    executor.schedule_task(thread, task, priority, &mut fresh)
}

/// Searches until a task is found or there is none.
fn steal(executor: &mut Executor, thread: usize) -> Option<u64> {
    match executor.try_steal_task(thread, &mut rng(), 10_000) {
        StealAttempt::Found(task) => Some(task),
        StealAttempt::Nothing => None,
        StealAttempt::Impatient => panic!("the search does not end"),
    }
}

#[test]
fn a_new_task_joins_the_global_queue_of_its_priority() {
    let mut executor = Executor::new(vec![0, 0], 1);
    let mut fresh = true;
    let wake = executor.schedule_task(0, 1, TaskPriority::Low, &mut fresh);
    assert_eq!(wake, Wake::AnyRegion);
    assert!(!fresh);
    let mut fresh = true;
    executor.schedule_task(usize::MAX, 2, TaskPriority::High, &mut fresh);

    // High priority tasks are taken first, whoever queued them.
    assert_eq!(executor.take_local(0), None);
    assert_eq!(steal(&mut executor, 1), Some(2));
    assert_eq!(steal(&mut executor, 1), Some(1));
    assert_eq!(steal(&mut executor, 1), None);
}

#[test]
fn a_thread_keeps_its_newest_high_priority_task() {
    let mut executor = Executor::new(vec![1, 0], 2);
    assert_eq!(wake(&mut executor, 0, 1, TaskPriority::High), Wake::Nobody);
    assert_eq!(wake(&mut executor, 0, 2, TaskPriority::High), Wake::Region(1));
    assert_eq!(wake(&mut executor, 0, 3, TaskPriority::High), Wake::Region(1));

    // The slot first, then the newest of the queue.
    assert_eq!(executor.take_local(0), Some(3));
    assert_eq!(executor.take_local(0), Some(2));
    assert_eq!(executor.take_local(0), Some(1));
    assert_eq!(executor.take_local(0), None);
}

#[test]
fn a_low_priority_task_stays_only_with_an_idle_thread() {
    let mut executor = Executor::new(vec![0, 0], 1);
    assert_eq!(wake(&mut executor, 0, 1, TaskPriority::Low), Wake::Nobody);
    assert_eq!(wake(&mut executor, 0, 2, TaskPriority::Low), Wake::Region(0));
    assert_eq!(executor.take_local(0), Some(1));
    assert_eq!(executor.take_local(0), None);
    assert_eq!(steal(&mut executor, 0), Some(2));
}

#[test]
fn a_task_from_outside_joins_the_global_queue() {
    let mut executor = Executor::new(vec![0], 1);
    assert_eq!(wake(&mut executor, 9, 4, TaskPriority::High), Wake::AnyRegion);
    assert_eq!(executor.take_local(0), None);
    assert_eq!(steal(&mut executor, 0), Some(4));
}

#[test]
fn stealing_takes_the_oldest_and_loses_none() {
    let mut executor = Executor::new(vec![0, 0, 0], 1);
    for task in 0..9 {
        wake(&mut executor, 0, task, TaskPriority::High);
    }
    // Task 8 is in the slot, where nobody steals it.
    let mut found: Vec<u64> = Vec::new();
    while let Some(task) = steal(&mut executor, 1) {
        found.push(task);
    }
    found.sort();
    assert_eq!(found, (0..8).collect::<Vec<u64>>());
    assert_eq!(executor.take_local(0), Some(8));
}

#[test]
fn a_batch_moves_to_the_thief_and_its_last_task_is_run() {
    let mut executor = Executor::new(vec![0, 0, 0], 1);
    for task in 0..5 {
        wake(&mut executor, 0, task, TaskPriority::High);
    }
    // Of the four queued tasks, half are taken from the front.
    assert_eq!(steal(&mut executor, 2), Some(1));
    assert_eq!(executor.take_local(2), Some(0));
    assert_eq!(executor.take_local(2), None);
    assert_eq!(executor.take_local(0), Some(4));
    assert_eq!(executor.take_local(0), Some(3));
    assert_eq!(executor.take_local(0), Some(2));
    assert_eq!(executor.take_local(0), None);
}

#[test]
fn the_last_round_leaves_the_region() {
    // Threads 1 and 2 are alone in their regions.
    let mut executor = Executor::new(vec![0, 1, 2], 3);
    for task in 0..2 {
        wake(&mut executor, 0, task, TaskPriority::High);
    }
    assert_eq!(steal(&mut executor, 1), Some(0));
    assert!(!executor.same_region(0, 1));
    assert!(executor.same_region(2, 2));
    assert_eq!(executor.num_threads(), 3);
    assert_eq!(executor.num_regions(), 3);
}

#[test]
fn a_search_over_empty_queues_ends() {
    let mut executor = Executor::new(vec![0, 0, 1, 1, 1], 2);
    let mut rng = rng();
    let mut search = StealSearch::new(3);
    let mut steps = 0;
    loop {
        steps += 1;
        match search.step(&mut executor, &mut rng) {
            StealStep::Exhausted => break,
            StealStep::Found(task) => panic!("found {task}"),
            _ => {},
        }
    }
    // Two global queues, three passes over three threads and one over five.
    assert_eq!(steps, 2 + 3 * (3 + 2) + (5 + 2));
    assert_eq!(search.step(&mut executor, &mut rng), StealStep::Exhausted);
}

#[test]
fn an_impatient_search_changes_nothing() {
    let mut executor = Executor::new(vec![0, 1, 2], 3);
    for task in 0..2 {
        wake(&mut executor, 0, task, TaskPriority::High);
    }
    // The queue may be asked in vain: then the task is still there.
    let found = match executor.try_steal_task(1, &mut rng(), 0) {
        StealAttempt::Impatient => executor.try_steal_task(1, &mut rng(), 1_000),
        found => found,
    };
    assert_eq!(found, StealAttempt::Found(0));
    assert_eq!(
        executor.try_steal_task(1, &mut rng(), 1_000),
        StealAttempt::Nothing
    );
}

#[test]
fn a_search_of_empty_queues_needs_no_patience() {
    let mut executor = Executor::new(vec![0, 0, 1], 2);
    for patience in 0..3 {
        assert_eq!(
            executor.try_steal_task(0, &mut rng(), patience),
            StealAttempt::Nothing
        );
    }
}

#[test]
fn of_two_threads_each_finds_what_the_other_has() {
    for seed in 0..50 {
        for regions in [vec![0, 0], vec![0, 1]] {
            let mut executor = Executor::new(regions, 2);
            for task in 0..2 {
                wake(&mut executor, 0, task, TaskPriority::High);
            }
            let mut rng = SmallRng::seed_from_u64(seed);
            assert_eq!(
                executor.try_steal_task(1, &mut rng, 1_000),
                StealAttempt::Found(0)
            );
        }
    }
}

fn is_permutation(order: &[u32], len: u32) -> bool {
    let mut sorted = order.to_vec();
    sorted.sort();
    sorted == (0..len).collect::<Vec<u32>>()
}

#[test]
fn visiting_orders_are_permutations() {
    let mut rng = rng();
    for len in [0, 1, 2, 3, 4, 5, 7, 8, 9, 31, 100] {
        for _ in 0..20 {
            assert!(is_permutation(&random_permutation(len, &mut rng), len));
            assert!(is_permutation(&thread_random_permutation(len), len));
        }
    }
}

#[test]
fn two_are_visited_once_each() {
    let draws = Draws {
        displace_zero: 12345,
        odd1: 77,
        odd2: 99,
        uniform_first: 0xf000_0000,
    };
    assert_eq!(permutation_from_draws(2, draws), [0, 1]);
    let draws = Draws {
        uniform_first: 0,
        ..draws
    };
    assert_eq!(permutation_from_draws(2, draws), [1, 0]);
    let mut rng = SmallRng::seed_from_u64(0);
    let mut order = random_permutation(2, &mut rng);
    order.sort();
    assert_eq!(order, [0, 1]);
}

#[test]
fn an_order_follows_from_its_draws() {
    let draws = Draws {
        displace_zero: 0,
        odd1: 0,
        odd2: 0,
        uniform_first: 0,
    };
    // With neutral multipliers only the halves are mixed.
    assert_eq!(permutation_from_draws(8, draws), [0, 1, 3, 2, 6, 7, 5, 4]);
    let later = Draws {
        uniform_first: 0x8000_0000,
        ..draws
    };
    assert_eq!(permutation_from_draws(8, later), [4, 5, 7, 6, 2, 3, 1, 0]);
    // What is out of range is left out.
    assert_eq!(permutation_from_draws(5, draws), [0, 1, 3, 2, 4]);
}

#[test]
fn draws_differ() {
    let mut rng = rng();
    let orders: Vec<Vec<u32>> = (0..10).map(|_| random_permutation(64, &mut rng)).collect();
    assert!(orders.iter().any(|order| *order != orders[0]));
    let orders: Vec<Vec<u32>> = (0..10).map(|_| thread_random_permutation(64)).collect();
    assert!(orders.iter().any(|order| *order != orders[0]));
}

#[test]
fn waking_asks_regions_until_one_answers() {
    let executor = Executor::new(vec![0, 1, 2, 2], 3);
    let mut asked = Vec::new();
    let mut search = executor.unpark_one_worker_random_numa_region();
    while let Some(region) = search.next_region() {
        asked.push(region as u32);
        search.answered(false);
    }
    assert!(is_permutation(&asked, 3));

    let mut search = executor.unpark_one_worker_random_numa_region();
    assert!(search.next_region().is_some());
    search.answered(true);
    assert_eq!(search.next_region(), None);

    let single = Executor::new(vec![0], 1);
    let search = single.unpark_one_worker_random_numa_region();
    assert_eq!(search.next_region(), Some(0));
}

#[test]
fn waking_goes_elsewhere_only_where_there_is_an_elsewhere() {
    let one = Executor::new(vec![0], 1);
    let two = Executor::new(vec![0, 1], 2);
    assert!(!one.wakes_elsewhere(false));
    assert!(two.wakes_elsewhere(false));
    assert!(!two.wakes_elsewhere(true));
    assert!(two.recruits_elsewhere(Some(false)));
    assert!(!two.recruits_elsewhere(Some(true)));
    assert!(!two.recruits_elsewhere(None));
    assert!(!one.recruits_elsewhere(Some(false)));
}

#[test]
fn a_blocked_thread_gets_its_identity_back() {
    let mut context: ThreadContext<u64> = ThreadContext::new();
    assert!(block_in_place(&mut context).is_none());

    context.become_runner(Some(3), 1);
    assert!(is_scheduling_polars_executor_thread(&context));
    let mut counts = RunnerCounts::new(2, 4);
    let mut offer = block_in_place(&mut context).unwrap();
    assert!(!is_scheduling_polars_executor_thread(&context));

    // Nobody waits for an identity, so a runner is made.
    assert_eq!(counts.ensure_runner_without_identity_exists(1), Some(4));
    assert_eq!(counts.ensure_runner_without_identity_exists(1), None);

    counts.restore_identity(&mut context, &mut offer);
    assert_eq!(context.thread_id, Some(3));
    assert_eq!(offer.take(), None);
}

#[test]
fn a_blocked_thread_that_lost_its_identity_becomes_a_runner() {
    let mut context: ThreadContext<u64> = ThreadContext::new();
    context.become_runner(Some(3), 0);
    let mut counts = RunnerCounts::new(1, 4);
    let mut offer = block_in_place(&mut context).unwrap();
    assert_eq!(counts.ensure_runner_without_identity_exists(0), Some(4));

    // The runner takes the identity, and no offer is left behind.
    let mut request = IdentityRequest::new(0);
    assert_eq!(request.received(offer.take(), &mut counts), AcquireStep::CheckQueue);
    assert_eq!(
        request.queue_checked(true, &mut counts),
        AcquireStep::Acquired(3, None)
    );

    counts.restore_identity(&mut context, &mut offer);
    assert_eq!(context.thread_id, None);
    // Counted as a runner again, so that no other is made.
    assert_eq!(counts.ensure_runner_without_identity_exists(0), None);
}

#[test]
fn the_last_runner_to_leave_sees_to_offers_left_behind() {
    let mut counts = RunnerCounts::new(1, 2);
    counts.spawn_runner_without_identity(0);
    let mut request = IdentityRequest::new(0);
    assert_eq!(request.received(None, &mut counts), AcquireStep::Wait);
    assert_eq!(request.received(Some(1), &mut counts), AcquireStep::CheckQueue);
    assert_eq!(
        request.queue_checked(false, &mut counts),
        AcquireStep::Acquired(1, Some(3))
    );

    // With another runner waiting there is nothing to check.
    counts.spawn_runner_without_identity(0);
    let mut request = IdentityRequest::new(0);
    assert_eq!(
        request.received(Some(0), &mut counts),
        AcquireStep::Acquired(0, None)
    );
}

#[test]
fn a_runner_gives_up_only_when_no_offer_is_queued() {
    let mut counts = RunnerCounts::new(1, 2);
    counts.spawn_runner_without_identity(0);
    let mut request = IdentityRequest::new(0);
    assert_eq!(request.timed_out(&mut counts), AcquireStep::CheckQueue);
    assert_eq!(request.queue_checked(false, &mut counts), AcquireStep::Wait);
    assert_eq!(request.timed_out(&mut counts), AcquireStep::CheckQueue);
    assert_eq!(request.queue_checked(true, &mut counts), AcquireStep::GiveUp);
    assert_eq!(counts.ensure_runner_without_identity_exists(0), Some(3));
}

#[test]
fn an_identity_is_handed_out_once() {
    let mut offer = IdentityOffer::new(5);
    assert_eq!(offer.take(), Some(5));
    for _ in 0..3 {
        assert_eq!(offer.take(), None);
    }
}

#[test]
fn a_runner_runs_its_own_task_first() {
    let mut executor = Executor::new(vec![0, 0, 0], 1);
    let mut rng = rng();
    wake(&mut executor, 0, 1, TaskPriority::High);
    let mut fresh = true;
    executor.schedule_task(0, 2, TaskPriority::High, &mut fresh);

    let mut fetch = Fetch::new(0);
    assert_eq!(fetch.step(&mut executor, &mut rng, 1_000), FetchStep::Run(1, true));

    let mut fetch = Fetch::new(0);
    assert_eq!(fetch.step(&mut executor, &mut rng, 1_000), FetchStep::Continue);
    loop {
        match fetch.step(&mut executor, &mut rng, 1_000) {
            FetchStep::Run(task, local) => {
                assert_eq!((task, local), (2, false));
                break;
            },
            FetchStep::Continue => {},
            other => panic!("unexpected {other:?}"),
        }
    }
}

#[test]
fn a_runner_parks_only_after_a_second_search() {
    let mut executor = Executor::new(vec![0, 0, 0], 1);
    let mut rng = rng();
    let mut steps = Vec::new();
    let mut fetch = Fetch::new(1);
    loop {
        match fetch.step(&mut executor, &mut rng, 1_000) {
            FetchStep::PreparePark => {
                steps.push("prepare");
                fetch.park_prepared();
            },
            FetchStep::Park => {
                steps.push("park");
                fetch.parked();
                break;
            },
            FetchStep::Run(task, _) => panic!("ran {task}"),
            FetchStep::Continue => {},
        }
    }
    assert_eq!(steps, ["prepare", "park"]);

    // A task that is queued after the announcement is found before parking.
    let mut fetch = Fetch::new(1);
    loop {
        match fetch.step(&mut executor, &mut rng, 1_000) {
            FetchStep::PreparePark => {
                fetch.park_prepared();
                let mut fresh = true;
                executor.schedule_task(usize::MAX, 6, TaskPriority::Low, &mut fresh);
            },
            FetchStep::Run(task, local) => {
                assert_eq!((task, local), (6, false));
                break;
            },
            FetchStep::Park => panic!("parked with a task queued"),
            FetchStep::Continue => {},
        }
    }
}

#[test]
fn a_runner_without_identity_asks_for_one() {
    let mut context: ThreadContext<u64> = ThreadContext::new();
    context.become_runner(None, 0);
    assert_eq!(begin_turn(&context), Turn::AcquireIdentity);
    assert!(!context.allow_rayon_threads);
    assert!(context.spawned_by_polars_executor);
    context.thread_id = Some(2);
    assert_eq!(begin_turn(&context), Turn::Fetch(2));
}

#[test]
fn attribution_is_scoped_and_restored() {
    let mut context: ThreadContext<u64> = ThreadContext::new();
    let outer = scoped_task_attribution(&mut context, Some(1));
    let inner = scoped_task_attribution(&mut context, Some(2));
    assert_eq!(current_task_attribution(&context), Some(2));

    // A future that runs elsewhere carries the attribution along.
    let attributed = with_current_attribution(&context, "future");
    assert_eq!(attributed.attribution, Some(2));
    assert_eq!(attributed.fut, "future");

    inner.restore(&mut context);
    assert_eq!(current_task_attribution(&context), Some(1));
    outer.restore(&mut context);
    assert_eq!(current_task_attribution(&context), None);

    let guard = attributed.enter(&mut context);
    assert_eq!(current_task_attribution(&context), Some(2));
    guard.restore(&mut context);
    assert_eq!(current_task_attribution(&context), None);
}

#[test]
fn tracking_is_off_until_it_is_switched_on() {
    let mut settings = TrackingSettings::default();
    assert!(!settings.task_metrics && !settings.poll_cpu_time);
    track_poll_cpu_time(&mut settings, true);
    // Needs task metrics.
    assert!(!measures_cpu(settings));
    track_task_metrics(&mut settings, true);
    assert!(measures_cpu(settings));
    track_poll_cpu_time(&mut settings, false);
    assert!(settings.task_metrics && !measures_cpu(settings));
}

#[test]
fn a_fetch_is_overhead_and_sleep() {
    let mut counters = WorkerStateCounters::new();
    counters.record_fetch(100, 30);
    counters.record_fetch(10, 0);
    // A sleep measured as longer than the fetch does not underflow.
    counters.record_fetch(5, 9);
    let times = counters.read();
    assert_eq!(times.overhead_ns, 80);
    assert_eq!(times.parked_ns, 39);
    assert_eq!(times.total_ns(), 119);
}

#[test]
fn a_poll_is_counted_per_thread_and_per_task() {
    let mut counters = WorkerStateCounters::new();
    let mut metrics = TaskMetrics::default();
    let poll = PollRecord {
        elapsed_ns: 50,
        cpu_ns: 40,
        local: true,
        attributed: true,
    };
    let stolen = PollRecord {
        elapsed_ns: 20,
        cpu_ns: 0,
        local: false,
        attributed: false,
    };
    for record in [poll, stolen] {
        counters.record_poll(record);
        metrics.record_poll(record);
    }
    let times = counters.read();
    assert_eq!(times.poll_ns, 70);
    assert_eq!(times.poll_cpu_ns, 40);
    assert_eq!(times.unattributed_poll_ns, 20);
    assert_eq!(metrics.total_polls, 2);
    assert_eq!(metrics.total_stolen_polls, 1);
    assert_eq!(metrics.total_poll_time_ns, 70);
    assert_eq!(metrics.max_poll_time_ns, 50);
    assert_eq!(metrics.total_poll_cpu_time_ns, 40);
    assert!(!metrics.done);
}

#[test]
fn worker_times_sum_over_workers() {
    let mut a = WorkerStateCounters::new();
    let mut b = WorkerStateCounters::new();
    a.record_fetch(10, 4);
    b.record_fetch(7, 0);
    b.record_poll(PollRecord {
        elapsed_ns: 3,
        cpu_ns: 2,
        local: true,
        attributed: false,
    });
    let total = worker_state_times(&vec![a, b]);
    assert_eq!(
        total,
        WorkerStateTimes {
            poll_ns: 3,
            overhead_ns: 13,
            parked_ns: 4,
            poll_cpu_ns: 2,
            unattributed_poll_ns: 3,
        }
    );
    assert_eq!(worker_state_times(&vec![]), WorkerStateTimes::default());
}

#[test]
fn the_summed_times_never_go_backwards() {
    let mut workers = vec![WorkerStateCounters::new(), WorkerStateCounters::new()];
    let mut earlier = worker_state_times(&workers);
    for i in 0..10usize {
        if i % 3 == 0 {
            workers[i % 2].record_fetch(7, i as u64);
        } else {
            workers[i % 2].record_poll(PollRecord {
                elapsed_ns: i as u64,
                cpu_ns: 1,
                local: true,
                attributed: i % 4 == 0,
            });
        }
        let later = worker_state_times(&workers);
        assert!(later.poll_ns >= earlier.poll_ns);
        assert!(later.overhead_ns >= earlier.overhead_ns);
        assert!(later.parked_ns >= earlier.parked_ns);
        assert!(later.poll_cpu_ns >= earlier.poll_cpu_ns);
        assert!(later.unattributed_poll_ns >= earlier.unattributed_poll_ns);
        earlier = later;
    }
    assert_eq!(earlier.poll_ns, 1 + 2 + 4 + 5 + 7 + 8);
    assert_eq!(earlier.overhead_ns, 7 + 4 + 1);
    assert_eq!(earlier.parked_ns, 3 + 6 + 9);
}

#[test]
fn gains_are_counted_since_a_snapshot() {
    let earlier = WorkerStateTimes {
        poll_ns: 10,
        overhead_ns: 20,
        parked_ns: 30,
        poll_cpu_ns: 9,
        unattributed_poll_ns: 1,
    };
    let later = WorkerStateTimes {
        poll_ns: 15,
        overhead_ns: 26,
        parked_ns: 37,
        poll_cpu_ns: 17,
        unattributed_poll_ns: 0,
    };
    let gained = later.since(&earlier);
    assert_eq!(
        gained,
        WorkerStateTimes {
            poll_ns: 5,
            overhead_ns: 6,
            parked_ns: 7,
            poll_cpu_ns: 8,
            unattributed_poll_ns: 0,
        }
    );
    assert_eq!(gained.total_ns(), later.total_ns() - earlier.total_ns());
}

#[test]
fn poll_cpu_needs_both_readings() {
    assert_eq!(poll_cpu(Some(10), Some(25)), 15);
    assert_eq!(poll_cpu(Some(25), Some(10)), 0);
    assert_eq!(poll_cpu(None, Some(10)), 0);
    assert_eq!(poll_cpu(Some(10), None), 0);
}

#[test]
fn a_metrics_table_numbers_its_entries() {
    let mut table = TaskMetricsTable::new();
    assert!(table.can_register());
    let a = table.register();
    let b = table.register();
    assert!(a != b);
    let poll = PollRecord {
        elapsed_ns: 5,
        cpu_ns: 1,
        local: true,
        attributed: true,
    };
    table.record_poll(a, poll);
    assert_eq!(table.get(a).unwrap().total_polls, 1);
    assert_eq!(table.get(b), Some(TaskMetrics::default()));
    table.mark_done(b);
    assert!(table.get(b).unwrap().done);
    table.release(a);
    assert_eq!(table.get(a), None);
    // What is gone is left alone.
    table.record_poll(a, poll);
    table.mark_done(a);
    assert_eq!(table.get(a), None);
    assert!(table.register() != a);
}

#[test]
fn a_measurement_compares_by_its_fields() {
    let measured = PollMeasurement {
        elapsed_ns: 5,
        cpu_before: Some(1),
        cpu_after: Some(2),
        local: false,
    };
    assert_eq!(measured, measured);
}
